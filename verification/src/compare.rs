//! What one source of vulnerability data has and another has not.

use vstd::prelude::*;
use vstd::string::*;

use crate::pair_map::{Pair, PairMap};
use crate::exhort::ExhortRecord;
use crate::lists::lemma_filter_map_contains;
use crate::osv::OSVHeader;
use crate::text::{lowercase, lowered, same_text};
use crate::tpa_analyze::TPAHeaders;
use crate::versions::text_in;

verus! {

/// A vulnerability that only one of OSV and TPA knows of a package.
#[derive(Debug)]
pub struct OsvTpaComparisonRecord {
    pub purl: String,
    pub cve_id: String,
    pub osv_cvss: String,
    pub tpa_cvss: String,
    pub missing_in: String,
}

/// A vulnerability that only one of TPA and Exhort knows of a package.
#[derive(Debug)]
pub struct TpaExhortComparisonRecord {
    pub purl: String,
    pub cve_id: String,
    pub tpa_cvss: String,
    pub exhort_cvss: String,
    pub missing_in: String,
}

/// A vulnerability of a package with its score in either source, blank where the
/// source does not have it, and the source that does not.
pub struct Difference {
    pub pair: Pair,
    pub first: Seq<char>,
    pub second: Seq<char>,
    pub missing_in: Seq<char>,
}

impl View for OsvTpaComparisonRecord {
    type V = Difference;

    open spec fn view(&self) -> Difference {
        Difference {
            pair: (self.purl@, self.cve_id@),
            first: self.osv_cvss@,
            second: self.tpa_cvss@,
            missing_in: self.missing_in@,
        }
    }
}

impl View for TpaExhortComparisonRecord {
    type V = Difference;

    open spec fn view(&self) -> Difference {
        Difference {
            pair: (self.purl@, self.cve_id@),
            first: self.tpa_cvss@,
            second: self.exhort_cvss@,
            missing_in: self.missing_in@,
        }
    }
}

/// A package URL, a CVE and its score.
pub struct Scored {
    pub purl: Seq<char>,
    pub cve_id: Seq<char>,
    pub cvss: Seq<char>,
}

/// The score of a pair: that of the last record about it.
pub open spec fn score_in(records: Seq<Scored>, p: Pair) -> Option<Seq<char>>
    decreases records.len(),
{
    if records.len() == 0 {
        None
    } else if (records.last().purl, records.last().cve_id) == p {
        Some(records.last().cvss)
    } else {
        score_in(records.drop_last(), p)
    }
}

/// Whether a map holds the score of each pair that there is a record about.
pub open spec fn holds_scores(scores: Map<Pair, String>, records: Seq<Scored>) -> bool {
    forall|p: Pair|
        #![trigger scores.contains_key(p)]
        (scores.contains_key(p) <==> score_in(records, p) is Some) && (scores.contains_key(p)
            ==> score_in(records, p) == Some(scores[p]@))
}

fn put_score(scores: &mut PairMap<String>, purl: &String, cve_id: &String, cvss: &String)
    ensures
        final(scores)@ == old(scores)@.insert((purl@, cve_id@), *cvss),
{
    scores.insert(purl.as_str(), cve_id.as_str(), cvss.clone());
}

proof fn lemma_put_score(
    scores: Map<Pair, String>,
    records: Seq<Scored>,
    record: Scored,
    cvss: String,
)
    requires
        holds_scores(scores, records),
        cvss@ == record.cvss,
    ensures
        holds_scores(scores.insert((record.purl, record.cve_id), cvss), records.push(record)),
{
    let more = records.push(record);
    assert(more.drop_last() =~= records);
    let now = scores.insert((record.purl, record.cve_id), cvss);
    assert forall|p: Pair|
        #![trigger now.contains_key(p)]
        (now.contains_key(p) <==> score_in(more, p) is Some) && (now.contains_key(p) ==> score_in(
            more,
            p,
        ) == Some(now[p]@)) by {
        assert(scores.contains_key(p) <==> score_in(records, p) is Some);
    }
}

/// The records of OSV.
pub open spec fn osv_scores(records: Seq<OSVHeader>) -> Seq<Scored> {
    records.map_values(|r: OSVHeader| r@)
}

/// The records of Exhort.
pub open spec fn exhort_scores(records: Seq<ExhortRecord>) -> Seq<Scored> {
    records.map_values(|r: ExhortRecord| r@)
}

/// A record of TPA, where it is from the source that is asked for, whatever the
/// case of the letters, or where none is.
pub open spec fn from_source(record: TPAHeaders, source: Option<Seq<char>>) -> Option<Scored> {
    match source {
        Some(source) => if lowered(record@.source) == lowered(source) {
            Some(record@.scored)
        } else {
            None
        },
        None => Some(record@.scored),
    }
}

/// The records of TPA from a source, or all of them.
pub open spec fn tpa_scores(records: Seq<TPAHeaders>, source: Option<Seq<char>>) -> Seq<Scored> {
    records.filter_map(|r: TPAHeaders| from_source(r, source))
}

/// The scores of OSV.
pub fn normalize_osv_data(osv_data: &Vec<OSVHeader>) -> (r: PairMap<String>)
    ensures
        holds_scores(r@, osv_scores(osv_data@)),
{
    let ghost all = osv_scores(osv_data@);
    let mut scores: PairMap<String> = PairMap::new();
    for i in 0..osv_data.len()
        invariant
            all == osv_scores(osv_data@),
            holds_scores(scores@, all.take(i as int)),
    {
        let record = &osv_data[i];
        proof {
            lemma_put_score(scores@, all.take(i as int), record@, record.CVSS);
            assert(all.take(i as int).push(record@) =~= all.take(i + 1));
        }
        put_score(&mut scores, &record.PURL, &record.CVE_ID, &record.CVSS);
    }
    assert(all.take(all.len() as int) =~= all);
    scores
}

/// The scores of TPA, from one source or from all.
pub fn normalize_tpa_data(tpa_data: &Vec<TPAHeaders>, filter_source: Option<&str>) -> (r: PairMap<
    String,
>)
    ensures
        holds_scores(r@, tpa_scores(tpa_data@, text_in(filter_source))),
{
    let ghost f = |r: TPAHeaders| from_source(r, text_in(filter_source));
    let mut scores: PairMap<String> = PairMap::new();
    assert(tpa_data@.take(0).filter_map(f) =~= Seq::<Scored>::empty());
    for i in 0..tpa_data.len()
        invariant
            f == (|r: TPAHeaders| from_source(r, text_in(filter_source))),
            holds_scores(scores@, tpa_data@.take(i as int).filter_map(f)),
    {
        let record = &tpa_data[i];
        let kept = match filter_source {
            Some(source) => same_text(
                lowercase(record.Source.as_str()).as_str(),
                lowercase(source).as_str(),
            ),
            None => true,
        };
        proof {
            tpa_data@.lemma_filter_map_take_succ(f, i as int);
            let held = tpa_data@.take(i as int).filter_map(f);
            assert(tpa_data@.take(i + 1).filter_map(f) =~= if kept {
                held.push(record@.scored)
            } else {
                held
            });
            lemma_put_score(
                scores@,
                tpa_data@.take(i as int).filter_map(f),
                record@.scored,
                record.CVSS,
            );
        }
        if kept {
            put_score(&mut scores, &record.PURL, &record.CVE_ID, &record.CVSS);
        }
    }
    assert(tpa_data@.take(tpa_data@.len() as int) =~= tpa_data@);
    scores
}

/// The scores of Exhort.
pub fn normalize_exhort_data(exhort_data: &Vec<ExhortRecord>) -> (r: PairMap<String>)
    ensures
        holds_scores(r@, exhort_scores(exhort_data@)),
{
    let ghost all = exhort_scores(exhort_data@);
    let mut scores: PairMap<String> = PairMap::new();
    for i in 0..exhort_data.len()
        invariant
            all == exhort_scores(exhort_data@),
            holds_scores(scores@, all.take(i as int)),
    {
        let record = &exhort_data[i];
        proof {
            lemma_put_score(scores@, all.take(i as int), record@, record.CVSS);
            assert(all.take(i as int).push(record@) =~= all.take(i + 1));
        }
        put_score(&mut scores, &record.PURL, &record.CVE_ID, &record.CVSS);
    }
    assert(all.take(all.len() as int) =~= all);
    scores
}

/// What stands out at a pair: only one of two sources has it. The other one is
/// where it is missing.
pub open spec fn difference_at(
    first: Seq<Scored>,
    second: Seq<Scored>,
    names: (Seq<char>, Seq<char>),
    p: Pair,
) -> Option<Difference> {
    match (score_in(first, p), score_in(second, p)) {
        (Some(cvss), None) => Some(
            Difference { pair: p, first: cvss, second: Seq::empty(), missing_in: names.1 },
        ),
        (None, Some(cvss)) => Some(
            Difference { pair: p, first: Seq::empty(), second: cvss, missing_in: names.0 },
        ),
        _ => None,
    }
}

/// Whether that is all that stands out between two sources, each pair once.
pub open spec fn are_differences(
    found: Seq<Difference>,
    first: Seq<Scored>,
    second: Seq<Scored>,
    names: (Seq<char>, Seq<char>),
) -> bool {
    &&& forall|i: int, j: int|
        0 <= i < j < found.len() ==> (#[trigger] found[i]).pair != (#[trigger] found[j]).pair
    &&& forall|i: int|
        0 <= i < found.len() ==> difference_at(
            first,
            second,
            names,
            (#[trigger] found[i]).pair,
        ) == Some(found[i])
    &&& forall|p: Pair| #[trigger]
        difference_at(first, second, names, p) is Some ==> exists|i: int|
            0 <= i < found.len() && (#[trigger] found[i]).pair == p
}

/// What stands out between two sources at the pairs that were looked at.
spec fn found_so_far(
    found: Seq<Difference>,
    looked_at: Set<Pair>,
    first: Seq<Scored>,
    second: Seq<Scored>,
    names: (Seq<char>, Seq<char>),
) -> bool {
    &&& forall|i: int, j: int|
        0 <= i < j < found.len() ==> (#[trigger] found[i]).pair != (#[trigger] found[j]).pair
    &&& forall|i: int|
        0 <= i < found.len() ==> difference_at(
            first,
            second,
            names,
            (#[trigger] found[i]).pair,
        ) == Some(found[i]) && looked_at.contains(found[i].pair)
    &&& forall|p: Pair| #[trigger]
        difference_at(first, second, names, p) is Some && looked_at.contains(p) ==> exists|i: int|
            0 <= i < found.len() && (#[trigger] found[i]).pair == p
}

proof fn lemma_look(
    found: Seq<Difference>,
    looked_at: Set<Pair>,
    first: Seq<Scored>,
    second: Seq<Scored>,
    names: (Seq<char>, Seq<char>),
    p: Pair,
)
    requires
        found_so_far(found, looked_at, first, second, names),
    ensures
        looked_at.contains(p) || difference_at(first, second, names, p) is None ==> found_so_far(
            found,
            looked_at.insert(p),
            first,
            second,
            names,
        ),
        !looked_at.contains(p) ==> (difference_at(first, second, names, p) matches Some(d)
            ==> found_so_far(found.push(d), looked_at.insert(p), first, second, names)),
{
    if !looked_at.contains(p) {
        if let Some(d) = difference_at(first, second, names, p) {
            let more = found.push(d);
            assert forall|q: Pair| #[trigger]
                difference_at(first, second, names, q) is Some && looked_at.insert(p).contains(
                    q,
                ) implies exists|i: int| 0 <= i < more.len() && (#[trigger] more[i]).pair == q by {
                if q == p {
                    assert(more[found.len() as int].pair == q);
                } else {
                    let i = choose|i: int| 0 <= i < found.len() && (#[trigger] found[i]).pair == q;
                    assert(more[i].pair == q);
                }
            }
        }
    }
}

/// A vulnerability that only one of two sources has.
struct OneSided {
    purl: String,
    cve_id: String,
    first: String,
    second: String,
    missing_in: String,
}

impl View for OneSided {
    type V = Difference;

    closed spec fn view(&self) -> Difference {
        Difference {
            pair: (self.purl@, self.cve_id@),
            first: self.first@,
            second: self.second@,
            missing_in: self.missing_in@,
        }
    }
}

spec fn one_sided_texts(v: Seq<OneSided>) -> Seq<Difference> {
    v.map_values(|d: OneSided| d@)
}

/// What stands out between two sources.
fn one_sided(
    first: &PairMap<String>,
    second: &PairMap<String>,
    first_name: &str,
    second_name: &str,
    Ghost(a): Ghost<Seq<Scored>>,
    Ghost(b): Ghost<Seq<Scored>>,
) -> (r: Vec<OneSided>)
    requires
        holds_scores(first@, a),
        holds_scores(second@, b),
    ensures
        are_differences(one_sided_texts(r@), a, b, (first_name@, second_name@)),
{
    let ghost names = (first_name@, second_name@);
    let ghost mut looked_at = Set::<Pair>::empty();
    let mut found: Vec<OneSided> = Vec::new();
    proof {
        reveal_strlit("");
        assert(""@ =~= Seq::<char>::empty());
    }
    let n = first.len();
    for i in 0..n
        invariant
            n == first.keys().len(),
            first.coherent(),
            holds_scores(first@, a),
            holds_scores(second@, b),
            names == (first_name@, second_name@),
            ""@ == Seq::<char>::empty(),
            found_so_far(one_sided_texts(found@), looked_at, a, b, names),
            forall|p: Pair| #[trigger]
                looked_at.contains(p) <==> exists|j: int|
                    0 <= j < i && #[trigger] first.keys()[j] == p,
    {
        let (purl, cve_id) = first.key_at(i);
        let cvss = first.value_at(i);
        let ghost p = (purl@, cve_id@);
        let ghost before = found@;
        proof {
            lemma_look(one_sided_texts(found@), looked_at, a, b, names, p);
            if looked_at.contains(p) {
                let j = choose|j: int| 0 <= j < i && #[trigger] first.keys()[j] == p;
                assert(first.keys()[j] != first.keys()[i as int]);
            }
            assert(first@.contains_key(p) && second@.contains_key(p) == (score_in(b, p) is Some));
        }
        if !second.contains_key(purl, cve_id) {
            let d = OneSided {
                purl: purl.to_owned(),
                cve_id: cve_id.to_owned(),
                first: cvss.clone(),
                second: "".to_owned(),
                missing_in: second_name.to_owned(),
            };
            assert(difference_at(a, b, names, p) == Some(d@));
            found.push(d);
            assert(one_sided_texts(found@) =~= one_sided_texts(before).push(d@));
        }
        proof {
            let held = looked_at;
            looked_at = looked_at.insert(p);
            assert forall|q: Pair| #[trigger] looked_at.contains(q) <==> exists|j: int|
                0 <= j < i + 1 && #[trigger] first.keys()[j] == q by {
                assert(held.contains(q) <==> exists|j: int|
                    0 <= j < i && #[trigger] first.keys()[j] == q);
                assert(first.keys()[i as int] == p);
            }
        }
    }
    assert(looked_at =~= first@.dom()) by {
        assert forall|p: Pair| looked_at.contains(p) <==> first@.dom().contains(p) by {
            assert(first.keys().to_set().contains(p) <==> first.keys().contains(p));
        }
    }
    let m = second.len();
    for i in 0..m
        invariant
            m == second.keys().len(),
            second.coherent(),
            holds_scores(first@, a),
            holds_scores(second@, b),
            names == (first_name@, second_name@),
            ""@ == Seq::<char>::empty(),
            found_so_far(one_sided_texts(found@), looked_at, a, b, names),
            forall|p: Pair| #[trigger]
                looked_at.contains(p) <==> first@.contains_key(p) || exists|j: int|
                    0 <= j < i && #[trigger] second.keys()[j] == p,
    {
        let (purl, cve_id) = second.key_at(i);
        let cvss = second.value_at(i);
        let ghost p = (purl@, cve_id@);
        let ghost before = found@;
        proof {
            lemma_look(one_sided_texts(found@), looked_at, a, b, names, p);
            if looked_at.contains(p) && !first@.contains_key(p) {
                let j = choose|j: int| 0 <= j < i && #[trigger] second.keys()[j] == p;
                assert(second.keys()[j] != second.keys()[i as int]);
            }
            assert(second@.contains_key(p) && first@.contains_key(p) == (score_in(a, p) is Some));
        }
        if !first.contains_key(purl, cve_id) {
            let d = OneSided {
                purl: purl.to_owned(),
                cve_id: cve_id.to_owned(),
                first: "".to_owned(),
                second: cvss.clone(),
                missing_in: first_name.to_owned(),
            };
            assert(difference_at(a, b, names, p) == Some(d@));
            found.push(d);
            assert(one_sided_texts(found@) =~= one_sided_texts(before).push(d@));
        }
        proof {
            let held = looked_at;
            looked_at = looked_at.insert(p);
            assert forall|q: Pair| #[trigger] looked_at.contains(q) <==> first@.contains_key(q)
                || exists|j: int| 0 <= j < i + 1 && #[trigger] second.keys()[j] == q by {
                assert(held.contains(q) <==> first@.contains_key(q) || exists|j: int|
                    0 <= j < i && #[trigger] second.keys()[j] == q);
                assert(second.keys()[i as int] == p);
            }
        }
    }
    proof {
        assert forall|p: Pair| #[trigger]
            difference_at(a, b, names, p) is Some implies looked_at.contains(p) by {
            assert(first@.contains_key(p) <==> score_in(a, p) is Some);
            assert(second@.contains_key(p) <==> score_in(b, p) is Some);
            assert(second.keys().to_set().contains(p) <==> second.keys().contains(p));
        }
    }
    found
}

/// What stands out between OSV and TPA.
pub fn compare_osv_vs_tpa(osv_data: &Vec<OSVHeader>, tpa_data: &Vec<TPAHeaders>) -> (r: Vec<
    OsvTpaComparisonRecord,
>)
    ensures
        are_differences(
            r@.map_values(|d: OsvTpaComparisonRecord| d@),
            osv_scores(osv_data@),
            tpa_scores(tpa_data@, None),
            ("OSV"@, "TPA"@),
        ),
{
    let osv = normalize_osv_data(osv_data);
    let tpa = normalize_tpa_data(tpa_data, None);
    let found = one_sided(
        &osv,
        &tpa,
        "OSV",
        "TPA",
        Ghost(osv_scores(osv_data@)),
        Ghost(tpa_scores(tpa_data@, None)),
    );
    let ghost all = one_sided_texts(found@);
    let mut r: Vec<OsvTpaComparisonRecord> = Vec::new();
    for i in 0..found.len()
        invariant
            all == one_sided_texts(found@),
            r@.map_values(|d: OsvTpaComparisonRecord| d@) == all.take(i as int),
    {
        let d = &found[i];
        let ghost before = r@;
        r.push(
            OsvTpaComparisonRecord {
                purl: d.purl.clone(),
                cve_id: d.cve_id.clone(),
                osv_cvss: d.first.clone(),
                tpa_cvss: d.second.clone(),
                missing_in: d.missing_in.clone(),
            },
        );
        assert(r@.map_values(|d: OsvTpaComparisonRecord| d@) =~= before.map_values(
            |d: OsvTpaComparisonRecord| d@,
        ).push(d@));
        assert(all.take(i + 1) =~= all.take(i as int).push(d@));
    }
    assert(all.take(all.len() as int) =~= all);
    r
}

/// What stands out between TPA and Exhort.
pub fn compare_tpa_vs_exhort(tpa_data: &Vec<TPAHeaders>, exhort_data: &Vec<ExhortRecord>) -> (r:
    Vec<TpaExhortComparisonRecord>)
    ensures
        are_differences(
            r@.map_values(|d: TpaExhortComparisonRecord| d@),
            tpa_scores(tpa_data@, None),
            exhort_scores(exhort_data@),
            ("TPA"@, "Exhort"@),
        ),
{
    let tpa = normalize_tpa_data(tpa_data, None);
    let exhort = normalize_exhort_data(exhort_data);
    let found = one_sided(
        &tpa,
        &exhort,
        "TPA",
        "Exhort",
        Ghost(tpa_scores(tpa_data@, None)),
        Ghost(exhort_scores(exhort_data@)),
    );
    let ghost all = one_sided_texts(found@);
    let mut r: Vec<TpaExhortComparisonRecord> = Vec::new();
    for i in 0..found.len()
        invariant
            all == one_sided_texts(found@),
            r@.map_values(|d: TpaExhortComparisonRecord| d@) == all.take(i as int),
    {
        let d = &found[i];
        let ghost before = r@;
        r.push(
            TpaExhortComparisonRecord {
                purl: d.purl.clone(),
                cve_id: d.cve_id.clone(),
                tpa_cvss: d.first.clone(),
                exhort_cvss: d.second.clone(),
                missing_in: d.missing_in.clone(),
            },
        );
        assert(r@.map_values(|d: TpaExhortComparisonRecord| d@) =~= before.map_values(
            |d: TpaExhortComparisonRecord| d@,
        ).push(d@));
        assert(all.take(i + 1) =~= all.take(i as int).push(d@));
    }
    assert(all.take(all.len() as int) =~= all);
    r
}

/// What stands out between OSV and TPA, and between TPA and Exhort.
pub fn compare_sources(
    osv_data: Vec<OSVHeader>,
    tpa_data: Vec<TPAHeaders>,
    exhort_data: Vec<ExhortRecord>,
) -> (r: (Vec<OsvTpaComparisonRecord>, Vec<TpaExhortComparisonRecord>))
    ensures
        are_differences(
            r.0@.map_values(|d: OsvTpaComparisonRecord| d@),
            osv_scores(osv_data@),
            tpa_scores(tpa_data@, None),
            ("OSV"@, "TPA"@),
        ),
        are_differences(
            r.1@.map_values(|d: TpaExhortComparisonRecord| d@),
            tpa_scores(tpa_data@, None),
            exhort_scores(exhort_data@),
            ("TPA"@, "Exhort"@),
        ),
{
    (compare_osv_vs_tpa(&osv_data, &tpa_data), compare_tpa_vs_exhort(&tpa_data, &exhort_data))
}

proof fn lemma_score_in(records: Seq<Scored>, p: Pair)
    ensures
        score_in(records, p) is Some <==> exists|i: int|
            0 <= i < records.len() && ((#[trigger] records[i]).purl, records[i].cve_id) == p,
    decreases records.len(),
{
    if records.len() > 0 {
        let rest = records.drop_last();
        lemma_score_in(rest, p);
        if exists|i: int|
            0 <= i < rest.len() && ((#[trigger] rest[i]).purl, rest[i].cve_id) == p {
            let i = choose|i: int|
                0 <= i < rest.len() && ((#[trigger] rest[i]).purl, rest[i].cve_id) == p;
            assert(records[i] == rest[i]);
        }
        if exists|i: int|
            0 <= i < records.len() && ((#[trigger] records[i]).purl, records[i].cve_id) == p {
            let i = choose|i: int|
                0 <= i < records.len() && ((#[trigger] records[i]).purl, records[i].cve_id) == p;
            if i < rest.len() {
                assert(rest[i] == records[i]);
            }
        }
    }
}

/// A pair stands out exactly where one source has a record about it and the
/// other has none, and then it is missing in one of them, never in both.
pub proof fn law_missing_in_exactly_one(
    first: Seq<Scored>,
    second: Seq<Scored>,
    names: (Seq<char>, Seq<char>),
    p: Pair,
)
    ensures
        difference_at(first, second, names, p) is Some <==> ((exists|i: int|
            0 <= i < first.len() && ((#[trigger] first[i]).purl, first[i].cve_id) == p) != (exists|
            i: int,
        |
            0 <= i < second.len() && ((#[trigger] second[i]).purl, second[i].cve_id) == p)),
        difference_at(first, second, names, p) matches Some(d) ==> d.missing_in == names.0
            || d.missing_in == names.1,
{
    lemma_score_in(first, p);
    lemma_score_in(second, p);
}

/// The other way round the same pairs stand out, with the scores swapped.
pub proof fn law_difference_is_symmetric(
    first: Seq<Scored>,
    second: Seq<Scored>,
    names: (Seq<char>, Seq<char>),
    p: Pair,
)
    ensures
        difference_at(second, first, (names.1, names.0), p) == (match difference_at(
            first,
            second,
            names,
            p,
        ) {
            Some(d) => Some(
                Difference {
                    pair: d.pair,
                    first: d.second,
                    second: d.first,
                    missing_in: d.missing_in,
                },
            ),
            None => None,
        }),
{
}

/// A source compared with itself shows no difference.
pub proof fn law_same_source_agrees(records: Seq<Scored>, names: (Seq<char>, Seq<char>), p: Pair)
    ensures
        difference_at(records, records, names, p) is None,
{
}

/// Whether OSV has a record about a package and a CVE.
pub open spec fn osv_has(records: Seq<OSVHeader>, p: Pair) -> bool {
    exists|i: int|
        0 <= i < records.len() && (#[trigger] records[i]).PURL@ == p.0 && records[i].CVE_ID@ == p.1
}

/// Whether TPA has a record about a package and a CVE, from whatever source and
/// advisory and with whatever score.
pub open spec fn tpa_has(records: Seq<TPAHeaders>, p: Pair) -> bool {
    exists|i: int|
        0 <= i < records.len() && (#[trigger] records[i]).PURL@ == p.0 && records[i].CVE_ID@ == p.1
}

/// Whether Exhort has a record about a package and a CVE.
pub open spec fn exhort_has(records: Seq<ExhortRecord>, p: Pair) -> bool {
    exists|i: int|
        0 <= i < records.len() && (#[trigger] records[i]).PURL@ == p.0 && records[i].CVE_ID@ == p.1
}

proof fn lemma_last_score(records: Seq<Scored>, k: int)
    requires
        0 <= k < records.len(),
        forall|j: int|
            k < j < records.len() ==> ((#[trigger] records[j]).purl, records[j].cve_id) != (
            records[k].purl,
            records[k].cve_id,
        ),
    ensures
        score_in(records, (records[k].purl, records[k].cve_id)) == Some(records[k].cvss),
    decreases records.len(),
{
    if k < records.len() - 1 {
        let rest = records.drop_last();
        assert(records.last() == records[records.len() - 1]);
        assert forall|j: int| k < j < rest.len() implies ((#[trigger] rest[j]).purl, rest[j].cve_id)
            != (rest[k].purl, rest[k].cve_id) by {
            assert(rest[j] == records[j]);
        }
        lemma_last_score(rest, k);
    }
}

proof fn lemma_unfiltered(records: Seq<TPAHeaders>)
    ensures
        tpa_scores(records, None) == records.map_values(|r: TPAHeaders| r@.scored),
    decreases records.len(),
{
    if records.len() > 0 {
        let rest = records.drop_last();
        lemma_unfiltered(rest);
        assert(records.map_values(|r: TPAHeaders| r@.scored) =~= rest.map_values(
            |r: TPAHeaders| r@.scored,
        ) + seq![records.last()@.scored]);
    } else {
        assert(tpa_scores(records, None) =~= records.map_values(|r: TPAHeaders| r@.scored));
    }
}

proof fn lemma_osv_has(records: Seq<OSVHeader>, p: Pair)
    ensures
        score_in(osv_scores(records), p) is Some <==> osv_has(records, p),
{
    let all = osv_scores(records);
    lemma_score_in(all, p);
    if osv_has(records, p) {
        let i = choose|i: int|
            0 <= i < records.len() && (#[trigger] records[i]).PURL@ == p.0 && records[i].CVE_ID@
                == p.1;
        assert((all[i].purl, all[i].cve_id) == p);
    }
    if score_in(all, p) is Some {
        let i = choose|i: int|
            0 <= i < all.len() && ((#[trigger] all[i]).purl, all[i].cve_id) == p;
        assert(records[i].PURL@ == p.0 && records[i].CVE_ID@ == p.1);
    }
}

proof fn lemma_tpa_has(records: Seq<TPAHeaders>, p: Pair)
    ensures
        score_in(tpa_scores(records, None), p) is Some <==> tpa_has(records, p),
{
    lemma_unfiltered(records);
    let all = tpa_scores(records, None);
    lemma_score_in(all, p);
    if tpa_has(records, p) {
        let i = choose|i: int|
            0 <= i < records.len() && (#[trigger] records[i]).PURL@ == p.0 && records[i].CVE_ID@
                == p.1;
        assert((all[i].purl, all[i].cve_id) == p);
    }
    if score_in(all, p) is Some {
        let i = choose|i: int|
            0 <= i < all.len() && ((#[trigger] all[i]).purl, all[i].cve_id) == p;
        assert(records[i].PURL@ == p.0 && records[i].CVE_ID@ == p.1);
    }
}

proof fn lemma_exhort_has(records: Seq<ExhortRecord>, p: Pair)
    ensures
        score_in(exhort_scores(records), p) is Some <==> exhort_has(records, p),
{
    let all = exhort_scores(records);
    lemma_score_in(all, p);
    if exhort_has(records, p) {
        let i = choose|i: int|
            0 <= i < records.len() && (#[trigger] records[i]).PURL@ == p.0 && records[i].CVE_ID@
                == p.1;
        assert((all[i].purl, all[i].cve_id) == p);
    }
    if score_in(all, p) is Some {
        let i = choose|i: int|
            0 <= i < all.len() && ((#[trigger] all[i]).purl, all[i].cve_id) == p;
        assert(records[i].PURL@ == p.0 && records[i].CVE_ID@ == p.1);
    }
}

/// A package and a CVE are reported as missing in TPA exactly where OSV has a
/// record about them and TPA has none at all, and as missing in OSV exactly where
/// it is the other way round. Nothing is reported twice.
pub proof fn law_osv_and_tpa_compared(
    osv: Seq<OSVHeader>,
    tpa: Seq<TPAHeaders>,
    found: Seq<OsvTpaComparisonRecord>,
    p: Pair,
)
    requires
        are_differences(
            found.map_values(|d: OsvTpaComparisonRecord| d@),
            osv_scores(osv),
            tpa_scores(tpa, None),
            ("OSV"@, "TPA"@),
        ),
    ensures
        (exists|i: int|
            0 <= i < found.len() && (#[trigger] found[i]).purl@ == p.0 && found[i].cve_id@ == p.1
                && found[i].missing_in@ == "TPA"@) <==> osv_has(osv, p) && !tpa_has(tpa, p),
        (exists|i: int|
            0 <= i < found.len() && (#[trigger] found[i]).purl@ == p.0 && found[i].cve_id@ == p.1
                && found[i].missing_in@ == "OSV"@) <==> tpa_has(tpa, p) && !osv_has(osv, p),
        forall|i: int|
            0 <= i < found.len() ==> (#[trigger] found[i]).missing_in@ == "TPA"@
                || found[i].missing_in@ == "OSV"@,
        forall|i: int, j: int|
            0 <= i < j < found.len() ==> (#[trigger] found[i]).purl@ != (#[trigger] found[j]).purl@
                || found[i].cve_id@ != found[j].cve_id@,
{
    let names = ("OSV"@, "TPA"@);
    let all = found.map_values(|d: OsvTpaComparisonRecord| d@);
    let a = osv_scores(osv);
    let b = tpa_scores(tpa, None);
    reveal_strlit("OSV");
    reveal_strlit("TPA");
    assert("OSV"@[0] == 'O' && "TPA"@[0] == 'T');
    lemma_osv_has(osv, p);
    lemma_tpa_has(tpa, p);
    assert forall|i: int| 0 <= i < found.len() implies difference_at(
        a,
        b,
        names,
        ((#[trigger] found[i]).purl@, found[i].cve_id@),
    ) == Some(found[i]@) by {
        assert(all[i] == found[i]@);
    }
    if difference_at(a, b, names, p) is Some {
        let i = choose|i: int| 0 <= i < all.len() && (#[trigger] all[i]).pair == p;
        assert(all[i] == found[i]@);
    }
    assert forall|i: int, j: int| 0 <= i < j < found.len() implies (#[trigger] found[i]).purl@ != (
    #[trigger] found[j]).purl@ || found[i].cve_id@ != found[j].cve_id@ by {
        assert(all[i].pair != all[j].pair);
    }
}

/// What is reported of OSV and TPA carries the score of the last record that the
/// one source has about the pair, and a blank for the other source.
pub proof fn law_osv_and_tpa_scores(
    osv: Seq<OSVHeader>,
    tpa: Seq<TPAHeaders>,
    found: Seq<OsvTpaComparisonRecord>,
    i: int,
    k: int,
)
    requires
        are_differences(
            found.map_values(|d: OsvTpaComparisonRecord| d@),
            osv_scores(osv),
            tpa_scores(tpa, None),
            ("OSV"@, "TPA"@),
        ),
        0 <= i < found.len(),
    ensures
        found[i].missing_in@ == "TPA"@ ==> found[i].tpa_cvss@.len() == 0,
        found[i].missing_in@ == "OSV"@ ==> found[i].osv_cvss@.len() == 0,
        found[i].missing_in@ == "TPA"@ && 0 <= k < osv.len() && osv[k].PURL@ == found[i].purl@
            && osv[k].CVE_ID@ == found[i].cve_id@ && (forall|j: int|
            k < j < osv.len() ==> (#[trigger] osv[j]).PURL@ != osv[k].PURL@ || osv[j].CVE_ID@
                != osv[k].CVE_ID@) ==> found[i].osv_cvss@ == osv[k].CVSS@,
        found[i].missing_in@ == "OSV"@ && 0 <= k < tpa.len() && tpa[k].PURL@ == found[i].purl@
            && tpa[k].CVE_ID@ == found[i].cve_id@ && (forall|j: int|
            k < j < tpa.len() ==> (#[trigger] tpa[j]).PURL@ != tpa[k].PURL@ || tpa[j].CVE_ID@
                != tpa[k].CVE_ID@) ==> found[i].tpa_cvss@ == tpa[k].CVSS@,
{
    let p = (found[i].purl@, found[i].cve_id@);
    let a = osv_scores(osv);
    let b = tpa_scores(tpa, None);
    reveal_strlit("OSV");
    reveal_strlit("TPA");
    assert("OSV"@[0] == 'O' && "TPA"@[0] == 'T');
    assert(found.map_values(|d: OsvTpaComparisonRecord| d@)[i] == found[i]@);
    lemma_unfiltered(tpa);
    if 0 <= k < osv.len() && osv[k].PURL@ == p.0 && osv[k].CVE_ID@ == p.1 && (forall|j: int|
        k < j < osv.len() ==> (#[trigger] osv[j]).PURL@ != osv[k].PURL@ || osv[j].CVE_ID@
            != osv[k].CVE_ID@) {
        assert forall|j: int| k < j < a.len() implies ((#[trigger] a[j]).purl, a[j].cve_id) != (
        a[k].purl, a[k].cve_id) by {
            assert(osv[j].PURL@ != osv[k].PURL@ || osv[j].CVE_ID@ != osv[k].CVE_ID@);
        }
        lemma_last_score(a, k);
    }
    if 0 <= k < tpa.len() && tpa[k].PURL@ == p.0 && tpa[k].CVE_ID@ == p.1 && (forall|j: int|
        k < j < tpa.len() ==> (#[trigger] tpa[j]).PURL@ != tpa[k].PURL@ || tpa[j].CVE_ID@
            != tpa[k].CVE_ID@) {
        assert forall|j: int| k < j < b.len() implies ((#[trigger] b[j]).purl, b[j].cve_id) != (
        b[k].purl, b[k].cve_id) by {
            assert(tpa[j].PURL@ != tpa[k].PURL@ || tpa[j].CVE_ID@ != tpa[k].CVE_ID@);
        }
        lemma_last_score(b, k);
    }
}

/// A package and a CVE are reported as missing in Exhort exactly where TPA has any
/// record about them and Exhort has none, and as missing in TPA exactly where it
/// is the other way round. Nothing is reported twice.
pub proof fn law_tpa_and_exhort_compared(
    tpa: Seq<TPAHeaders>,
    exhort: Seq<ExhortRecord>,
    found: Seq<TpaExhortComparisonRecord>,
    p: Pair,
)
    requires
        are_differences(
            found.map_values(|d: TpaExhortComparisonRecord| d@),
            tpa_scores(tpa, None),
            exhort_scores(exhort),
            ("TPA"@, "Exhort"@),
        ),
    ensures
        (exists|i: int|
            0 <= i < found.len() && (#[trigger] found[i]).purl@ == p.0 && found[i].cve_id@ == p.1
                && found[i].missing_in@ == "Exhort"@) <==> tpa_has(tpa, p) && !exhort_has(
            exhort,
            p,
        ),
        (exists|i: int|
            0 <= i < found.len() && (#[trigger] found[i]).purl@ == p.0 && found[i].cve_id@ == p.1
                && found[i].missing_in@ == "TPA"@) <==> exhort_has(exhort, p) && !tpa_has(tpa, p),
        forall|i: int|
            0 <= i < found.len() ==> (#[trigger] found[i]).missing_in@ == "Exhort"@
                || found[i].missing_in@ == "TPA"@,
        forall|i: int, j: int|
            0 <= i < j < found.len() ==> (#[trigger] found[i]).purl@ != (#[trigger] found[j]).purl@
                || found[i].cve_id@ != found[j].cve_id@,
{
    let names = ("TPA"@, "Exhort"@);
    let all = found.map_values(|d: TpaExhortComparisonRecord| d@);
    let a = tpa_scores(tpa, None);
    let b = exhort_scores(exhort);
    reveal_strlit("Exhort");
    reveal_strlit("TPA");
    assert("Exhort"@[0] == 'E' && "TPA"@[0] == 'T');
    lemma_tpa_has(tpa, p);
    lemma_exhort_has(exhort, p);
    assert forall|i: int| 0 <= i < found.len() implies difference_at(
        a,
        b,
        names,
        ((#[trigger] found[i]).purl@, found[i].cve_id@),
    ) == Some(found[i]@) by {
        assert(all[i] == found[i]@);
    }
    if difference_at(a, b, names, p) is Some {
        let i = choose|i: int| 0 <= i < all.len() && (#[trigger] all[i]).pair == p;
        assert(all[i] == found[i]@);
    }
    assert forall|i: int, j: int| 0 <= i < j < found.len() implies (#[trigger] found[i]).purl@ != (
    #[trigger] found[j]).purl@ || found[i].cve_id@ != found[j].cve_id@ by {
        assert(all[i].pair != all[j].pair);
    }
}

/// What is reported of TPA and Exhort carries the score of the last record that
/// the one source has about the pair, and a blank for the other source.
pub proof fn law_tpa_and_exhort_scores(
    tpa: Seq<TPAHeaders>,
    exhort: Seq<ExhortRecord>,
    found: Seq<TpaExhortComparisonRecord>,
    i: int,
    k: int,
)
    requires
        are_differences(
            found.map_values(|d: TpaExhortComparisonRecord| d@),
            tpa_scores(tpa, None),
            exhort_scores(exhort),
            ("TPA"@, "Exhort"@),
        ),
        0 <= i < found.len(),
    ensures
        found[i].missing_in@ == "Exhort"@ ==> found[i].exhort_cvss@.len() == 0,
        found[i].missing_in@ == "TPA"@ ==> found[i].tpa_cvss@.len() == 0,
        found[i].missing_in@ == "Exhort"@ && 0 <= k < tpa.len() && tpa[k].PURL@ == found[i].purl@
            && tpa[k].CVE_ID@ == found[i].cve_id@ && (forall|j: int|
            k < j < tpa.len() ==> (#[trigger] tpa[j]).PURL@ != tpa[k].PURL@ || tpa[j].CVE_ID@
                != tpa[k].CVE_ID@) ==> found[i].tpa_cvss@ == tpa[k].CVSS@,
        found[i].missing_in@ == "TPA"@ && 0 <= k < exhort.len() && exhort[k].PURL@
            == found[i].purl@ && exhort[k].CVE_ID@ == found[i].cve_id@ && (forall|j: int|
            k < j < exhort.len() ==> (#[trigger] exhort[j]).PURL@ != exhort[k].PURL@
                || exhort[j].CVE_ID@ != exhort[k].CVE_ID@) ==> found[i].exhort_cvss@
            == exhort[k].CVSS@,
{
    let p = (found[i].purl@, found[i].cve_id@);
    let a = tpa_scores(tpa, None);
    let b = exhort_scores(exhort);
    reveal_strlit("Exhort");
    reveal_strlit("TPA");
    assert("Exhort"@[0] == 'E' && "TPA"@[0] == 'T');
    assert(found.map_values(|d: TpaExhortComparisonRecord| d@)[i] == found[i]@);
    lemma_unfiltered(tpa);
    if 0 <= k < tpa.len() && tpa[k].PURL@ == p.0 && tpa[k].CVE_ID@ == p.1 && (forall|j: int|
        k < j < tpa.len() ==> (#[trigger] tpa[j]).PURL@ != tpa[k].PURL@ || tpa[j].CVE_ID@
            != tpa[k].CVE_ID@) {
        assert forall|j: int| k < j < a.len() implies ((#[trigger] a[j]).purl, a[j].cve_id) != (
        a[k].purl, a[k].cve_id) by {
            assert(tpa[j].PURL@ != tpa[k].PURL@ || tpa[j].CVE_ID@ != tpa[k].CVE_ID@);
        }
        lemma_last_score(a, k);
    }
    if 0 <= k < exhort.len() && exhort[k].PURL@ == p.0 && exhort[k].CVE_ID@ == p.1 && (forall|
        j: int,
    |
        k < j < exhort.len() ==> (#[trigger] exhort[j]).PURL@ != exhort[k].PURL@
            || exhort[j].CVE_ID@ != exhort[k].CVE_ID@) {
        assert forall|j: int| k < j < b.len() implies ((#[trigger] b[j]).purl, b[j].cve_id) != (
        b[k].purl, b[k].cve_id) by {
            assert(exhort[j].PURL@ != exhort[k].PURL@ || exhort[j].CVE_ID@ != exhort[k].CVE_ID@);
        }
        lemma_last_score(b, k);
    }
}

/// With a source asked for, a pair has a score exactly where a record of that
/// source, whatever the case of the letters, is about it.
pub proof fn law_source_is_filtered(
    records: Seq<TPAHeaders>,
    source: Seq<char>,
    scores: Map<Pair, String>,
    p: Pair,
)
    requires
        holds_scores(scores, tpa_scores(records, Some(source))),
    ensures
        scores.contains_key(p) <==> exists|i: int|
            0 <= i < records.len() && (#[trigger] records[i]).PURL@ == p.0 && records[i].CVE_ID@
                == p.1 && lowered(records[i].Source@) == lowered(source),
{
    let all = tpa_scores(records, Some(source));
    let f = |r: TPAHeaders| from_source(r, Some(source));
    lemma_score_in(all, p);
    if scores.contains_key(p) {
        let k = choose|k: int|
            0 <= k < all.len() && ((#[trigger] all[k]).purl, all[k].cve_id) == p;
        lemma_filter_map_contains(records, f, all[k]);
        assert(records.filter_map(f).contains(all[k]));
        let i = choose|i: int| 0 <= i < records.len() && f(#[trigger] records[i]) == Some(all[k]);
        assert(records[i].PURL@ == p.0);
    }
    if exists|i: int|
        0 <= i < records.len() && (#[trigger] records[i]).PURL@ == p.0 && records[i].CVE_ID@ == p.1
            && lowered(records[i].Source@) == lowered(source) {
        let i = choose|i: int|
            0 <= i < records.len() && (#[trigger] records[i]).PURL@ == p.0 && records[i].CVE_ID@
                == p.1 && lowered(records[i].Source@) == lowered(source);
        lemma_filter_map_contains(records, f, records[i]@.scored);
        assert(f(records[i]) == Some(records[i]@.scored));
        let k = choose|k: int| 0 <= k < all.len() && all[k] == records[i]@.scored;
        assert((all[k].purl, all[k].cve_id) == p);
        assert(scores.contains_key(p) <==> score_in(all, p) is Some);
    }
}

} // verus!
