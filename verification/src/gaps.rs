//! The rows of a comparison that are missing from one side, and what is reported
//! on them.

use vstd::prelude::*;
use vstd::string::*;

use crate::categorize::{or_empty, row_category, CategoryText};
use crate::chunks::text_lists;
use crate::compare::Difference;
use crate::json::Json;
use crate::lists::lemma_filter_map_contains;
use crate::pair_map::{Pair, PairMap};
use crate::str_map::StrMap;
use crate::text::{same_text, string_in, texts};
use crate::versions::{Answer, Order};

verus! {

/// What stands under a column's name in a record, among the first `n` columns.
/// Of columns with one name the last counts; a record that is too short has
/// nothing there.
pub open spec fn cell_before(
    fields: Seq<Seq<char>>,
    record: Seq<Seq<char>>,
    name: Seq<char>,
    n: int,
) -> Option<Seq<char>>
    decreases n,
{
    if n <= 0 {
        None
    } else if fields[n - 1] == name {
        Some(
            if n - 1 < record.len() {
                record[n - 1]
            } else {
                Seq::empty()
            },
        )
    } else {
        cell_before(fields, record, name, n - 1)
    }
}

/// What stands under a column's name in a record; `None` where there is no such
/// column.
pub open spec fn cell(
    fields: Seq<Seq<char>>,
    record: Seq<Seq<char>>,
    name: Seq<char>,
) -> Option<Seq<char>> {
    cell_before(fields, record, name, fields.len() as int)
}

/// What stands under a column's name in a record.
pub fn cell_of<'a>(fields: &Vec<String>, record: &'a Vec<String>, name: &str) -> (r: Option<
    &'a str,
>)
    ensures
        match r {
            Some(s) => cell(texts(fields@), texts(record@), name@) == Some(s@),
            None => cell(texts(fields@), texts(record@), name@) is None,
        },
{
    let ghost fs = texts(fields@);
    let ghost rs = texts(record@);
    let mut n = fields.len();
    while n > 0
        invariant
            n <= fields@.len(),
            fs == texts(fields@),
            rs == texts(record@),
            cell(fs, rs, name@) == cell_before(fs, rs, name@, n as int),
        decreases n,
    {
        n -= 1;
        assert(fs[n as int] == fields@[n as int]@);
        if same_text(fields[n].as_str(), name) {
            if n < record.len() {
                assert(rs[n as int] == record@[n as int]@);
                return Some(record[n].as_str());
            }
            proof {
                reveal_strlit("");
                assert(""@ =~= Seq::<char>::empty());
            }
            return Some("");
        }
    }
    None
}

/// The package URL and the CVE of a row that is missing from one side, as far as
/// the table has columns for them.
#[derive(Debug)]
pub struct Gap {
    pub purl: Option<String>,
    pub cve_id: Option<String>,
}

/// A gap, as texts.
pub struct GapText {
    pub purl: Option<Seq<char>>,
    pub cve_id: Option<Seq<char>>,
}

impl View for Gap {
    type V = GapText;

    open spec fn view(&self) -> GapText {
        GapText { purl: string_in(self.purl), cve_id: string_in(self.cve_id) }
    }
}

/// The gaps of a list, as texts.
pub open spec fn gap_texts(gaps: Seq<Gap>) -> Seq<GapText> {
    gaps.map_values(|g: Gap| g@)
}

/// The package URL and the CVE of a record.
pub open spec fn gap_of(fields: Seq<Seq<char>>, record: Seq<Seq<char>>) -> GapText {
    GapText {
        purl: cell(fields, record, "purl"@),
        cve_id: cell(fields, record, "cve_id"@),
    }
}

/// The gap that a record is, where it says that it is missing in TPA.
pub open spec fn tpa_gap(fields: Seq<Seq<char>>, record: Seq<Seq<char>>) -> Option<GapText> {
    if cell(fields, record, "missing_in"@) == Some("TPA"@) {
        Some(gap_of(fields, record))
    } else {
        None
    }
}

/// The gaps in TPA among the records.
pub open spec fn tpa_gaps(fields: Seq<Seq<char>>, records: Seq<Seq<Seq<char>>>) -> Seq<GapText> {
    records.filter_map(|r: Seq<Seq<char>>| tpa_gap(fields, r))
}

/// The first `limit` of a list; all of it where the limit is 0.
pub open spec fn limited(gaps: Seq<GapText>, limit: int) -> Seq<GapText> {
    if 0 < limit < gaps.len() {
        gaps.take(limit)
    } else {
        gaps
    }
}

fn owned(s: Option<&str>) -> (r: Option<String>)
    ensures
        match s {
            Some(s) => string_in(r) == Some(s@),
            None => r is None,
        },
{
    match s {
        Some(s) => Some(s.to_owned()),
        None => None,
    }
}

/// The gaps in TPA among the records of a comparison, up to a limit.
pub fn missing_in_tpa(fields: &Vec<String>, records: &Vec<Vec<String>>, limit: usize) -> (r: Vec<
    Gap,
>)
    ensures
        gap_texts(r@) == limited(tpa_gaps(texts(fields@), text_lists(records@)), limit as int),
{
    let ghost fs = texts(fields@);
    let ghost all = text_lists(records@);
    let ghost f = |r: Seq<Seq<char>>| tpa_gap(fs, r);
    let mut gaps: Vec<Gap> = Vec::new();
    assert(all.take(0).filter_map(f) =~= Seq::<GapText>::empty());
    assert(gap_texts(gaps@) =~= Seq::<GapText>::empty());
    for i in 0..records.len()
        invariant
            fs == texts(fields@),
            all == text_lists(records@),
            f == (|r: Seq<Seq<char>>| tpa_gap(fs, r)),
            gap_texts(gaps@) == all.take(i as int).filter_map(f),
    {
        let record = &records[i];
        proof {
            all.lemma_filter_map_take_succ(f, i as int);
            assert(all[i as int] == texts(record@));
        }
        let missing = match cell_of(fields, record, "missing_in") {
            Some(source) => same_text(source, "TPA"),
            None => false,
        };
        if missing {
            let purl = owned(cell_of(fields, record, "purl"));
            let cve_id = owned(cell_of(fields, record, "cve_id"));
            let ghost before = gaps@;
            let gap = Gap { purl, cve_id };
            assert(f(all[i as int]) == Some(gap@));
            gaps.push(gap);
            assert(gap_texts(gaps@) =~= gap_texts(before).push(gap@));
        } else {
            assert(f(all[i as int]) is None);
        }
        assert(gap_texts(gaps@) =~= all.take(i + 1).filter_map(f));
    }
    assert(all.take(all.len() as int) =~= all);
    if 0 < limit && limit < gaps.len() {
        let ghost before = gaps@;
        gaps.truncate(limit);
        assert(gap_texts(gaps@) =~= gap_texts(before).take(limit as int));
    }
    gaps
}

/// The columns of a comparison of OSV and TPA.
pub open spec fn comparison_columns() -> Seq<Seq<char>> {
    seq!["purl"@, "cve_id"@, "osv_cvss"@, "tpa_cvss"@, "missing_in"@]
}

/// A row of a comparison, in the order of the columns.
pub open spec fn comparison_row(d: Difference) -> Seq<Seq<char>> {
    seq![d.pair.0, d.pair.1, d.first, d.second, d.missing_in]
}

/// What a comparison of OSV and TPA finds missing in TPA is what is taken up as a
/// gap, with its package URL and its CVE.
pub proof fn law_differences_become_gaps(d: Difference)
    ensures
        tpa_gap(comparison_columns(), comparison_row(d)) == (if d.missing_in == "TPA"@ {
            Some(GapText { purl: Some(d.pair.0), cve_id: Some(d.pair.1) })
        } else {
            None
        }),
{
    reveal_strlit("purl");
    reveal_strlit("cve_id");
    reveal_strlit("osv_cvss");
    reveal_strlit("tpa_cvss");
    reveal_strlit("missing_in");
    let fields = comparison_columns();
    let row = comparison_row(d);
    assert("purl"@.len() == 4);
    assert("cve_id"@.len() == 6);
    assert("osv_cvss"@.len() == 8);
    assert("tpa_cvss"@.len() == 8);
    assert("missing_in"@.len() == 10);
    assert(cell_before(fields, row, "missing_in"@, 5) == Some(d.missing_in));
    assert(cell_before(fields, row, "cve_id"@, 2) == Some(d.pair.1));
    assert(cell_before(fields, row, "cve_id"@, 3) == Some(d.pair.1));
    assert(cell_before(fields, row, "cve_id"@, 4) == Some(d.pair.1));
    assert(cell_before(fields, row, "purl"@, 1) == Some(d.pair.0));
    assert(cell_before(fields, row, "purl"@, 2) == Some(d.pair.0));
    assert(cell_before(fields, row, "purl"@, 3) == Some(d.pair.0));
    assert(cell_before(fields, row, "purl"@, 4) == Some(d.pair.0));
}

/// Whether a gap's package has that advisory.
pub open spec fn gap_needs(
    gap: GapText,
    advisories: Map<Seq<char>, Vec<String>>,
    id: Seq<char>,
) -> bool {
    match gap.purl {
        Some(purl) => advisories.contains_key(purl) && texts(advisories[purl]@).contains(id),
        None => false,
    }
}

/// Whether one of the gaps' packages has that advisory.
pub open spec fn some_gap_needs(
    gaps: Seq<GapText>,
    advisories: Map<Seq<char>, Vec<String>>,
    id: Seq<char>,
) -> bool {
    exists|i: int| 0 <= i < gaps.len() && gap_needs(#[trigger] gaps[i], advisories, id)
}

/// The advisories of the gaps' packages, each once.
pub fn needed_advisories(gaps: &Vec<Gap>, purl_advisories: &StrMap<Vec<String>>) -> (r: Vec<String>)
    ensures
        texts(r@).no_duplicates(),
        forall|id: Seq<char>| #[trigger]
            texts(r@).contains(id) <==> some_gap_needs(gap_texts(gaps@), purl_advisories@, id),
{
    let mut needed: StrMap<bool> = StrMap::new();
    let ghost all = gap_texts(gaps@);
    for i in 0..gaps.len()
        invariant
            all == gap_texts(gaps@),
            forall|id: Seq<char>| #[trigger]
                needed@.contains_key(id) <==> some_gap_needs(
                    all.take(i as int),
                    purl_advisories@,
                    id,
                ),
    {
        let ghost before = needed@;
        if let Some(purl) = &gaps[i].purl {
            if let Some(ids) = purl_advisories.get(purl.as_str()) {
                for j in 0..ids.len()
                    invariant
                        forall|id: Seq<char>| #[trigger]
                            needed@.contains_key(id) <==> before.contains_key(id) || texts(
                                ids@,
                            ).take(j as int).contains(id),
                {
                    needed.insert(ids[j].clone(), true);
                    let ghost now = texts(ids@).take(j + 1);
                    let ghost held = texts(ids@).take(j as int);
                    assert(now =~= held.push(ids@[j as int]@));
                    assert forall|id: Seq<char>| now.contains(id) <==> held.contains(id) || id
                        == ids@[j as int]@ by {
                        if held.contains(id) {
                            let k = choose|k: int| 0 <= k < held.len() && held[k] == id;
                            assert(now[k] == id);
                        }
                        assert(now[j as int] == ids@[j as int]@);
                    }
                }
                assert(texts(ids@).take(ids@.len() as int) =~= texts(ids@));
            }
        }
        assert forall|id: Seq<char>| #[trigger] needed@.contains_key(id) <==> some_gap_needs(
            all.take(i + 1),
            purl_advisories@,
            id,
        ) by {
            let held = all.take(i as int);
            let now = all.take(i + 1);
            assert(now[i as int] == gaps@[i as int]@);
            if some_gap_needs(held, purl_advisories@, id) {
                let k = choose|k: int|
                    0 <= k < held.len() && gap_needs(#[trigger] held[k], purl_advisories@, id);
                assert(now[k] == held[k]);
            }
            if some_gap_needs(now, purl_advisories@, id) {
                let k = choose|k: int|
                    0 <= k < now.len() && gap_needs(#[trigger] now[k], purl_advisories@, id);
                if k < i {
                    assert(held[k] == now[k]);
                }
            }
        }
    }
    assert(all.take(all.len() as int) =~= all);
    let (keys, _) = needed.into_parts();
    assert forall|id: Seq<char>| #[trigger] texts(keys@).contains(id) <==> needed@.contains_key(
        id,
    ) by {
        assert(texts(keys@).to_set().contains(id) <==> texts(keys@).contains(id));
    }
    keys
}

/// Whether a pair is the package URL and the CVE of a gap that has both.
pub open spec fn reported(gaps: Seq<GapText>, p: Pair) -> bool {
    exists|i: int|
        0 <= i < gaps.len() && (#[trigger] gaps[i]).purl == Some(p.0) && gaps[i].cve_id == Some(p.1)
}

/// The pairs of package URL and CVE of the gaps that have both.
pub open spec fn reported_set(gaps: Seq<GapText>) -> Set<Pair> {
    Set::new(|p: Pair| reported(gaps, p))
}

/// The pairs of package URL and CVE of the gaps that have both.
pub fn reported_pairs(gaps: &Vec<Gap>) -> (r: PairMap<bool>)
    ensures
        r@.dom() == reported_set(gap_texts(gaps@)),
{
    let mut pairs: PairMap<bool> = PairMap::new();
    let ghost all = gap_texts(gaps@);
    for i in 0..gaps.len()
        invariant
            all == gap_texts(gaps@),
            forall|p: Pair| #[trigger]
                pairs@.contains_key(p) <==> reported(all.take(i as int), p),
    {
        let ghost before = pairs@;
        let gap = &gaps[i];
        if let Some(purl) = &gap.purl {
            if let Some(cve_id) = &gap.cve_id {
                pairs.insert(purl.as_str(), cve_id.as_str(), true);
            }
        }
        assert forall|p: Pair| #[trigger] pairs@.contains_key(p) <==> reported(
            all.take(i + 1),
            p,
        ) by {
            let held = all.take(i as int);
            let now = all.take(i + 1);
            assert(now[i as int] == gaps@[i as int]@);
            if reported(held, p) {
                let k = choose|k: int|
                    0 <= k < held.len() && (#[trigger] held[k]).purl == Some(p.0) && held[k].cve_id
                        == Some(p.1);
                assert(now[k] == held[k]);
            }
            if reported(now, p) {
                let k = choose|k: int|
                    0 <= k < now.len() && (#[trigger] now[k]).purl == Some(p.0) && now[k].cve_id
                        == Some(p.1);
                if k < i {
                    assert(held[k] == now[k]);
                }
            }
            assert(before.contains_key(p) <==> reported(held, p));
        }
    }
    assert(all.take(all.len() as int) =~= all);
    assert(pairs@.dom() =~= reported_set(all));
    pairs
}

/// The pair that a gap is categorized under.
pub open spec fn gap_key(gap: GapText) -> Pair {
    (or_empty(gap.purl), or_empty(gap.cve_id))
}

/// The category of a pair, from the advisories that are known.
pub open spec fn pair_category(
    p: Pair,
    advisories: Map<Seq<char>, Vec<String>>,
    data: Map<Seq<char>, Json>,
    t: Order,
) -> Answer<CategoryText> {
    row_category(p.0, p.1, advisories, data, t)
}

pub(crate) fn or_blank(s: &Option<String>) -> (r: &str)
    ensures
        r@ == or_empty(string_in(*s)),
{
    match s {
        Some(s) => s.as_str(),
        None => {
            proof {
                reveal_strlit("");
                assert(""@ =~= Seq::<char>::empty());
            }
            ""
        },
    }
}

proof fn lemma_cell_at(
    fields: Seq<Seq<char>>,
    record: Seq<Seq<char>>,
    name: Seq<char>,
    k: int,
    n: int,
)
    requires
        0 <= k < n <= fields.len(),
        fields[k] == name,
        forall|j: int| k < j < n ==> #[trigger] fields[j] != name,
    ensures
        cell_before(fields, record, name, n) == Some(
            if k < record.len() {
                record[k]
            } else {
                Seq::empty()
            },
        ),
    decreases n,
{
    if k < n - 1 {
        assert(fields[n - 1] != name);
        lemma_cell_at(fields, record, name, k, n - 1);
    }
}

/// What stands under a column's name is what the record has in the last column of
/// that name; where there is no such column there is nothing.
pub proof fn law_cell_is_read(
    fields: Seq<Seq<char>>,
    record: Seq<Seq<char>>,
    name: Seq<char>,
    k: int,
)
    ensures
        0 <= k < fields.len() && k < record.len() && fields[k] == name && (forall|j: int|
            k < j < fields.len() ==> #[trigger] fields[j] != name) ==> cell(fields, record, name)
            == Some(record[k]),
        !fields.contains(name) ==> cell(fields, record, name) is None,
{
    if 0 <= k < fields.len() && k < record.len() && fields[k] == name && (forall|j: int|
        k < j < fields.len() ==> #[trigger] fields[j] != name) {
        lemma_cell_at(fields, record, name, k, fields.len() as int);
    }
    if !fields.contains(name) {
        lemma_no_cell(fields, record, name, fields.len() as int);
    }
}

proof fn lemma_no_cell(fields: Seq<Seq<char>>, record: Seq<Seq<char>>, name: Seq<char>, n: int)
    requires
        0 <= n <= fields.len(),
        !fields.contains(name),
    ensures
        cell_before(fields, record, name, n) is None,
    decreases n,
{
    if n > 0 {
        assert(fields.contains(fields[n - 1]));
        lemma_no_cell(fields, record, name, n - 1);
    }
}

/// The gaps are the records that say that they are missing in TPA, with their
/// package URL and their CVE, and no others.
pub proof fn law_gaps_are_missing_in_tpa(
    fields: Seq<Seq<char>>,
    records: Seq<Seq<Seq<char>>>,
    gap: GapText,
)
    ensures
        tpa_gaps(fields, records).contains(gap) <==> exists|i: int|
            0 <= i < records.len() && cell(fields, #[trigger] records[i], "missing_in"@) == Some(
                "TPA"@,
            ) && gap.purl == cell(fields, records[i], "purl"@) && gap.cve_id == cell(
                fields,
                records[i],
                "cve_id"@,
            ),
{
    let f = |r: Seq<Seq<char>>| tpa_gap(fields, r);
    lemma_filter_map_contains(records, f, gap);
    if tpa_gaps(fields, records).contains(gap) {
        let i = choose|i: int| 0 <= i < records.len() && f(#[trigger] records[i]) == Some(gap);
        assert(cell(fields, records[i], "missing_in"@) == Some("TPA"@));
    }
    if exists|i: int|
        0 <= i < records.len() && cell(fields, #[trigger] records[i], "missing_in"@) == Some(
            "TPA"@,
        ) && gap.purl == cell(fields, records[i], "purl"@) && gap.cve_id == cell(
            fields,
            records[i],
            "cve_id"@,
        ) {
        let i = choose|i: int|
            0 <= i < records.len() && cell(fields, #[trigger] records[i], "missing_in"@) == Some(
                "TPA"@,
            ) && gap.purl == cell(fields, records[i], "purl"@) && gap.cve_id == cell(
                fields,
                records[i],
                "cve_id"@,
            );
        assert(f(records[i]) == Some(gap));
    }
}

/// A record adds its gap behind those of the records before it, or none.
pub proof fn law_gaps_keep_their_order(
    fields: Seq<Seq<char>>,
    records: Seq<Seq<Seq<char>>>,
    record: Seq<Seq<char>>,
)
    ensures
        cell(fields, record, "missing_in"@) == Some("TPA"@) ==> tpa_gaps(
            fields,
            records.push(record),
        ) == tpa_gaps(fields, records).push(
            GapText {
                purl: cell(fields, record, "purl"@),
                cve_id: cell(fields, record, "cve_id"@),
            },
        ),
        cell(fields, record, "missing_in"@) != Some("TPA"@) ==> tpa_gaps(
            fields,
            records.push(record),
        ) == tpa_gaps(fields, records),
{
    let more = records.push(record);
    let f = |r: Seq<Seq<char>>| tpa_gap(fields, r);
    assert(more.drop_last() =~= records);
    assert(more.last() == record);
    if cell(fields, record, "missing_in"@) == Some("TPA"@) {
        assert(tpa_gaps(fields, more) =~= tpa_gaps(fields, records).push(f(record)->0));
    }
}

/// Of the gaps the first are taken, as many as the limit says; all of them where it
/// is 0 or there are no more.
pub proof fn law_limit_takes_the_first(gaps: Seq<GapText>, limit: int, i: int)
    requires
        limit >= 0,
    ensures
        limit == 0 || limit >= gaps.len() ==> limited(gaps, limit) == gaps,
        0 < limit < gaps.len() ==> limited(gaps, limit).len() == limit,
        0 <= i < limited(gaps, limit).len() ==> limited(gaps, limit)[i] == gaps[i],
{
}

/// An advisory is needed exactly where one of the gaps has a package that it is
/// known for.
pub proof fn law_needed_advisories(
    gaps: Seq<GapText>,
    advisories: Map<Seq<char>, Vec<String>>,
    id: Seq<char>,
)
    ensures
        some_gap_needs(gaps, advisories, id) <==> exists|i: int, j: int|
            #![trigger gaps[i], advisories[gaps[i].purl->0]@[j]]
            0 <= i < gaps.len() && gaps[i].purl is Some && advisories.contains_key(gaps[i].purl->0)
                && 0 <= j < advisories[gaps[i].purl->0]@.len() && advisories[gaps[i].purl->0]@[j]@
                == id,
{
    if some_gap_needs(gaps, advisories, id) {
        let i = choose|i: int| 0 <= i < gaps.len() && gap_needs(#[trigger] gaps[i], advisories, id);
        let list = texts(advisories[gaps[i].purl->0]@);
        let j = choose|j: int| 0 <= j < list.len() && list[j] == id;
        assert(advisories[gaps[i].purl->0]@[j]@ == id);
    }
    if exists|i: int, j: int|
        #![trigger gaps[i], advisories[gaps[i].purl->0]@[j]]
        0 <= i < gaps.len() && gaps[i].purl is Some && advisories.contains_key(gaps[i].purl->0)
            && 0 <= j < advisories[gaps[i].purl->0]@.len() && advisories[gaps[i].purl->0]@[j]@
            == id {
        let (i, j) = choose|i: int, j: int|
            #![trigger gaps[i], advisories[gaps[i].purl->0]@[j]]
            0 <= i < gaps.len() && gaps[i].purl is Some && advisories.contains_key(gaps[i].purl->0)
                && 0 <= j < advisories[gaps[i].purl->0]@.len() && advisories[gaps[i].purl->0]@[j]@
                == id;
        assert(texts(advisories[gaps[i].purl->0]@)[j] == id);
        assert(gap_needs(gaps[i], advisories, id));
    }
}

/// A pair is reported on exactly where a gap has its package URL and its CVE.
pub proof fn law_reported_pairs(gaps: Seq<GapText>, purl: Seq<char>, cve_id: Seq<char>)
    ensures
        reported_set(gaps).contains((purl, cve_id)) <==> gaps.contains(
            GapText { purl: Some(purl), cve_id: Some(cve_id) },
        ),
{
    let gap = GapText { purl: Some(purl), cve_id: Some(cve_id) };
    if gaps.contains(gap) {
        let i = choose|i: int| 0 <= i < gaps.len() && gaps[i] == gap;
        assert(gaps[i].purl == Some(purl));
    }
    if reported(gaps, (purl, cve_id)) {
        let i = choose|i: int|
            0 <= i < gaps.len() && (#[trigger] gaps[i]).purl == Some(purl) && gaps[i].cve_id
                == Some(cve_id);
        assert(gaps[i] == gap);
    }
}

} // verus!
