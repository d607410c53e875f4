//! What OSV knows of an advisory, and what that says of packages.

use vstd::prelude::*;
use vstd::string::*;

use crate::compare::Scored;
use crate::lists::{lemma_add_contains, lemma_filter_contains, lemma_flat_map_contains};
use crate::osv::OSVHeader;
use crate::pair_map::{Pair, PairMap};
use crate::scores::{cvss_of, get_cvss};
use crate::str_map::StrMap;
use crate::text::{contains, occurs_in, starts_with, string_in, texts};

verus! {

/// A severity that OSV gives: a vector, and of what sort it is.
#[derive(Debug)]
pub struct OSVSeverity {
    pub cvsstype: String,
    pub score: String,
}

/// What OSV knows of an advisory: other names for it, those it comes from, and
/// how severe it is.
#[derive(Debug)]
pub struct OSVAlias {
    pub aliases: Vec<String>,
    pub upstream: Vec<String>,
    pub severity: Vec<OSVSeverity>,
}

/// What is known of an advisory: what OSV answered, or nothing where there was no
/// answer to be had.
pub fn alias_or_blank(answer: Option<OSVAlias>) -> (r: OSVAlias)
    ensures
        match answer {
            Some(alias) => r == alias,
            None => r.aliases@.len() == 0 && r.upstream@.len() == 0 && r.severity@.len() == 0,
        },
{
    match answer {
        Some(alias) => alias,
        None => OSVAlias { aliases: Vec::new(), upstream: Vec::new(), severity: Vec::new() },
    }
}

/// The names that are those of CVEs.
pub open spec fn cve_names(names: Seq<Seq<char>>) -> Seq<Seq<char>> {
    names.filter(|name: Seq<char>| "CVE-"@.is_prefix_of(name))
}

/// Whether a severity is a vector of CVSS 3 or 4.
pub open spec fn is_vector(score: Seq<char>) -> bool {
    occurs_in("CVSS:3"@, score) || occurs_in("CVSS:4"@, score)
}

/// The first vector of CVSS 3 or 4, from the `i`-th severity on.
pub open spec fn vector_from(severity: Seq<OSVSeverity>, i: int) -> Option<Seq<char>>
    decreases severity.len() - i,
{
    if i >= severity.len() {
        None
    } else if is_vector(severity[i].score@) {
        Some(severity[i].score@)
    } else {
        vector_from(severity, i + 1)
    }
}

impl OSVAlias {
    /// The CVEs that the advisory is about: those it comes from first.
    pub open spec fn cves(self) -> Seq<Seq<char>> {
        cve_names(texts(self.upstream@) + texts(self.aliases@))
    }

    /// The vector that the advisory is scored by.
    pub open spec fn vector(self) -> Option<Seq<char>> {
        vector_from(self.severity@, 0)
    }

    /// The score of the advisory; blank where it has no vector.
    pub open spec fn score(self) -> Seq<char> {
        match self.vector() {
            Some(vector) => cvss_of(vector),
            None => Seq::empty(),
        }
    }

    /// Other names for the advisory.
    pub fn get_alias(&self) -> (r: &Vec<String>)
        ensures
            *r == self.aliases,
    {
        &self.aliases
    }

    /// The CVEs that the advisory is about.
    pub fn get_cve_ids(&self) -> (r: Vec<&str>)
        ensures
            r@.map_values(|s: &str| s@) == self.cves(),
    {
        let ghost names = texts(self.upstream@) + texts(self.aliases@);
        let ghost f = |name: Seq<char>| "CVE-"@.is_prefix_of(name);
        let mut r: Vec<&str> = Vec::new();
        let n = self.upstream.len();
        proof {
            reveal(Seq::filter);
            assert(names.take(0).filter(f) =~= Seq::<Seq<char>>::empty());
            assert(r@.map_values(|s: &str| s@) =~= Seq::<Seq<char>>::empty());
        }
        for i in 0..n
            invariant
                n == self.upstream@.len(),
                names == texts(self.upstream@) + texts(self.aliases@),
                f == (|name: Seq<char>| "CVE-"@.is_prefix_of(name)),
                r@.map_values(|s: &str| s@) == names.take(i as int).filter(f),
        {
            let id = self.upstream[i].as_str();
            proof {
                reveal(Seq::filter);
                assert(names.take(i + 1).drop_last() =~= names.take(i as int));
                assert(names.take(i + 1).last() == id@);
            }
            let ghost before = r@;
            if starts_with(id, "CVE-") {
                r.push(id);
                assert(r@.map_values(|s: &str| s@) =~= before.map_values(|s: &str| s@).push(id@));
            }
        }
        let m = self.aliases.len();
        for i in 0..m
            invariant
                n == self.upstream@.len(),
                m == self.aliases@.len(),
                names == texts(self.upstream@) + texts(self.aliases@),
                f == (|name: Seq<char>| "CVE-"@.is_prefix_of(name)),
                r@.map_values(|s: &str| s@) == names.take(n + i).filter(f),
        {
            let id = self.aliases[i].as_str();
            proof {
                reveal(Seq::filter);
                assert(names.take(n + i + 1).drop_last() =~= names.take(n + i));
                assert(names.take(n + i + 1).last() == id@);
            }
            let ghost before = r@;
            if starts_with(id, "CVE-") {
                r.push(id);
                assert(r@.map_values(|s: &str| s@) =~= before.map_values(|s: &str| s@).push(id@));
            }
        }
        assert(names.take(n + m) =~= names);
        r
    }

    /// The vector that the advisory is scored by.
    pub fn cvss_vector(&self) -> (r: Option<String>)
        ensures
            string_in(r) == self.vector(),
    {
        for i in 0..self.severity.len()
            invariant
                self.vector() == vector_from(self.severity@, i as int),
        {
            let score = &self.severity[i].score;
            if contains(score.as_str(), "CVSS:3") || contains(score.as_str(), "CVSS:4") {
                return Some(score.clone());
            }
        }
        None
    }
}

/// What an advisory says: its CVEs, each with the advisory's score; the advisory
/// itself, without a score, where it has no CVE.
pub open spec fn cve_scores(id: Seq<char>, detail: OSVAlias) -> Seq<Pair> {
    if detail.cves().len() == 0 {
        seq![(id, Seq::empty())]
    } else {
        detail.cves().map_values(|cve: Seq<char>| (cve, detail.score()))
    }
}

/// A package with vulnerabilities and their scores.
pub open spec fn scored_for(purl: Seq<char>, scores: Seq<Pair>) -> Seq<Scored> {
    scores.map_values(|s: Pair| Scored { purl, cve_id: s.0, cvss: s.1 })
}

/// Packages, each with the same vulnerabilities and scores.
pub open spec fn scored_for_all(purls: Seq<Seq<char>>, scores: Seq<Pair>) -> Seq<Scored> {
    purls.flat_map(|purl: Seq<char>| scored_for(purl, scores))
}

/// What an advisory says of its packages; nothing where it was not resolved.
pub open spec fn said_by(
    advisories: Map<Seq<char>, Vec<String>>,
    resolved: Map<Seq<char>, OSVAlias>,
) -> spec_fn(Seq<char>) -> Seq<Scored> {
    |id: Seq<char>|
        if resolved.contains_key(id) {
            scored_for_all(texts(advisories[id]@), cve_scores(id, resolved[id]))
        } else {
            Seq::empty()
        }
}

/// Whether there is a record about a pair.
pub open spec fn is_about(records: Seq<Scored>, p: Pair) -> bool {
    exists|i: int|
        0 <= i < records.len() && ((#[trigger] records[i]).purl, records[i].cve_id) == p
}

/// The records without those about a pair that an earlier one is about.
pub open spec fn kept_first(records: Seq<Scored>) -> Seq<Scored>
    decreases records.len(),
{
    if records.len() == 0 {
        Seq::empty()
    } else {
        let rest = kept_first(records.drop_last());
        let last = records.last();
        if is_about(rest, (last.purl, last.cve_id)) {
            rest
        } else {
            rest.push(last)
        }
    }
}

/// The records that are kept, with the pairs that they are about.
struct Kept {
    headers: Vec<OSVHeader>,
    seen: PairMap<bool>,
}

spec fn header_texts(v: Seq<OSVHeader>) -> Seq<Scored> {
    v.map_values(|h: OSVHeader| h@)
}

impl Kept {
    spec fn of(self, records: Seq<Scored>) -> bool {
        &&& header_texts(self.headers@) == kept_first(records)
        &&& forall|p: Pair| #[trigger]
            self.seen@.contains_key(p) <==> is_about(kept_first(records), p)
    }

    /// Takes a record in.
    fn keep(&mut self, purl: &str, cve_id: &str, cvss: &str, Ghost(records): Ghost<Seq<Scored>>)
        requires
            old(self).of(records),
        ensures
            final(self).of(
                records.push(Scored { purl: purl@, cve_id: cve_id@, cvss: cvss@ }),
            ),
    {
        let ghost record = Scored { purl: purl@, cve_id: cve_id@, cvss: cvss@ };
        let ghost more = records.push(record);
        let ghost rest = kept_first(records);
        let ghost before = self.headers@;
        assert(more.drop_last() =~= records);
        assert(self.seen@.contains_key((purl@, cve_id@)) <==> is_about(rest, (purl@, cve_id@)));
        if !self.seen.contains_key(purl, cve_id) {
            self.seen.insert(purl, cve_id, true);
            self.headers.push(
                OSVHeader {
                    PURL: purl.to_owned(),
                    CVE_ID: cve_id.to_owned(),
                    CVSS: cvss.to_owned(),
                },
            );
            assert(header_texts(self.headers@) =~= header_texts(before).push(record));
            assert forall|p: Pair| #[trigger] self.seen@.contains_key(p) <==> is_about(
                kept_first(more),
                p,
            ) by {
                lemma_is_about_push(rest, record, p);
            }
        }
    }
}

proof fn lemma_is_about_push(records: Seq<Scored>, record: Scored, p: Pair)
    ensures
        is_about(records.push(record), p) <==> is_about(records, p) || (record.purl, record.cve_id)
            == p,
{
    let more = records.push(record);
    if is_about(records, p) {
        let i = choose|i: int|
            0 <= i < records.len() && ((#[trigger] records[i]).purl, records[i].cve_id) == p;
        assert(more[i] == records[i]);
    }
    if is_about(more, p) {
        let i = choose|i: int|
            0 <= i < more.len() && ((#[trigger] more[i]).purl, more[i].cve_id) == p;
        if i < records.len() {
            assert(records[i] == more[i]);
        }
    }
    assert(more[records.len() as int] == record);
}

spec fn pair_list(v: Seq<(String, String)>) -> Seq<Pair> {
    v.map_values(|p: (String, String)| (p.0@, p.1@))
}

/// Takes the vulnerabilities of packages in.
fn keep_all(
    kept: &mut Kept,
    purls: &Vec<String>,
    scores: &Vec<(String, String)>,
    Ghost(records): Ghost<Seq<Scored>>,
)
    requires
        old(kept).of(records),
    ensures
        final(kept).of(records + scored_for_all(texts(purls@), pair_list(scores@))),
{
    let ghost ps = texts(purls@);
    let ghost ss = pair_list(scores@);
    let ghost f = |purl: Seq<char>| scored_for(purl, ss);
    assert(ps.take(0).flat_map(f) =~= Seq::<Scored>::empty());
    assert(records + Seq::<Scored>::empty() =~= records);
    for i in 0..purls.len()
        invariant
            ps == texts(purls@),
            ss == pair_list(scores@),
            f == (|purl: Seq<char>| scored_for(purl, ss)),
            kept.of(records + ps.take(i as int).flat_map(f)),
    {
        let purl = &purls[i];
        let ghost piece = scored_for(purl@, ss);
        let ghost held = records + ps.take(i as int).flat_map(f);
        assert(held + piece.take(0) =~= held);
        for j in 0..scores.len()
            invariant
                ss == pair_list(scores@),
                piece == scored_for(purl@, ss),
                kept.of(held + piece.take(j as int)),
        {
            assert(ss[j as int] == (scores@[j as int].0@, scores@[j as int].1@));
            kept.keep(
                purl.as_str(),
                scores[j].0.as_str(),
                scores[j].1.as_str(),
                Ghost(held + piece.take(j as int)),
            );
            assert((held + piece.take(j as int)).push(piece[j as int]) =~= held + piece.take(
                j + 1,
            ));
        }
        assert(piece.take(piece.len() as int) =~= piece);
        proof {
            ps.lemma_flat_map_take_append(f, i as int);
            assert(ps[i as int] == purl@);
            assert(held + piece =~= records + ps.take(i + 1).flat_map(f));
        }
    }
    assert(ps.take(ps.len() as int) =~= ps);
}

/// What an advisory says: its CVEs with their scores.
fn scores_of(id: &str, detail: &OSVAlias) -> (r: Vec<(String, String)>)
    ensures
        pair_list(r@) == cve_scores(id@, *detail),
{
    proof {
        reveal_strlit("");
        assert(""@ =~= Seq::<char>::empty());
    }
    let cves = detail.get_cve_ids();
    let ghost names = detail.cves();
    assert(cves@.map_values(|s: &str| s@).len() == cves@.len());
    let mut r: Vec<(String, String)> = Vec::new();
    if cves.len() == 0 {
        r.push((id.to_owned(), "".to_owned()));
        assert(pair_list(r@) =~= cve_scores(id@, *detail));
        return r;
    }
    let vector = detail.cvss_vector();
    let ghost full = cve_scores(id@, *detail);
    for i in 0..cves.len()
        invariant
            ""@ == Seq::<char>::empty(),
            names == detail.cves(),
            names == cves@.map_values(|s: &str| s@),
            names.len() > 0,
            full == cve_scores(id@, *detail),
            string_in(vector) == detail.vector(),
            pair_list(r@) == full.take(i as int),
    {
        let ghost before = r@;
        let cve_id = cves[i];
        let score = match &vector {
            Some(vector) => get_cvss(vector.clone(), cve_id),
            None => "".to_owned(),
        };
        assert(names[i as int] == cve_id@);
        r.push((cve_id.to_owned(), score));
        assert(pair_list(r@) =~= pair_list(before).push(full[i as int]));
        assert(full.take(i + 1) =~= full.take(i as int).push(full[i as int]));
    }
    assert(full.take(full.len() as int) =~= full);
    r
}

/// What the advisories that were resolved say of their packages, without what an
/// earlier record is about.
pub fn resolved_headers(advisories: &StrMap<Vec<String>>, resolved: &StrMap<OSVAlias>) -> (r: Vec<
    OSVHeader,
>)
    ensures
        advisories.coherent(),
        r@.map_values(|h: OSVHeader| h@) == kept_first(
            advisories.keys().flat_map(said_by(advisories@, resolved@)),
        ),
{
    let ghost ids = advisories.keys();
    let ghost f = said_by(advisories@, resolved@);
    let mut kept = Kept { headers: Vec::new(), seen: PairMap::new() };
    let n = advisories.len();
    proof {
        assert(ids.take(0).flat_map(f) =~= Seq::<Scored>::empty());
        assert(header_texts(kept.headers@) =~= Seq::<Scored>::empty());
    }
    for i in 0..n
        invariant
            ids == advisories.keys(),
            n == ids.len(),
            f == said_by(advisories@, resolved@),
            kept.of(ids.take(i as int).flat_map(f)),
    {
        let id = advisories.key_at(i);
        proof {
            ids.lemma_flat_map_take_append(f, i as int);
        }
        let ghost held = ids.take(i as int).flat_map(f);
        match resolved.get(id.as_str()) {
            Some(detail) => {
                let scores = scores_of(id.as_str(), detail);
                keep_all(&mut kept, advisories.value_at(i), &scores, Ghost(held));
            },
            None => {
                assert(held + Seq::<Scored>::empty() =~= held);
            },
        }
    }
    assert(ids.take(n as int) =~= ids);
    kept.headers
}

/// No two of the records that are kept are about the same pair, one is kept about
/// each pair, and it is the first.
pub proof fn law_one_record_per_pair(records: Seq<Scored>, p: Pair)
    ensures
        is_about(kept_first(records), p) <==> is_about(records, p),
        forall|i: int, j: int|
            0 <= i < j < kept_first(records).len() ==> (
            #[trigger] kept_first(records)[i].purl,
            kept_first(records)[i].cve_id,
        ) != (#[trigger] kept_first(records)[j].purl, kept_first(records)[j].cve_id),
        forall|i: int, k: int|
            0 <= i < kept_first(records).len() && 0 <= k < records.len() && (forall|j: int|
                0 <= j < k ==> ((#[trigger] records[j]).purl, records[j].cve_id) != (
                records[k].purl,
                records[k].cve_id,
            )) && (#[trigger] kept_first(records)[i].purl, kept_first(records)[i].cve_id) == (
            #[trigger] records[k].purl,
            records[k].cve_id,
        ) ==> kept_first(records)[i] == records[k],
    decreases records.len(),
{
    if records.len() > 0 {
        let rest = records.drop_last();
        let last = records.last();
        law_one_record_per_pair(rest, p);
        law_one_record_per_pair(rest, (last.purl, last.cve_id));
        lemma_is_about_push(rest, last, p);
        lemma_is_about_push(kept_first(rest), last, p);
        assert(rest.push(last) =~= records);
    }
}

proof fn lemma_is_about_add(a: Seq<Scored>, b: Seq<Scored>, p: Pair)
    ensures
        is_about(a + b, p) <==> is_about(a, p) || is_about(b, p),
{
    let all = a + b;
    if is_about(a, p) {
        let i = choose|i: int| 0 <= i < a.len() && ((#[trigger] a[i]).purl, a[i].cve_id) == p;
        assert(all[i] == a[i]);
    }
    if is_about(b, p) {
        let i = choose|i: int| 0 <= i < b.len() && ((#[trigger] b[i]).purl, b[i].cve_id) == p;
        assert(all[a.len() + i] == b[i]);
    }
    if is_about(all, p) {
        let i = choose|i: int|
            0 <= i < all.len() && ((#[trigger] all[i]).purl, all[i].cve_id) == p;
        if i < a.len() {
            assert(a[i] == all[i]);
        } else {
            assert(b[i - a.len()] == all[i]);
        }
    }
}

proof fn lemma_scored_for_all(purls: Seq<Seq<char>>, scores: Seq<Pair>, purl: Seq<char>, k: int)
    requires
        purls.contains(purl),
        0 <= k < scores.len(),
    ensures
        is_about(scored_for_all(purls, scores), (purl, scores[k].0)),
    decreases purls.len(),
{
    let f = |p: Seq<char>| scored_for(p, scores);
    let n = purls.len() - 1;
    let rest = purls.drop_last();
    purls.lemma_flat_map_take_append(f, n);
    assert(purls.take(n + 1) =~= purls);
    assert(purls.take(n) =~= rest);
    lemma_is_about_add(scored_for_all(rest, scores), f(purls.last()), (purl, scores[k].0));
    if purl == purls.last() {
        assert(f(purls.last())[k].purl == purl);
    } else {
        let i = choose|i: int| 0 <= i < purls.len() && purls[i] == purl;
        assert(rest[i] == purl);
        lemma_scored_for_all(rest, scores, purl, k);
    }
}

proof fn lemma_said_is_about(
    ids: Seq<Seq<char>>,
    f: spec_fn(Seq<char>) -> Seq<Scored>,
    id: Seq<char>,
    p: Pair,
)
    requires
        ids.contains(id),
        is_about(f(id), p),
    ensures
        is_about(ids.flat_map(f), p),
    decreases ids.len(),
{
    let n = ids.len() - 1;
    let rest = ids.drop_last();
    ids.lemma_flat_map_take_append(f, n);
    assert(ids.take(n + 1) =~= ids);
    assert(ids.take(n) =~= rest);
    lemma_is_about_add(rest.flat_map(f), f(ids.last()), p);
    if id != ids.last() {
        let i = choose|i: int| 0 <= i < ids.len() && ids[i] == id;
        assert(rest[i] == id);
        lemma_said_is_about(rest, f, id, p);
    }
}

/// What a resolved advisory says is reported for each of its packages: there is a
/// record about each of its CVEs, or about the advisory where it has none.
pub proof fn law_resolved_reaches_all_packages(
    ids: Seq<Seq<char>>,
    advisories: Map<Seq<char>, Vec<String>>,
    resolved: Map<Seq<char>, OSVAlias>,
    id: Seq<char>,
    purl: Seq<char>,
    k: int,
)
    requires
        ids.contains(id),
        resolved.contains_key(id),
        texts(advisories[id]@).contains(purl),
        0 <= k < cve_scores(id, resolved[id]).len(),
    ensures
        is_about(
            kept_first(ids.flat_map(said_by(advisories, resolved))),
            (purl, cve_scores(id, resolved[id])[k].0),
        ),
{
    let f = said_by(advisories, resolved);
    let p = (purl, cve_scores(id, resolved[id])[k].0);
    lemma_scored_for_all(texts(advisories[id]@), cve_scores(id, resolved[id]), purl, k);
    lemma_said_is_about(ids, f, id, p);
    law_one_record_per_pair(ids.flat_map(f), p);
}

/// Whether an advisory has a CVE among the names that it comes from or among its
/// other names.
pub open spec fn has_cve(detail: OSVAlias, name: Seq<char>) -> bool {
    &&& "CVE-"@.is_prefix_of(name)
    &&& (exists|m: int| 0 <= m < detail.upstream@.len() && (#[trigger] detail.upstream@[m])@ == name)
        || (exists|m: int| 0 <= m < detail.aliases@.len() && (#[trigger] detail.aliases@[m])@ == name)
}

/// The CVEs of an advisory are all the names in its upstream list and among its
/// aliases that begin with `CVE-`, and no others.
pub proof fn law_cves_of_an_advisory(detail: OSVAlias, name: Seq<char>)
    ensures
        detail.cves().contains(name) <==> has_cve(detail, name),
{
    let a = texts(detail.upstream@);
    let b = texts(detail.aliases@);
    lemma_filter_contains(a + b, |name: Seq<char>| "CVE-"@.is_prefix_of(name), name);
    lemma_add_contains(a, b, name);
    if a.contains(name) {
        let m = choose|m: int| 0 <= m < a.len() && a[m] == name;
        assert(detail.upstream@[m]@ == name);
    }
    if b.contains(name) {
        let m = choose|m: int| 0 <= m < b.len() && b[m] == name;
        assert(detail.aliases@[m]@ == name);
    }
    if exists|m: int| 0 <= m < detail.upstream@.len() && (#[trigger] detail.upstream@[m])@ == name {
        let m = choose|m: int|
            0 <= m < detail.upstream@.len() && (#[trigger] detail.upstream@[m])@ == name;
        assert(a[m] == name);
    }
    if exists|m: int| 0 <= m < detail.aliases@.len() && (#[trigger] detail.aliases@[m])@ == name {
        let m = choose|m: int|
            0 <= m < detail.aliases@.len() && (#[trigger] detail.aliases@[m])@ == name;
        assert(b[m] == name);
    }
}

proof fn lemma_no_cves(detail: OSVAlias)
    requires
        forall|name: Seq<char>| !has_cve(detail, name),
    ensures
        detail.cves().len() == 0,
{
    if detail.cves().len() > 0 {
        let name = detail.cves()[0];
        assert(detail.cves().contains(name));
        law_cves_of_an_advisory(detail, name);
    }
}

proof fn lemma_score_about(
    ids: Seq<Seq<char>>,
    advisories: Map<Seq<char>, Vec<String>>,
    resolved: Map<Seq<char>, OSVAlias>,
    rows: Seq<OSVHeader>,
    id: Seq<char>,
    j: int,
    name: Seq<char>,
    n: int,
)
    requires
        rows.map_values(|h: OSVHeader| h@) == kept_first(
            ids.flat_map(said_by(advisories, resolved)),
        ),
        ids.contains(id),
        resolved.contains_key(id),
        0 <= j < advisories[id]@.len(),
        0 <= n < cve_scores(id, resolved[id]).len(),
        cve_scores(id, resolved[id])[n].0 == name,
    ensures
        exists|i: int|
            0 <= i < rows.len() && (#[trigger] rows[i]).PURL@ == advisories[id]@[j]@
                && rows[i].CVE_ID@ == name,
{
    let purl = advisories[id]@[j]@;
    assert(texts(advisories[id]@)[j] == purl);
    assert(texts(advisories[id]@).contains(purl));
    law_resolved_reaches_all_packages(ids, advisories, resolved, id, purl, n);
    let kept = kept_first(ids.flat_map(said_by(advisories, resolved)));
    let i = choose|i: int|
        0 <= i < kept.len() && ((#[trigger] kept[i]).purl, kept[i].cve_id) == (purl, name);
    assert(rows.map_values(|h: OSVHeader| h@)[i] == rows[i]@);
    assert(rows[i].PURL@ == purl && rows[i].CVE_ID@ == name);
}

/// Each package of a resolved advisory has a record about each name in the
/// advisory's upstream list and among its aliases that begins with `CVE-`.
pub proof fn law_every_cve_is_recorded(
    ids: Seq<Seq<char>>,
    advisories: Map<Seq<char>, Vec<String>>,
    resolved: Map<Seq<char>, OSVAlias>,
    rows: Seq<OSVHeader>,
    id: Seq<char>,
    j: int,
    name: Seq<char>,
)
    requires
        rows.map_values(|h: OSVHeader| h@) == kept_first(
            ids.flat_map(said_by(advisories, resolved)),
        ),
        ids.contains(id),
        resolved.contains_key(id),
        0 <= j < advisories[id]@.len(),
        has_cve(resolved[id], name),
    ensures
        exists|i: int|
            0 <= i < rows.len() && (#[trigger] rows[i]).PURL@ == advisories[id]@[j]@
                && rows[i].CVE_ID@ == name,
{
    let detail = resolved[id];
    law_cves_of_an_advisory(detail, name);
    let n = choose|n: int| 0 <= n < detail.cves().len() && detail.cves()[n] == name;
    assert(cve_scores(id, detail)[n].0 == name);
    lemma_score_about(ids, advisories, resolved, rows, id, j, name, n);
}

/// Each package of a resolved advisory that has no CVE has a record about the
/// advisory itself.
pub proof fn law_advisory_without_cve_is_recorded(
    ids: Seq<Seq<char>>,
    advisories: Map<Seq<char>, Vec<String>>,
    resolved: Map<Seq<char>, OSVAlias>,
    rows: Seq<OSVHeader>,
    id: Seq<char>,
    j: int,
)
    requires
        rows.map_values(|h: OSVHeader| h@) == kept_first(
            ids.flat_map(said_by(advisories, resolved)),
        ),
        ids.contains(id),
        resolved.contains_key(id),
        0 <= j < advisories[id]@.len(),
        forall|name: Seq<char>| !has_cve(resolved[id], name),
    ensures
        exists|i: int|
            0 <= i < rows.len() && (#[trigger] rows[i]).PURL@ == advisories[id]@[j]@
                && rows[i].CVE_ID@ == id,
{
    lemma_no_cves(resolved[id]);
    assert(cve_scores(id, resolved[id])[0].0 == id);
    lemma_score_about(ids, advisories, resolved, rows, id, j, id, 0);
}

proof fn lemma_kept_is_given(records: Seq<Scored>, record: Scored)
    ensures
        kept_first(records).contains(record) ==> records.contains(record),
    decreases records.len(),
{
    if records.len() > 0 {
        let rest = records.drop_last();
        let last = records.last();
        lemma_kept_is_given(rest, record);
        lemma_add_contains(rest, seq![last], record);
        lemma_add_contains(kept_first(rest), seq![last], record);
        assert(rest + seq![last] =~= records);
        assert(kept_first(rest) + seq![last] =~= kept_first(rest).push(last));
        assert(seq![last].contains(record) <==> record == last) by {
            assert(seq![last][0] == last);
        }
    }
}

/// Whether an advisory says something of a package: one of its CVEs with its
/// score, or the advisory itself, without a score, where it has no CVE.
pub open spec fn says(
    id: Seq<char>,
    detail: OSVAlias,
    name: Seq<char>,
    cvss: Seq<char>,
) -> bool {
    ||| has_cve(detail, name) && cvss == detail.score()
    ||| (forall|other: Seq<char>| !has_cve(detail, other)) && name == id && cvss.len() == 0
}

/// Each record is about a package of a resolved advisory and says what the
/// advisory says.
pub proof fn law_every_record_is_said(
    ids: Seq<Seq<char>>,
    advisories: Map<Seq<char>, Vec<String>>,
    resolved: Map<Seq<char>, OSVAlias>,
    rows: Seq<OSVHeader>,
    i: int,
)
    requires
        rows.map_values(|h: OSVHeader| h@) == kept_first(
            ids.flat_map(said_by(advisories, resolved)),
        ),
        0 <= i < rows.len(),
    ensures
        exists|k: int, j: int|
            #![trigger advisories[ids[k]]@[j]]
            0 <= k < ids.len() && resolved.contains_key(ids[k]) && 0 <= j
                < advisories[ids[k]]@.len() && advisories[ids[k]]@[j]@ == rows[i].PURL@ && says(
                ids[k],
                resolved[ids[k]],
                rows[i].CVE_ID@,
                rows[i].CVSS@,
            ),
{
    let f = said_by(advisories, resolved);
    let record = rows[i]@;
    let kept = rows.map_values(|h: OSVHeader| h@);
    assert(kept[i] == record);
    assert(kept.contains(record));
    lemma_kept_is_given(ids.flat_map(f), record);
    lemma_flat_map_contains(ids, f, record);
    let k = choose|k: int| 0 <= k < ids.len() && f(#[trigger] ids[k]).contains(record);
    let id = ids[k];
    assert(resolved.contains_key(id));
    let detail = resolved[id];
    let scores = cve_scores(id, detail);
    let purls = texts(advisories[id]@);
    let g = |purl: Seq<char>| scored_for(purl, scores);
    lemma_flat_map_contains(purls, g, record);
    let j = choose|j: int| 0 <= j < purls.len() && g(#[trigger] purls[j]).contains(record);
    let said = g(purls[j]);
    let n = choose|n: int| 0 <= n < said.len() && said[n] == record;
    assert(record.cve_id == scores[n].0 && record.cvss == scores[n].1);
    assert(advisories[ids[k]]@[j]@ == purls[j]);
    if detail.cves().len() == 0 {
        assert forall|other: Seq<char>| !has_cve(detail, other) by {
            law_cves_of_an_advisory(detail, other);
        }
    } else {
        assert(detail.cves()[n] == record.cve_id);
        assert(detail.cves().contains(record.cve_id));
        law_cves_of_an_advisory(detail, record.cve_id);
    }
}

/// No two records are about the same package and the same name.
pub proof fn law_records_are_distinct(
    ids: Seq<Seq<char>>,
    advisories: Map<Seq<char>, Vec<String>>,
    resolved: Map<Seq<char>, OSVAlias>,
    rows: Seq<OSVHeader>,
    i: int,
    j: int,
)
    requires
        rows.map_values(|h: OSVHeader| h@) == kept_first(
            ids.flat_map(said_by(advisories, resolved)),
        ),
        0 <= i < j < rows.len(),
    ensures
        rows[i].PURL@ != rows[j].PURL@ || rows[i].CVE_ID@ != rows[j].CVE_ID@,
{
    let all = ids.flat_map(said_by(advisories, resolved));
    law_one_record_per_pair(all, (rows[i].PURL@, rows[i].CVE_ID@));
    let kept = rows.map_values(|h: OSVHeader| h@);
    assert(kept[i] == rows[i]@ && kept[j] == rows[j]@);
    assert((kept_first(all)[i].purl, kept_first(all)[i].cve_id) != (
    kept_first(all)[j].purl, kept_first(all)[j].cve_id));
}

proof fn lemma_vector_at(severity: Seq<OSVSeverity>, i: int, k: int)
    requires
        0 <= i <= k <= severity.len(),
        forall|j: int|
            i <= j < k ==> !occurs_in("CVSS:3"@, (#[trigger] severity[j]).score@) && !occurs_in(
                "CVSS:4"@,
                severity[j].score@,
            ),
    ensures
        vector_from(severity, i) == vector_from(severity, k),
    decreases k - i,
{
    if i < k {
        assert(!occurs_in("CVSS:3"@, severity[i].score@));
        lemma_vector_at(severity, i + 1, k);
    }
}

/// An advisory has the score of its first severity that names version 3 or 4 of
/// CVSS, and none where no severity does.
pub proof fn law_score_of_an_advisory(detail: OSVAlias, k: int)
    requires
        0 <= k <= detail.severity@.len(),
        forall|j: int|
            0 <= j < k ==> !occurs_in("CVSS:3"@, (#[trigger] detail.severity@[j]).score@)
                && !occurs_in("CVSS:4"@, detail.severity@[j].score@),
        k < detail.severity@.len() ==> occurs_in("CVSS:3"@, detail.severity@[k].score@)
            || occurs_in("CVSS:4"@, detail.severity@[k].score@),
    ensures
        k < detail.severity@.len() ==> detail.vector() == Some(detail.severity@[k].score@)
            && detail.score() == cvss_of(detail.severity@[k].score@),
        k == detail.severity@.len() ==> detail.vector() is None && detail.score().len() == 0,
{
    lemma_vector_at(detail.severity@, 0, k);
}

} // verus!
