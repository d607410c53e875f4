//! The vulnerabilities that OSV knows, package by package.

use vstd::prelude::*;
use vstd::string::*;

use crate::compare::Scored;
use crate::lists::{lemma_filter_map_contains, lemma_flat_map_contains};
use crate::osv::{id_texts, OSVHeader, OsvQuerybatchResponse, OsvVulns};
use crate::osv_details::OSVAlias;
use crate::osv_index::ids_of;
use crate::pair_map::{Pair, PairMap};
use crate::scores::get_cvss;
use crate::str_map::StrMap;
use crate::text::{contains, occurs_in, string_in, texts};

verus! {

/// A vulnerability and its score.
#[allow(non_snake_case)]
#[derive(Debug)]
pub struct Vulnerability {
    pub id: String,
    pub cvssScore: String,
}

impl View for Vulnerability {
    type V = Pair;

    open spec fn view(&self) -> Pair {
        (self.id@, self.cvssScore@)
    }
}

impl Vulnerability {
    pub fn new(cve: &str, cvss: String) -> (r: Self)
        ensures
            r@ == (cve@, cvss@),
    {
        Vulnerability { id: cve.to_owned(), cvssScore: cvss }
    }
}

/// The vulnerabilities of a list, as texts.
pub open spec fn vuln_texts(v: Seq<Vulnerability>) -> Seq<Pair> {
    v.map_values(|x: Vulnerability| x@)
}

/// Vulnerabilities, where they are known.
#[derive(Debug)]
pub struct Vulns {
    pub vulnerabilities: Option<Vec<Vulnerability>>,
}

impl Vulns {
    pub fn new(vul: Option<Vec<Vulnerability>>) -> (r: Self)
        ensures
            r.vulnerabilities == vul,
    {
        Vulns { vulnerabilities: vul }
    }
}

/// A package that another depends on, with its vulnerabilities.
#[derive(Debug)]
pub struct Depends {
    pub reference: String,
    pub vulnerabilities: Option<Vec<Vulnerability>>,
}

impl Depends {
    pub fn new(package: String, vuln: Option<Vec<Vulnerability>>) -> (r: Self)
        ensures
            r.reference == package,
            r.vulnerabilities == vuln,
    {
        Depends { reference: package, vulnerabilities: vuln }
    }
}

/// A package with its own vulnerabilities and those of what it depends on.
#[derive(Debug)]
pub struct OSVResults {
    pub reference: String,
    pub issues: Option<Vec<Vulnerability>>,
    pub transitive: Option<Vec<Depends>>,
}

impl OSVResults {
    pub fn new(
        reference: String,
        issues: Option<Vec<Vulnerability>>,
        transitive: Option<Vec<Depends>>,
    ) -> (r: Self)
        ensures
            r.reference == reference,
            r.issues == issues,
            r.transitive == transitive,
    {
        OSVResults { reference, issues, transitive }
    }
}

/// What is sent to ask for the advisories of one package.
pub open spec fn payload(purl: Seq<char>) -> Seq<char> {
    "{\"queries\": [{\"package\": {\"purl\": \""@ + purl + "\"}}]}"@
}

/// What is sent to ask for the advisories of one package.
pub fn get_osv_payload(purl: String) -> (r: String)
    ensures
        r@ == payload(purl@),
        r@ == "{\"queries\": [{\"package\": {\"purl\": \""@ + purl@ + "\"}}]}"@,
{
    let mut r = "{\"queries\": [{\"package\": {\"purl\": \"".to_owned();
    r.append(purl.as_str());
    r.append("\"}}]}");
    r
}

/// The ids of all advisories that a response names, answer after answer.
pub open spec fn named_ids(results: Seq<OsvVulns>) -> Seq<Seq<char>> {
    results.flat_map(|answer: OsvVulns| ids_of(answer@.vulns))
}

/// The ids of all advisories that a response names, answer after answer.
pub fn advisory_ids(response: &OsvQuerybatchResponse) -> (r: Vec<String>)
    ensures
        texts(r@) == named_ids(response.results@),
{
    let ghost all = response.results@;
    let ghost f = |answer: OsvVulns| ids_of(answer@.vulns);
    let mut r: Vec<String> = Vec::new();
    assert(all.take(0).flat_map(f) =~= Seq::<Seq<char>>::empty());
    assert(texts(r@) =~= Seq::<Seq<char>>::empty());
    for i in 0..response.results.len()
        invariant
            all == response.results@,
            f == (|answer: OsvVulns| ids_of(answer@.vulns)),
            texts(r@) == all.take(i as int).flat_map(f),
    {
        let vulns = &response.results[i].vulns;
        let ghost piece = ids_of(id_texts(vulns@));
        let ghost before = r@;
        assert(texts(before) + piece.take(0) =~= texts(before));
        for j in 0..vulns.len()
            invariant
                piece == ids_of(id_texts(vulns@)),
                texts(r@) == texts(before) + piece.take(j as int),
        {
            let ghost held = r@;
            r.push(vulns[j].id.clone());
            assert(id_texts(vulns@)[j as int] == vulns@[j as int]@);
            assert(texts(r@) =~= texts(held).push(piece[j as int]));
            assert(piece.take(j + 1) =~= piece.take(j as int).push(piece[j as int]));
        }
        assert(piece.take(piece.len() as int) =~= piece);
        proof {
            all.lemma_flat_map_take_append(f, i as int);
        }
    }
    assert(all.take(all.len() as int) =~= all);
    r
}

/// Whether a name is that of a CVE.
pub open spec fn names_cve(name: Seq<char>) -> bool {
    occurs_in("CVE"@, name)
}

/// The CVEs among the other names of an advisory, each with its score.
pub open spec fn aliased_cves(detail: OSVAlias) -> Seq<Pair> {
    texts(detail.aliases@).filter_map(
        |name: Seq<char>|
            if names_cve(name) {
                Some((name, detail.score()))
            } else {
                None
            },
    )
}

/// The vulnerabilities without those that came before.
pub open spec fn distinct(vulns: Seq<Pair>) -> Seq<Pair>
    decreases vulns.len(),
{
    if vulns.len() == 0 {
        Seq::empty()
    } else if distinct(vulns.drop_last()).contains(vulns.last()) {
        distinct(vulns.drop_last())
    } else {
        distinct(vulns.drop_last()).push(vulns.last())
    }
}

/// The vulnerabilities that a package's advisories are about, each once.
pub open spec fn package_vulns(details: Seq<OSVAlias>) -> Seq<Pair> {
    distinct(details.flat_map(|detail: OSVAlias| aliased_cves(detail)))
}

/// The vulnerabilities that are known, to tell what is new.
struct Known {
    vulns: Vec<Vulnerability>,
    seen: PairMap<bool>,
}

impl Known {
    spec fn of(self, all: Seq<Pair>) -> bool {
        &&& vuln_texts(self.vulns@) == distinct(all)
        &&& forall|p: Pair| #[trigger] self.seen@.contains_key(p) <==> distinct(all).contains(p)
    }

    fn learn(&mut self, id: &str, score: String, Ghost(all): Ghost<Seq<Pair>>)
        requires
            old(self).of(all),
        ensures
            final(self).of(all.push((id@, score@))),
    {
        let ghost p = (id@, score@);
        let ghost rest = distinct(all);
        let ghost before = self.vulns@;
        assert(all.push(p).drop_last() =~= all);
        if !self.seen.contains_key(id, score.as_str()) {
            self.seen.insert(id, score.as_str(), true);
            self.vulns.push(Vulnerability::new(id, score));
            assert(vuln_texts(self.vulns@) =~= vuln_texts(before).push(p));
            assert forall|q: Pair| #[trigger] self.seen@.contains_key(q) <==> rest.push(
                p,
            ).contains(q) by {
                assert(rest.contains(q) || q == p <==> rest.push(p).contains(q)) by {
                    lemma_contains_push(rest, p, q);
                }
            }
        }
    }
}

proof fn lemma_contains_push(s: Seq<Pair>, p: Pair, q: Pair)
    ensures
        s.push(p).contains(q) <==> s.contains(q) || q == p,
{
    let more = s.push(p);
    if s.contains(q) {
        let i = choose|i: int| 0 <= i < s.len() && s[i] == q;
        assert(more[i] == q);
    }
    assert(more[s.len() as int] == p);
}

/// The vulnerabilities that a package's advisories are about, each once.
pub fn osv_vulnerabilities(details: &Vec<OSVAlias>) -> (r: Option<Vec<Vulnerability>>)
    ensures
        r matches Some(v) && vuln_texts(v@) == package_vulns(details@),
{
    let ghost all = details@;
    let ghost f = |detail: OSVAlias| aliased_cves(detail);
    let mut known = Known { vulns: Vec::new(), seen: PairMap::new() };
    proof {
        reveal_strlit("");
        assert(""@ =~= Seq::<char>::empty());
        assert(all.take(0).flat_map(f) =~= Seq::<Pair>::empty());
        assert(vuln_texts(known.vulns@) =~= Seq::<Pair>::empty());
    }
    for i in 0..details.len()
        invariant
            ""@ == Seq::<char>::empty(),
            all == details@,
            f == (|detail: OSVAlias| aliased_cves(detail)),
            known.of(all.take(i as int).flat_map(f)),
    {
        let detail = &details[i];
        let ghost names = texts(detail.aliases@);
        let ghost g = |name: Seq<char>|
            if names_cve(name) {
                Some((name, detail.score()))
            } else {
                None
            };
        let ghost held = all.take(i as int).flat_map(f);
        let vector = detail.cvss_vector();
        assert(names.take(0).filter_map(g) =~= Seq::<Pair>::empty());
        assert(held + Seq::<Pair>::empty() =~= held);
        for j in 0..detail.aliases.len()
            invariant
                ""@ == Seq::<char>::empty(),
                names == texts(detail.aliases@),
                g == (|name: Seq<char>|
                    if names_cve(name) {
                        Some((name, detail.score()))
                    } else {
                        None
                    }),
                string_in(vector) == detail.vector(),
                known.of(held + names.take(j as int).filter_map(g)),
        {
            let alias = &detail.aliases[j];
            let ghost now = held + names.take(j as int).filter_map(g);
            assert(names[j as int] == alias@);
            proof {
                names.lemma_filter_map_take_succ(g, j as int);
            }
            if contains(alias.as_str(), "CVE") {
                let score = match &vector {
                    Some(vector) => get_cvss(vector.clone(), alias.as_str()),
                    None => "".to_owned(),
                };
                assert(g(names[j as int]) == Some((alias@, score@)));
                assert(now.push((alias@, score@)) =~= held + names.take(j + 1).filter_map(g));
                known.learn(alias.as_str(), score, Ghost(now));
            } else {
                assert(now =~= held + names.take(j + 1).filter_map(g));
            }
        }
        assert(names.take(names.len() as int) =~= names);
        proof {
            all.lemma_flat_map_take_append(f, i as int);
        }
    }
    assert(all.take(all.len() as int) =~= all);
    Some(known.vulns)
}

/// Of the vulnerabilities none is there twice, and none is lost.
pub proof fn law_distinct_keeps_each_once(vulns: Seq<Pair>, p: Pair)
    ensures
        distinct(vulns).no_duplicates(),
        distinct(vulns).contains(p) <==> vulns.contains(p),
    decreases vulns.len(),
{
    if vulns.len() > 0 {
        let rest = vulns.drop_last();
        law_distinct_keeps_each_once(rest, p);
        law_distinct_keeps_each_once(rest, vulns.last());
        lemma_contains_push(rest, vulns.last(), p);
        lemma_contains_push(distinct(rest), vulns.last(), p);
        assert(rest.push(vulns.last()) =~= vulns);
    }
}

/// A package of the map with its vulnerabilities.
pub fn get_package_vulnmap(key: String, vulmap: StrMap<Option<Vec<Vulnerability>>>) -> (r: Depends)
    requires
        vulmap@.contains_key(key@),
    ensures
        r.reference == key,
        r.vulnerabilities == vulmap@[key@],
{
    let mut vulmap = vulmap;
    let vuln = vulmap.replace(key.as_str(), None);
    Depends::new(key, vuln)
}

/// The packages that have vulnerabilities.
pub fn remove_dep_without_vulns(vulnmap: StrMap<Option<Vec<Vulnerability>>>) -> (r: StrMap<
    Option<Vec<Vulnerability>>,
>)
    requires
        forall|p: Seq<char>| #[trigger] vulnmap@.contains_key(p) ==> vulnmap@[p] is Some,
    ensures
        forall|p: Seq<char>| #[trigger]
            r@.contains_key(p) <==> vulnmap@.contains_key(p) && vulnmap@[p]->0@.len() > 0,
        forall|p: Seq<char>| #[trigger] r@.contains_key(p) ==> r@[p] == vulnmap@[p],
{
    let ghost m = vulnmap@;
    let ghost names = vulnmap.keys();
    let (keys, values) = vulnmap.into_parts();
    let ghost given = values@;
    let mut values = values;
    let mut kept: StrMap<Option<Vec<Vulnerability>>> = StrMap::new();
    assert forall|j: int| 0 <= j < given.len() implies m.contains_key(#[trigger] names[j])
        && given[j] == m[names[j]] by {
        assert(values@[j] == given[j]);
    }
    for i in 0..keys.len()
        invariant
            names == texts(keys@),
            names.no_duplicates(),
            keys@.len() == given.len(),
            values@.len() == given.len(),
            forall|j: int| i <= j < given.len() ==> #[trigger] values@[j] == given[j],
            forall|j: int| 0 <= j < given.len() ==> m.contains_key(#[trigger] names[j]),
            forall|j: int| 0 <= j < given.len() ==> given[j] == m[#[trigger] names[j]],
            forall|p: Seq<char>| #[trigger] m.contains_key(p) ==> m[p] is Some,
            forall|p: Seq<char>| #[trigger]
                kept@.contains_key(p) <==> (exists|j: int|
                    0 <= j < i && #[trigger] names[j] == p) && m[p]->0@.len() > 0,
            forall|p: Seq<char>| #[trigger] kept@.contains_key(p) ==> kept@[p] == m[p],
    {
        let ghost before = kept@;
        let mut value: Option<Vec<Vulnerability>> = None;
        std::mem::swap(&mut value, &mut values[i]);
        assert(value == given[i as int]);
        assert(names[i as int] == keys@[i as int]@);
        let full = match &value {
            Some(vulns) => vulns.len() > 0,
            None => false,
        };
        if full {
            kept.insert(keys[i].clone(), value);
        }
        assert forall|p: Seq<char>| #[trigger] kept@.contains_key(p) <==> (exists|j: int|
            0 <= j < i + 1 && #[trigger] names[j] == p) && m[p]->0@.len() > 0 by {
            assert(before.contains_key(p) <==> (exists|j: int|
                0 <= j < i && #[trigger] names[j] == p) && m[p]->0@.len() > 0);
        }
    }
    assert forall|p: Seq<char>| #[trigger] kept@.contains_key(p) <==> m.contains_key(p)
        && m[p]->0@.len() > 0 by {
        assert(names.to_set().contains(p) <==> names.contains(p));
    }
    kept
}

/// A package's vulnerabilities, as records.
pub open spec fn vuln_records(vulnmap: Map<Seq<char>, Option<Vec<Vulnerability>>>) -> spec_fn(
    Seq<char>,
) -> Seq<Scored> {
    |purl: Seq<char>|
        match vulnmap[purl] {
            Some(vulns) => vuln_texts(vulns@).map_values(
                |v: Pair| Scored { purl, cve_id: v.0, cvss: v.1 },
            ),
            None => Seq::empty(),
        }
}

/// The vulnerabilities of all packages, as records.
pub fn osv_rows(vulnmap: &StrMap<Option<Vec<Vulnerability>>>) -> (r: Vec<OSVHeader>)
    ensures
        vulnmap.coherent(),
        r@.map_values(|h: OSVHeader| h@) == vulnmap.keys().flat_map(vuln_records(vulnmap@)),
{
    let ghost keys = vulnmap.keys();
    let ghost f = vuln_records(vulnmap@);
    let ghost view = |h: OSVHeader| h@;
    let mut rows: Vec<OSVHeader> = Vec::new();
    let n = vulnmap.len();
    assert(keys.take(0).flat_map(f) =~= Seq::<Scored>::empty());
    assert(rows@.map_values(view) =~= Seq::<Scored>::empty());
    for i in 0..n
        invariant
            keys == vulnmap.keys(),
            n == keys.len(),
            f == vuln_records(vulnmap@),
            view == (|h: OSVHeader| h@),
            rows@.map_values(view) == keys.take(i as int).flat_map(f),
    {
        let purl = vulnmap.key_at(i);
        let ghost before = rows@;
        let ghost piece = f(purl@);
        match vulnmap.value_at(i) {
            Some(vulns) => {
                assert(before.map_values(view) + piece.take(0) =~= before.map_values(view));
                for j in 0..vulns.len()
                    invariant
                        view == (|h: OSVHeader| h@),
                        piece == vuln_texts(vulns@).map_values(
                            |v: Pair| Scored { purl: purl@, cve_id: v.0, cvss: v.1 },
                        ),
                        rows@.map_values(view) == before.map_values(view) + piece.take(j as int),
                {
                    let ghost held = rows@;
                    let vuln = &vulns[j];
                    assert(vuln_texts(vulns@)[j as int] == vuln@);
                    rows.push(
                        OSVHeader {
                            PURL: purl.clone(),
                            CVE_ID: vuln.id.clone(),
                            CVSS: vuln.cvssScore.clone(),
                        },
                    );
                    assert(rows@.map_values(view) =~= held.map_values(view).push(
                        piece[j as int],
                    ));
                    assert(piece.take(j + 1) =~= piece.take(j as int).push(piece[j as int]));
                }
                assert(piece.take(piece.len() as int) =~= piece);
            },
            None => {
                assert(before.map_values(view) + piece =~= before.map_values(view));
            },
        }
        proof {
            keys.lemma_flat_map_take_append(f, i as int);
        }
    }
    assert(keys.take(n as int) =~= keys);
    rows
}

/// The ids that a response names are those of all its answers' advisories.
pub proof fn law_all_ids_are_named(results: Seq<OsvVulns>, id: Seq<char>)
    ensures
        named_ids(results).contains(id) <==> exists|k: int, j: int|
            #![trigger results[k].vulns@[j]]
            0 <= k < results.len() && 0 <= j < results[k].vulns@.len() && results[k].vulns@[j].id@
                == id,
{
    let f = |answer: OsvVulns| ids_of(answer@.vulns);
    lemma_flat_map_contains(results, f, id);
    if named_ids(results).contains(id) {
        let k = choose|k: int| 0 <= k < results.len() && f(#[trigger] results[k]).contains(id);
        let ids = f(results[k]);
        let j = choose|j: int| 0 <= j < ids.len() && ids[j] == id;
        assert(results[k]@.vulns[j] == results[k].vulns@[j]@);
        assert(results[k].vulns@[j].id@ == id);
    }
    if exists|k: int, j: int|
        #![trigger results[k].vulns@[j]]
        0 <= k < results.len() && 0 <= j < results[k].vulns@.len() && results[k].vulns@[j].id@
            == id {
        let (k, j) = choose|k: int, j: int|
            #![trigger results[k].vulns@[j]]
            0 <= k < results.len() && 0 <= j < results[k].vulns@.len() && results[k].vulns@[j].id@
                == id;
        assert(results[k]@.vulns[j] == results[k].vulns@[j]@);
        assert(f(results[k])[j] == id);
        assert(f(results[k]).contains(id));
    }
}

/// The vulnerabilities of a package are the aliases of its advisories that speak of
/// a CVE, each with the score of the advisory, and each once.
pub proof fn law_aliases_are_the_vulnerabilities(details: Seq<OSVAlias>, v: Pair)
    ensures
        package_vulns(details).contains(v) <==> exists|k: int, j: int|
            #![trigger details[k].aliases@[j]]
            0 <= k < details.len() && 0 <= j < details[k].aliases@.len()
                && details[k].aliases@[j]@ == v.0 && occurs_in("CVE"@, v.0) && v.1
                == details[k].score(),
        package_vulns(details).no_duplicates(),
{
    let f = |detail: OSVAlias| aliased_cves(detail);
    law_distinct_keeps_each_once(details.flat_map(f), v);
    lemma_flat_map_contains(details, f, v);
    if package_vulns(details).contains(v) {
        let k = choose|k: int| 0 <= k < details.len() && f(#[trigger] details[k]).contains(v);
        let detail = details[k];
        let names = texts(detail.aliases@);
        let g = |name: Seq<char>|
            if names_cve(name) {
                Some((name, detail.score()))
            } else {
                None
            };
        lemma_filter_map_contains(names, g, v);
        let j = choose|j: int| 0 <= j < names.len() && g(#[trigger] names[j]) == Some(v);
        assert(names[j] == details[k].aliases@[j]@);
    }
    if exists|k: int, j: int|
        #![trigger details[k].aliases@[j]]
        0 <= k < details.len() && 0 <= j < details[k].aliases@.len() && details[k].aliases@[j]@
            == v.0 && occurs_in("CVE"@, v.0) && v.1 == details[k].score() {
        let (k, j) = choose|k: int, j: int|
            #![trigger details[k].aliases@[j]]
            0 <= k < details.len() && 0 <= j < details[k].aliases@.len()
                && details[k].aliases@[j]@ == v.0 && occurs_in("CVE"@, v.0) && v.1
                == details[k].score();
        let detail = details[k];
        let names = texts(detail.aliases@);
        let g = |name: Seq<char>|
            if names_cve(name) {
                Some((name, detail.score()))
            } else {
                None
            };
        assert(names[j] == v.0);
        assert(g(names[j]) == Some(v));
        lemma_filter_map_contains(names, g, v);
        assert(f(details[k]).contains(v));
    }
}

/// There is a row for each vulnerability of each package, with its score, and no
/// other.
pub proof fn law_every_vulnerability_has_a_row(
    rows: Seq<OSVHeader>,
    purls: Seq<Seq<char>>,
    vulnmap: Map<Seq<char>, Option<Vec<Vulnerability>>>,
    purl: Seq<char>,
    id: Seq<char>,
    score: Seq<char>,
)
    requires
        rows.map_values(|h: OSVHeader| h@) == purls.flat_map(vuln_records(vulnmap)),
    ensures
        (exists|i: int|
            0 <= i < rows.len() && (#[trigger] rows[i]).PURL@ == purl && rows[i].CVE_ID@ == id
                && rows[i].CVSS@ == score) <==> purls.contains(purl) && (vulnmap[purl] matches Some(
            vulns,
        ) && exists|j: int|
            0 <= j < vulns@.len() && (#[trigger] vulns@[j]).id@ == id && vulns@[j].cvssScore@
                == score),
{
    let f = vuln_records(vulnmap);
    let record = Scored { purl, cve_id: id, cvss: score };
    let all = rows.map_values(|h: OSVHeader| h@);
    lemma_flat_map_contains(purls, f, record);
    if exists|i: int|
        0 <= i < rows.len() && (#[trigger] rows[i]).PURL@ == purl && rows[i].CVE_ID@ == id
            && rows[i].CVSS@ == score {
        let i = choose|i: int|
            0 <= i < rows.len() && (#[trigger] rows[i]).PURL@ == purl && rows[i].CVE_ID@ == id
                && rows[i].CVSS@ == score;
        assert(all[i] == record);
        assert(all.contains(record));
        let k = choose|k: int| 0 <= k < purls.len() && f(#[trigger] purls[k]).contains(record);
        let made = f(purls[k]);
        let j = choose|j: int| 0 <= j < made.len() && made[j] == record;
        let vulns = vulnmap[purls[k]]->0;
        assert(vuln_texts(vulns@)[j] == vulns@[j]@);
        assert(purls[k] == purl);
        assert(vulns@[j].id@ == id);
    }
    if purls.contains(purl) && (vulnmap[purl] matches Some(vulns) && exists|j: int|
        0 <= j < vulns@.len() && (#[trigger] vulns@[j]).id@ == id && vulns@[j].cvssScore@
            == score) {
        let vulns = vulnmap[purl]->0;
        let j = choose|j: int|
            0 <= j < vulns@.len() && (#[trigger] vulns@[j]).id@ == id && vulns@[j].cvssScore@
                == score;
        let k = choose|k: int| 0 <= k < purls.len() && purls[k] == purl;
        assert(vuln_texts(vulns@)[j] == vulns@[j]@);
        assert(f(purls[k])[j] == record);
        assert(f(purls[k]).contains(record));
        let i = choose|i: int| 0 <= i < all.len() && all[i] == record;
        assert(rows[i]@ == record);
        assert(rows[i].PURL@ == purl);
    }
}

/// A vulnerability that came before adds nothing; another comes behind the others.
pub proof fn law_distinct_keeps_the_first(vulns: Seq<Pair>, v: Pair)
    ensures
        distinct(Seq::empty()).len() == 0,
        distinct(vulns.push(v)) == (if vulns.contains(v) {
            distinct(vulns)
        } else {
            distinct(vulns).push(v)
        }),
{
    law_distinct_keeps_each_once(vulns, v);
    assert(vulns.push(v).drop_last() =~= vulns);
}

} // verus!
