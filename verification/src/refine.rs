//! What further evidence makes of the vulnerabilities that count as missed.

use vstd::prelude::*;

use crate::categorize::{
    category, category_text, check_cve_withdrawn, csaf_finding, csaf_verify_tpa_miss, is_withdrawn,
    law_csaf_finding_settles, law_verdict_follows_finding, verdict_on, Category, CategoryText,
    FINDING_CVE_WITHDRAWN, FINDING_TPA_MISS, VERDICT_TPA_GAP,
};
use crate::json::Json;
use crate::pair_map::{Pair, PairMap};
use crate::rpm::{package_of, parse_rpm_purl};
use crate::str_map::StrMap;
use crate::text::{same_text, starts_with, texts};
use crate::versions::{asks_unknown, extends, settled, Answer, Asked, Comparisons, Order};

verus! {

/// Whether a pair counts as missed.
pub open spec fn missed(categories: Map<Pair, Category>, p: Pair) -> bool {
    categories.contains_key(p) && categories[p]@.finding == FINDING_TPA_MISS@
}

/// Whether some pair counts as missed because of that advisory.
pub open spec fn missed_by_advisory(categories: Map<Pair, Category>, id: Seq<char>) -> bool {
    id.len() > 0 && exists|p: Pair| #[trigger]
        missed(categories, p) && categories[p]@.matched_advisory == id
}

/// Whether some pair with that CVE counts as missed.
pub open spec fn missed_cve(categories: Map<Pair, Category>, id: Seq<char>) -> bool {
    "CVE-"@.is_prefix_of(id) && exists|p: Pair| #[trigger] missed(categories, p) && p.1 == id
}

pub(crate) fn is_miss(category: &Category) -> (r: bool)
    ensures
        r == (category@.finding == FINDING_TPA_MISS@),
{
    same_text(category.finding.as_str(), FINDING_TPA_MISS)
}

/// The advisories because of which a pair counts as missed, each once.
pub fn csaf_advisory_ids(categories: &PairMap<Category>) -> (r: Vec<String>)
    ensures
        texts(r@).no_duplicates(),
        forall|id: Seq<char>| #[trigger]
            texts(r@).contains(id) <==> missed_by_advisory(categories@, id),
{
    let mut ids: StrMap<bool> = StrMap::new();
    let n = categories.len();
    let ghost keys = categories.keys();
    for i in 0..n
        invariant
            n == keys.len(),
            keys == categories.keys(),
            forall|id: Seq<char>| #[trigger]
                ids@.contains_key(id) <==> id.len() > 0 && exists|j: int|
                    0 <= j < i && missed(categories@, #[trigger] keys[j])
                        && categories@[keys[j]]@.matched_advisory == id,
    {
        let ghost before = ids@;
        let category = categories.value_at(i);
        if is_miss(category) && !category.matched_advisory.as_str().is_empty() {
            ids.insert(category.matched_advisory.clone(), true);
        }
        assert forall|id: Seq<char>| #[trigger] ids@.contains_key(id) <==> id.len() > 0 && exists|
            j: int,
        |
            0 <= j < i + 1 && missed(categories@, #[trigger] keys[j])
                && categories@[keys[j]]@.matched_advisory == id by {
            assert(before.contains_key(id) <==> id.len() > 0 && exists|j: int|
                0 <= j < i && missed(categories@, #[trigger] keys[j])
                    && categories@[keys[j]]@.matched_advisory == id);
            assert(categories@[keys[i as int]] == *category);
        }
    }
    proof {
        lemma_missed_keys(categories@, keys);
    }
    let ghost found = ids@;
    let (r, _) = ids.into_parts();
    proof {
        assert forall|id: Seq<char>| #[trigger] texts(r@).contains(id) <==> missed_by_advisory(
            categories@,
            id,
        ) by {
            assert(texts(r@).to_set().contains(id) <==> texts(r@).contains(id));
            assert(found.contains_key(id) <==> texts(r@).contains(id));
            if missed_by_advisory(categories@, id) {
                let p = choose|p: Pair| #[trigger]
                    missed(categories@, p) && categories@[p]@.matched_advisory == id;
                let j = choose|j: int| 0 <= j < keys.len() && keys[j] == p;
                assert(missed(categories@, keys[j]));
            }
        }
    }
    r
}

proof fn lemma_missed_keys(categories: Map<Pair, Category>, keys: Seq<Pair>)
    requires
        keys.to_set() == categories.dom(),
    ensures
        forall|p: Pair| #[trigger]
            missed(categories, p) ==> exists|j: int| 0 <= j < keys.len() && keys[j] == p,
{
    assert forall|p: Pair| #[trigger] missed(categories, p) implies exists|j: int|
        0 <= j < keys.len() && keys[j] == p by {
        assert(keys.to_set().contains(p));
        assert(keys.contains(p));
    }
}

/// The CVEs that count as missed for some package, each once.
pub fn cve_ids_to_check(categories: &PairMap<Category>) -> (r: Vec<String>)
    ensures
        texts(r@).no_duplicates(),
        forall|id: Seq<char>| #[trigger] texts(r@).contains(id) <==> missed_cve(categories@, id),
{
    let mut ids: StrMap<bool> = StrMap::new();
    let n = categories.len();
    let ghost keys = categories.keys();
    for i in 0..n
        invariant
            n == keys.len(),
            keys == categories.keys(),
            forall|id: Seq<char>| #[trigger]
                ids@.contains_key(id) <==> "CVE-"@.is_prefix_of(id) && exists|j: int|
                    0 <= j < i && missed(categories@, #[trigger] keys[j]) && keys[j].1 == id,
    {
        let ghost before = ids@;
        let category = categories.value_at(i);
        let (_, cve_id) = categories.key_at(i);
        if is_miss(category) && starts_with(cve_id, "CVE-") {
            ids.insert(cve_id.to_owned(), true);
        }
        assert forall|id: Seq<char>| #[trigger] ids@.contains_key(id) <==> "CVE-"@.is_prefix_of(id)
            && exists|j: int|
            0 <= j < i + 1 && missed(categories@, #[trigger] keys[j]) && keys[j].1 == id by {
            assert(before.contains_key(id) <==> "CVE-"@.is_prefix_of(id) && exists|j: int|
                0 <= j < i && missed(categories@, #[trigger] keys[j]) && keys[j].1 == id);
            assert(categories@[keys[i as int]] == *category);
        }
    }
    proof {
        lemma_missed_keys(categories@, keys);
    }
    let ghost found = ids@;
    let (r, _) = ids.into_parts();
    proof {
        assert forall|id: Seq<char>| #[trigger] texts(r@).contains(id) <==> missed_cve(
            categories@,
            id,
        ) by {
            assert(texts(r@).to_set().contains(id) <==> texts(r@).contains(id));
            assert(found.contains_key(id) <==> texts(r@).contains(id));
            if missed_cve(categories@, id) {
                let p = choose|p: Pair| #[trigger] missed(categories@, p) && p.1 == id;
                let j = choose|j: int| 0 <= j < keys.len() && keys[j] == p;
                assert(missed(categories@, keys[j]));
            }
        }
    }
    r
}

/// The document under a name.
pub open spec fn document(documents: Map<Seq<char>, Json>, id: Seq<char>) -> Option<Json> {
    if documents.contains_key(id) {
        Some(documents[id])
    } else {
        None
    }
}

/// What the CSAF document of its advisory makes of a pair's category: only a
/// miss is looked at, and only of an RPM package.
pub open spec fn csaf_revised(
    p: Pair,
    c: CategoryText,
    csaf: Map<Seq<char>, Json>,
    t: Order,
) -> Answer<CategoryText> {
    if c.finding != FINDING_TPA_MISS@ {
        Answer::Known(c)
    } else {
        match package_of(p.0) {
            None => Answer::Known(c),
            Some(package) => match csaf_finding(
                package,
                p.1,
                document(csaf, c.matched_advisory),
                t,
            ) {
                Answer::Needs(a, b) => Answer::Needs(a, b),
                Answer::Known(finding) => if finding == FINDING_TPA_MISS@ {
                    Answer::Known(c)
                } else {
                    Answer::Known(category_text(finding, c.matched_advisory))
                },
            },
        }
    }
}

/// What the CSAF document makes of a pair's category: `None` where it stays.
pub(crate) fn csaf_revision(
    purl: &str,
    cve_id: &str,
    category_now: &Category,
    csaf_data: &StrMap<Json>,
    t: &Comparisons,
) -> (r: Asked<Option<Category>>)
    ensures
        match r {
            Asked::Known(Some(c)) => csaf_revised(
                (purl@, cve_id@),
                category_now@,
                csaf_data@,
                t@,
            ) == Answer::Known(c@),
            Asked::Known(None) => csaf_revised(
                (purl@, cve_id@),
                category_now@,
                csaf_data@,
                t@,
            ) == Answer::Known(category_now@),
            Asked::Needs(a, b) => csaf_revised(
                (purl@, cve_id@),
                category_now@,
                csaf_data@,
                t@,
            ) == Answer::<CategoryText>::Needs(a@, b@),
        },
{
    if !is_miss(category_now) {
        return Asked::Known(None);
    }
    let package = match parse_rpm_purl(purl) {
        Some(package) => package,
        None => return Asked::Known(None),
    };
    let advisory = &category_now.matched_advisory;
    match csaf_verify_tpa_miss(
        &package,
        cve_id,
        advisory.as_str(),
        csaf_data.get(advisory.as_str()),
        t,
    ) {
        Asked::Known(finding) => if same_text(finding, FINDING_TPA_MISS) {
            Asked::Known(None)
        } else {
            Asked::Known(Some(category(finding.to_owned(), advisory.clone())))
        },
        Asked::Needs(a, b) => Asked::Needs(a, b),
    }
}

/// What the record of its CVE makes of a pair's category: a miss of a withdrawn
/// CVE is none.
pub open spec fn withdrawn_revised(
    p: Pair,
    c: CategoryText,
    cves: Map<Seq<char>, Json>,
) -> CategoryText {
    if c.finding == FINDING_TPA_MISS@ && is_withdrawn(document(cves, p.1)) {
        category_text(FINDING_CVE_WITHDRAWN@, c.matched_advisory)
    } else {
        c
    }
}

/// Checks the misses against the records of their CVEs.
pub fn apply_withdrawn(categories: &mut PairMap<Category>, cve_data: &StrMap<Json>)
    ensures
        final(categories).keys() == old(categories).keys(),
        final(categories)@.dom() == old(categories)@.dom(),
        forall|p: Pair| #[trigger]
            old(categories)@.contains_key(p) ==> final(categories)@[p]@ == withdrawn_revised(
                p,
                old(categories)@[p]@,
                cve_data@,
            ),
{
    let n = categories.len();
    let ghost keys = categories.keys();
    let ghost first = categories@;
    for i in 0..n
        invariant
            n == keys.len(),
            keys.no_duplicates(),
            keys.to_set() == first.dom(),
            first == old(categories)@,
            keys == old(categories).keys(),
            categories.keys() == keys,
            categories@.dom() == first.dom(),
            forall|j: int|
                0 <= j < i ==> categories@[#[trigger] keys[j]]@ == withdrawn_revised(
                    keys[j],
                    first[keys[j]]@,
                    cve_data@,
                ),
            forall|j: int|
                i <= j < n ==> categories@[#[trigger] keys[j]] == first[keys[j]],
    {
        let ghost before = categories@;
        let (purl, cve_id) = categories.key_at(i);
        let category_now = categories.value_at(i);
        if is_miss(category_now) && check_cve_withdrawn(cve_data.get(cve_id)) {
            let purl = purl.to_owned();
            let cve_id = cve_id.to_owned();
            let advisory = category_now.matched_advisory.clone();
            categories.insert(
                purl.as_str(),
                cve_id.as_str(),
                category(FINDING_CVE_WITHDRAWN.to_owned(), advisory),
            );
            assert(categories@.dom() =~= first.dom());
        }
        assert forall|j: int| 0 <= j < n && j != i implies categories@[#[trigger] keys[j]]
            == before[keys[j]] by {
            assert(keys[j] != keys[i as int]);
        }
    }
    proof {
        assert forall|q: Pair| #[trigger] first.contains_key(q) implies categories@[q]@
            == withdrawn_revised(q, first[q]@, cve_data@) by {
            assert(keys.to_set().contains(q));
            let j = choose|j: int| 0 <= j < keys.len() && keys[j] == q;
            assert(keys[j] == q);
        }
    }
}

/// Checking a category against CSAF documents asks only for a comparison that is
/// not known yet, and what is made of it stays the same whatever else is compared.
pub proof fn law_csaf_revised_settles(
    p: Pair,
    c: CategoryText,
    csaf: Map<Seq<char>, Json>,
    t: Order,
    more: Order,
)
    requires
        extends(t, more),
    ensures
        asks_unknown(csaf_revised(p, c, csaf, t), t),
        settled(csaf_revised(p, c, csaf, t), csaf_revised(p, c, csaf, more)),
{
    if let Some(package) = package_of(p.0) {
        law_csaf_finding_settles(package, p.1, document(csaf, c.matched_advisory), t, more);
    }
}

/// A second check against the same CSAF documents changes nothing.
pub proof fn law_csaf_revised_once(
    p: Pair,
    c: CategoryText,
    csaf: Map<Seq<char>, Json>,
    t: Order,
)
    requires
        csaf_revised(p, c, csaf, t) is Known,
    ensures
        csaf_revised(p, csaf_revised(p, c, csaf, t)->Known_0, csaf, t) == csaf_revised(
            p,
            c,
            csaf,
            t,
        ),
{
}

/// Further evidence keeps the advisory and leaves what is no miss alone, and
/// where the verdict was that on the finding it stays so.
pub proof fn law_evidence_only_clears_misses(
    p: Pair,
    c: CategoryText,
    csaf: Map<Seq<char>, Json>,
    cves: Map<Seq<char>, Json>,
    t: Order,
)
    ensures
        csaf_revised(p, c, csaf, t) matches Answer::Known(d) ==> {
            &&& d.matched_advisory == c.matched_advisory
            &&& c.finding != FINDING_TPA_MISS@ ==> d == c
            &&& c.verdict == verdict_on(c.finding) ==> d.verdict == verdict_on(d.finding)
        },
        ({
            let d = withdrawn_revised(p, c, cves);
            &&& d.matched_advisory == c.matched_advisory
            &&& c.finding != FINDING_TPA_MISS@ ==> d == c
            &&& c.verdict == verdict_on(c.finding) ==> d.verdict == verdict_on(d.finding)
        }),
{
}

/// A row ends as a gap exactly where its advisories call it a miss, the CSAF
/// document does not contradict them and the CVE is not withdrawn.
pub proof fn law_gap_survives_all_evidence(
    p: Pair,
    row: CategoryText,
    csaf: Map<Seq<char>, Json>,
    cves: Map<Seq<char>, Json>,
    t: Order,
)
    requires
        row.verdict == verdict_on(row.finding),
        csaf_revised(p, row, csaf, t) is Known,
    ensures
        withdrawn_revised(p, csaf_revised(p, row, csaf, t)->Known_0, cves).verdict
            == VERDICT_TPA_GAP@ <==> {
            &&& row.finding == FINDING_TPA_MISS@
            &&& csaf_revised(p, row, csaf, t) == Answer::Known(row)
            &&& !is_withdrawn(document(cves, p.1))
        },
{
    let checked = csaf_revised(p, row, csaf, t)->Known_0;
    law_verdict_follows_finding(row.finding);
    law_verdict_follows_finding(checked.finding);
    law_verdict_follows_finding(FINDING_CVE_WITHDRAWN@);
}

/// The CSAF documents that are asked for are those of the advisories by which some
/// pair is missed, and the records those of the CVEs of the pairs that are.
pub proof fn law_misses_are_asked_about(categories: Map<Pair, Category>, p: Pair)
    requires
        categories.contains_key(p),
        categories[p].finding@ == "TPA_MISS"@,
    ensures
        categories[p].matched_advisory@.len() > 0 ==> missed_by_advisory(
            categories,
            categories[p].matched_advisory@,
        ),
        "CVE-"@.is_prefix_of(p.1) ==> missed_cve(categories, p.1),
{
    assert(missed(categories, p));
}

/// Nothing is asked about what no pair is missed by.
pub proof fn law_nothing_else_is_asked_about(categories: Map<Pair, Category>, id: Seq<char>)
    ensures
        missed_by_advisory(categories, id) ==> exists|p: Pair| #[trigger]
            categories.contains_key(p) && categories[p].finding@ == "TPA_MISS"@
                && categories[p].matched_advisory@ == id,
        missed_cve(categories, id) ==> exists|p: Pair| #[trigger]
            categories.contains_key(p) && categories[p].finding@ == "TPA_MISS"@ && p.1 == id,
        missed_by_advisory(categories, id) ==> id.len() > 0,
        missed_cve(categories, id) ==> "CVE-"@.is_prefix_of(id),
{
    if missed_by_advisory(categories, id) {
        let p = choose|p: Pair| #[trigger]
            missed(categories, p) && categories[p]@.matched_advisory == id;
        assert(categories.contains_key(p));
    }
    if missed_cve(categories, id) {
        let p = choose|p: Pair| #[trigger] missed(categories, p) && p.1 == id;
        assert(categories.contains_key(p));
    }
}

/// The CSAF document of its advisory is what a missed RPM package is held against:
/// where the document says otherwise its finding takes the place of the miss, with
/// the verdict on it and the same advisory. Whatever is no miss, and whatever is no
/// RPM package, stays as it is.
pub proof fn law_document_is_held_against_a_miss(
    p: Pair,
    c: CategoryText,
    csaf: Map<Seq<char>, Json>,
    t: Order,
)
    ensures
        c.finding != "TPA_MISS"@ || package_of(p.0) is None ==> csaf_revised(p, c, csaf, t)
            == Answer::Known(c),
        c.finding == "TPA_MISS"@ ==> (package_of(p.0) matches Some(package) ==> match csaf_finding(
            package,
            p.1,
            if csaf.contains_key(c.matched_advisory) {
                Some(csaf[c.matched_advisory])
            } else {
                None
            },
            t,
        ) {
            Answer::Needs(a, b) => csaf_revised(p, c, csaf, t) == Answer::<CategoryText>::Needs(
                a,
                b,
            ),
            Answer::Known(finding) => csaf_revised(p, c, csaf, t) matches Answer::Known(d) && {
                &&& d.finding == finding
                &&& d.matched_advisory == c.matched_advisory
                &&& finding == "TPA_MISS"@ ==> d == c
                &&& finding != "TPA_MISS"@ ==> d.verdict == verdict_on(finding)
            },
        }),
{
}

/// A missed CVE whose record says that it is withdrawn is no miss any more but
/// noise; everything else stays as it is.
pub proof fn law_withdrawn_cves_are_noise(
    p: Pair,
    c: CategoryText,
    cves: Map<Seq<char>, Json>,
)
    ensures
        c.finding == "TPA_MISS"@ && cves.contains_key(p.1) && is_withdrawn(Some(cves[p.1])) ==> {
            let d = withdrawn_revised(p, c, cves);
            &&& d.finding == "CVE_WITHDRAWN"@
            &&& d.verdict == "OSV_NOISE"@
            &&& d.matched_advisory == c.matched_advisory
        },
        c.finding != "TPA_MISS"@ || !cves.contains_key(p.1) || !is_withdrawn(Some(cves[p.1]))
            ==> withdrawn_revised(p, c, cves) == c,
{
    law_verdict_follows_finding(FINDING_CVE_WITHDRAWN@);
}

} // verus!
