//! The categorization of the gaps, step by step.
//!
//! What has to be done outside, fetching documents and comparing versions, is
//! asked for as an action; its outcome is handed back before the next step.

use vstd::prelude::*;

use crate::categorize::{
    categorize_row, is_finding, law_csaf_gives_a_finding, law_matched_advisory_is_red_hat,
    law_row_category_settles, law_verdict_follows_finding, or_empty, redhat_advisory, row_category,
    verdict_on, Category, CategoryText, FINDING_UNKNOWN,
};
use crate::gaps::{gap_key, gap_texts, or_blank, pair_category, Gap};
use crate::json::Json;
use crate::pair_map::{Pair, PairMap};
use crate::refine::{
    apply_withdrawn, csaf_advisory_ids, csaf_revised, csaf_revision, cve_ids_to_check, document,
    is_miss, law_csaf_revised_settles, missed, missed_by_advisory, missed_cve, withdrawn_revised,
};
use crate::rpm::package_of;
use crate::str_map::StrMap;
use crate::text::{string_in, texts};
use crate::versions::{
    extends, lemma_successes_again, successes, Answer, Asked, Comparisons, Order,
};

verus! {

/// What has to be done next.
#[derive(Debug)]
pub enum Action {
    /// Compare two versions.
    Compare(String, String),
    /// Fetch the CSAF documents of advisories.
    FetchCsaf(Vec<String>),
    /// Fetch the records of CVEs.
    FetchCves(Vec<String>),
    /// Nothing: all gaps are categorized.
    Finish,
}

/// How far the categorization is.
#[derive(Debug)]
pub enum Stage {
    /// So many gaps have a category from their advisories.
    Rows(usize),
    /// The CSAF documents are due.
    AwaitCsaf,
    /// So many categories are checked against them.
    Csaf(usize),
    /// The records of the CVEs are due.
    AwaitCves,
    /// All is done.
    Finished,
}

/// The categorization of gaps.
pub struct Categorization {
    pub gaps: Vec<Gap>,
    pub purl_advisories: StrMap<Vec<String>>,
    pub adv_data: StrMap<Json>,
    pub csaf_data: Option<StrMap<Json>>,
    pub cve_data: Option<StrMap<Json>>,
    pub categories: PairMap<Category>,
    pub comparisons: Comparisons,
    pub stage: Stage,
    pub history: Ghost<History>,
}

/// The comparisons that were ever made, with what they said.
pub type History = Set<(Pair, Option<i32>)>;

/// Whether all that a table says was said.
pub open spec fn was_said(t: Order, history: History) -> bool {
    forall|p: Pair| #[trigger] t.contains_key(p) ==> history.contains((p, t[p]))
}

/// The documents that may be there.
pub open spec fn documents_in(documents: Option<StrMap<Json>>) -> Option<Map<Seq<char>, Json>> {
    match documents {
        Some(documents) => Some(documents@),
        None => None,
    }
}

/// What the CSAF documents make of a category, where they were fetched.
pub open spec fn after_csaf(
    p: Pair,
    c: CategoryText,
    csaf: Option<Map<Seq<char>, Json>>,
    t: Order,
) -> Answer<CategoryText> {
    match csaf {
        Some(csaf) => csaf_revised(p, c, csaf, t),
        None => Answer::Known(c),
    }
}

/// What the records of the CVEs make of a category, where they were fetched.
pub open spec fn after_cves(
    p: Pair,
    c: CategoryText,
    cves: Option<Map<Seq<char>, Json>>,
) -> CategoryText {
    match cves {
        Some(cves) => withdrawn_revised(p, c, cves),
        None => c,
    }
}

impl Categorization {
    /// Whether a category is what the advisories say of a pair, by comparisons
    /// that were made.
    pub open spec fn rowed(self, p: Pair, c: CategoryText) -> bool {
        exists|t: Order| #[trigger]
            was_said(t, self.history@) && pair_category(
                p,
                self.purl_advisories@,
                self.adv_data@,
                t,
            ) == Answer::Known(c)
    }

    /// Whether a category is what the CSAF documents make of what the advisories
    /// say, by comparisons that were made.
    pub open spec fn checked(self, p: Pair, c: CategoryText) -> bool {
        exists|row: CategoryText| #[trigger] self.rowed(p, row) && self.checks_out(p, row, c)
    }

    /// Whether a category is what the CSAF documents make of another.
    pub open spec fn checks_out(self, p: Pair, row: CategoryText, c: CategoryText) -> bool {
        exists|t: Order| #[trigger]
            was_said(t, self.history@) && after_csaf(
                p,
                row,
                documents_in(self.csaf_data),
                t,
            ) == Answer::Known(c)
    }

    /// Whether a category is what all the evidence makes of a pair.
    pub open spec fn judged(self, p: Pair, c: CategoryText) -> bool {
        exists|d: CategoryText| #[trigger]
            self.checked(p, d) && c == after_cves(p, d, documents_in(self.cve_data))
    }

    /// Whether the first `n` gaps, and no other pairs, have a category.
    pub open spec fn covers(self, n: int) -> bool {
        forall|p: Pair| #[trigger]
            self.categories@.contains_key(p) <==> exists|i: int|
                0 <= i < n && gap_key(#[trigger] self.gaps@[i]@) == p
    }

    /// Whether no pair counts as missed.
    pub open spec fn none_missed(self) -> bool {
        forall|p: Pair| !#[trigger] missed(self.categories@, p)
    }

    /// What holds of a categorization: the categories rest on what was fetched
    /// and on comparisons that were made, and no source of evidence was passed
    /// over while something counted as missed.
    pub open spec fn wf(self) -> bool {
        &&& was_said(self.comparisons@, self.history@)
        &&& match self.stage {
            Stage::Rows(n) => {
                &&& self.csaf_data is None && self.cve_data is None
                &&& n <= self.gaps@.len() && self.covers(n as int)
                &&& forall|p: Pair| #[trigger]
                    self.categories@.contains_key(p) ==> self.rowed(p, self.categories@[p]@)
            },
            Stage::AwaitCsaf => {
                &&& self.csaf_data is None && self.cve_data is None
                &&& self.covers(self.gaps@.len() as int) && !self.none_missed()
                &&& forall|p: Pair| #[trigger]
                    self.categories@.contains_key(p) ==> self.rowed(p, self.categories@[p]@)
            },
            Stage::Csaf(n) => {
                &&& self.csaf_data is Some && self.cve_data is None
                &&& n <= self.categories.keys().len() && self.covers(self.gaps@.len() as int)
                &&& forall|j: int|
                    0 <= j < n ==> self.checked(
                        #[trigger] self.categories.keys()[j],
                        self.categories@[self.categories.keys()[j]]@,
                    )
                &&& forall|j: int|
                    n <= j < self.categories.keys().len() ==> self.rowed(
                        #[trigger] self.categories.keys()[j],
                        self.categories@[self.categories.keys()[j]]@,
                    )
            },
            Stage::AwaitCves => {
                &&& self.csaf_data is Some && self.cve_data is None
                &&& self.covers(self.gaps@.len() as int) && !self.none_missed()
                &&& forall|p: Pair| #[trigger]
                    self.categories@.contains_key(p) ==> self.checked(p, self.categories@[p]@)
            },
            Stage::Finished => {
                &&& self.covers(self.gaps@.len() as int)
                &&& self.cve_data is Some ==> self.csaf_data is Some
                &&& self.csaf_data is None || self.cve_data is None ==> self.none_missed()
                &&& forall|p: Pair| #[trigger]
                    self.categories@.contains_key(p) ==> self.judged(p, self.categories@[p]@)
            },
        }
    }

    /// Starts on gaps, with the advisories of each package and what is known of
    /// the advisories.
    pub fn new(
        gaps: Vec<Gap>,
        purl_advisories: StrMap<Vec<String>>,
        adv_data: StrMap<Json>,
    ) -> (r: Self)
        ensures
            r.wf(),
            r.gaps == gaps,
            r.purl_advisories == purl_advisories,
            r.adv_data == adv_data,
            r.stage == Stage::Rows(0),
            r.categories@ == Map::<Pair, Category>::empty(),
            r.comparisons@ == Map::<Pair, Option<i32>>::empty(),
            r.history@ == History::empty(),
    {
        Categorization {
            gaps,
            purl_advisories,
            adv_data,
            csaf_data: None,
            cve_data: None,
            categories: PairMap::new(),
            comparisons: Comparisons::new(),
            stage: Stage::Rows(0),
            history: Ghost(Set::empty()),
        }
    }

    /// Whether all but the categories, the comparisons that count and the stage
    /// is the same.
    pub open spec fn same_inputs(self, other: Self) -> bool {
        &&& self.gaps == other.gaps
        &&& self.purl_advisories == other.purl_advisories
        &&& self.adv_data == other.adv_data
        &&& self.csaf_data == other.csaf_data
        &&& self.cve_data == other.cve_data
    }

    /// Takes in what a comparison of two versions said: `None` where it failed.
    pub fn compared(&mut self, a: &str, b: &str, found: Option<i32>)
        requires
            old(self).wf(),
        ensures
            final(self).wf(),
            final(self).same_inputs(*old(self)),
            final(self).categories == old(self).categories,
            final(self).stage == old(self).stage,
            final(self).history@ == old(self).history@.insert(((a@, b@), found)),
            final(self).comparisons@ == (if found is None && old(self).comparisons@.contains_key(
                (a@, b@),
            ) && old(self).comparisons@[(a@, b@)] is Some {
                old(self).comparisons@
            } else {
                old(self).comparisons@.insert((a@, b@), found)
            }),
    {
        self.comparisons.record(a, b, found);
        self.history = Ghost(old(self).history@.insert(((a@, b@), found)));
        proof {
            lemma_history_grows(*old(self), *self);
        }
    }

    /// Whether two versions have to be compared before the next gap, or the next
    /// category, can be dealt with.
    pub open spec fn wants(self, a: Seq<char>, b: Seq<char>) -> bool {
        match self.stage {
            Stage::Rows(n) => n < self.gaps@.len() && pair_category(
                gap_key(self.gaps@[n as int]@),
                self.purl_advisories@,
                self.adv_data@,
                self.comparisons@,
            ) == Answer::<CategoryText>::Needs(a, b),
            Stage::Csaf(n) => n < self.categories.keys().len() && after_csaf(
                self.categories.keys()[n as int],
                self.categories@[self.categories.keys()[n as int]]@,
                documents_in(self.csaf_data),
                self.comparisons@,
            ) == Answer::<CategoryText>::Needs(a, b),
            _ => false,
        }
    }

    /// How far the categorization is, as a number.
    pub open spec fn progress(self) -> int {
        let gaps = self.gaps@.len() as int;
        let pairs = self.categories.keys().len() as int;
        match self.stage {
            Stage::Rows(n) => n as int,
            Stage::AwaitCsaf => gaps + 1,
            Stage::Csaf(n) => gaps + 2 + n,
            Stage::AwaitCves => gaps + 3 + pairs,
            Stage::Finished => gaps + 4 + pairs,
        }
    }

    /// Whether nothing was lost on the way from an earlier state: it is not
    /// behind, and the categories are there, as they were unless they are being
    /// checked. The comparisons that succeeded are there as well; those that
    /// failed are as long as it stays where it was, and no longer.
    pub open spec fn goes_on_from(self, earlier: Self) -> bool {
        &&& self.same_inputs(earlier)
        &&& self.history == earlier.history
        &&& self.progress() >= earlier.progress()
        &&& self.comparisons@ == if self.progress() > earlier.progress() {
            successes(earlier.comparisons@)
        } else {
            earlier.comparisons@
        }
        &&& forall|p: Pair| #[trigger]
            earlier.categories@.contains_key(p) ==> self.categories@.contains_key(p)
        &&& !(earlier.stage is Csaf) ==> forall|p: Pair| #[trigger]
            earlier.categories@.contains_key(p) ==> self.categories@[p] == earlier.categories@[p]
    }

    /// Categorizes the gaps from the `n`-th on, as far as the comparisons go.
    fn step_rows(&mut self, n: usize) -> (r: Option<(String, String)>)
        requires
            old(self).wf(),
            old(self).stage == Stage::Rows(n),
        ensures
            final(self).wf(),
            final(self).goes_on_from(*old(self)),
            match r {
                Some((a, b)) => {
                    &&& !final(self).comparisons@.contains_key((a@, b@))
                    &&& final(self).wants(a@, b@)
                },
                None => final(self).stage == Stage::Rows(final(self).gaps.len()),
            },
    {
        let mut i = n;
        while i < self.gaps.len()
            invariant
                self.wf(),
                self.stage == Stage::Rows(i),
                self.goes_on_from(*old(self)),
                old(self).stage == Stage::Rows(n),
                n <= i <= self.gaps@.len(),
            decreases self.gaps@.len() - i,
        {
            let ghost before = *self;
            let gap = &self.gaps[i];
            let purl = or_blank(&gap.purl);
            let cve_id = or_blank(&gap.cve_id);
            let ghost p = gap_key(self.gaps@[i as int]@);
            assert(p == (purl@, cve_id@));
            if !self.categories.contains_key(purl, cve_id) {
                let answer = categorize_row(
                    purl,
                    cve_id,
                    &self.purl_advisories,
                    &self.adv_data,
                    &self.comparisons,
                );
                match answer {
                    Asked::Known(category) => {
                        let ghost c = category@;
                        self.categories.insert(purl, cve_id, category);
                        assert(was_said(before.comparisons@, before.history@));
                        assert(before.rowed(p, c));
                    },
                    Asked::Needs(a, b) => {
                        proof {
                            law_row_category_settles(
                                p.0,
                                p.1,
                                self.purl_advisories@,
                                self.adv_data@,
                                self.comparisons@,
                                self.comparisons@,
                            );
                        }
                        return Some((a, b));
                    },
                }
            }
            self.comparisons.forget_failures();
            self.stage = Stage::Rows(i + 1);
            proof {
                lemma_evidence_kept(before, *self);
                lemma_successes_again(old(self).comparisons@);
                assert forall|q: Pair| #[trigger] self.categories@.contains_key(q) <==> exists|
                    j: int,
                |
                    0 <= j < i + 1 && gap_key(#[trigger] self.gaps@[j]@) == q by {
                    assert(before.categories@.contains_key(q) <==> exists|j: int|
                        0 <= j < i && gap_key(#[trigger] before.gaps@[j]@) == q);
                    if before.categories@.contains_key(q) {
                        let j = choose|j: int|
                            0 <= j < i && gap_key(#[trigger] before.gaps@[j]@) == q;
                        assert(gap_key(self.gaps@[j]@) == q);
                    }
                    if q == p {
                        assert(gap_key(self.gaps@[i as int]@) == q);
                    }
                }
                assert forall|q: Pair| #[trigger]
                    self.categories@.contains_key(q) implies self.rowed(
                    q,
                    self.categories@[q]@,
                ) by {
                    if before.categories@.contains_key(q) {
                        assert(before.rowed(q, before.categories@[q]@));
                    }
                }
            }
            i += 1;
        }
        None
    }

    /// Checks the categories from the `n`-th on against the CSAF documents, as far
    /// as the comparisons go.
    fn step_csaf(&mut self, n: usize) -> (r: Option<(String, String)>)
        requires
            old(self).wf(),
            old(self).stage == Stage::Csaf(n),
        ensures
            final(self).wf(),
            final(self).goes_on_from(*old(self)),
            match r {
                Some((a, b)) => {
                    &&& !final(self).comparisons@.contains_key((a@, b@))
                    &&& final(self).wants(a@, b@)
                },
                None => final(self).stage matches Stage::Csaf(done) && done
                    == final(self).categories.keys().len(),
            },
    {
        let mut i = n;
        let m = self.categories.len();
        while i < m
            invariant
                self.wf(),
                self.stage == Stage::Csaf(i),
                self.goes_on_from(*old(self)),
                old(self).stage == Stage::Csaf(n),
                n <= i,
                m == self.categories.keys().len(),
                self.categories.coherent(),
                i <= m,
            decreases m - i,
        {
            let ghost before = *self;
            let ghost keys = self.categories.keys();
            let ghost p = keys[i as int];
            let ghost row = self.categories@[p]@;
            let (purl, cve_id) = self.categories.key_at(i);
            let csaf = match &self.csaf_data {
                Some(csaf) => csaf,
                None => return None,
            };
            let answer = csaf_revision(
                purl,
                cve_id,
                self.categories.value_at(i),
                csaf,
                &self.comparisons,
            );
            match answer {
                Asked::Known(revised) => {
                    if let Some(category) = revised {
                        let purl = purl.to_owned();
                        let cve_id = cve_id.to_owned();
                        self.categories.insert(purl.as_str(), cve_id.as_str(), category);
                        assert(self.categories@.dom() =~= before.categories@.dom());
                    }
                    self.comparisons.forget_failures();
                },
                Asked::Needs(a, b) => {
                    proof {
                        law_csaf_revised_settles(
                            p,
                            row,
                            csaf@,
                            self.comparisons@,
                            self.comparisons@,
                        );
                    }
                    return Some((a, b));
                },
            }
            self.stage = Stage::Csaf(i + 1);
            proof {
                let c = self.categories@[p]@;
                assert(was_said(before.comparisons@, before.history@));
                assert(after_csaf(
                    p,
                    row,
                    documents_in(before.csaf_data),
                    before.comparisons@,
                ) == Answer::Known(c));
                assert(before.checks_out(p, row, c));
                assert(before.rowed(keys[i as int], row));
                assert(before.checked(p, c));
                lemma_evidence_kept(before, *self);
                lemma_successes_again(old(self).comparisons@);
                assert forall|j: int| 0 <= j < m && j != i implies self.categories@[
                    #[trigger] keys[j]
                ] == before.categories@[keys[j]] by {
                    assert(keys[j] != keys[i as int]);
                }
                assert forall|j: int| 0 <= j < i + 1 implies self.checked(
                    #[trigger] self.categories.keys()[j],
                    self.categories@[self.categories.keys()[j]]@,
                ) by {
                    assert(self.categories.keys()[j] == keys[j]);
                    if j < i {
                        assert(before.checked(
                            before.categories.keys()[j],
                            before.categories@[before.categories.keys()[j]]@,
                        ));
                    }
                }
                assert forall|j: int| i < j < m implies self.rowed(
                    #[trigger] self.categories.keys()[j],
                    self.categories@[self.categories.keys()[j]]@,
                ) by {
                    assert(before.rowed(
                        before.categories.keys()[j],
                        before.categories@[before.categories.keys()[j]]@,
                    ));
                }
                assert(self.covers(self.gaps@.len() as int));
            }
            i += 1;
        }
        None
    }
}

/// Whether some category is a miss.
fn any_missed(categories: &PairMap<Category>) -> (r: bool)
    ensures
        r == exists|p: Pair| #[trigger] missed(categories@, p),
        categories.coherent(),
{
    let n = categories.len();
    let ghost keys = categories.keys();
    for i in 0..n
        invariant
            n == keys.len(),
            keys == categories.keys(),
            categories.coherent(),
            forall|j: int| 0 <= j < i ==> !missed(categories@, #[trigger] keys[j]),
    {
        if is_miss(categories.value_at(i)) {
            assert(missed(categories@, keys[i as int]));
            return true;
        }
    }
    assert forall|p: Pair| !#[trigger] missed(categories@, p) by {
        if missed(categories@, p) {
            assert(keys.to_set().contains(p));
            let j = choose|j: int| 0 <= j < keys.len() && keys[j] == p;
            assert(missed(categories@, keys[j]));
        }
    }
    false
}

proof fn lemma_history_grows(before: Categorization, after: Categorization)
    requires
        before.wf(),
        after.same_inputs(before),
        after.categories == before.categories,
        after.stage == before.stage,
        was_said(after.comparisons@, after.history@),
        before.history@.subset_of(after.history@),
    ensures
        after.wf(),
{
    lemma_evidence_kept(before, after);
}

/// What categories rest on stays when more is compared.
proof fn lemma_evidence_kept(before: Categorization, after: Categorization)
    requires
        after.same_inputs(before),
        before.history@.subset_of(after.history@),
    ensures
        forall|p: Pair, c: CategoryText| #[trigger] before.rowed(p, c) ==> after.rowed(p, c),
        forall|p: Pair, c: CategoryText| #[trigger] before.checked(p, c) ==> after.checked(p, c),
        forall|p: Pair, c: CategoryText| #[trigger] before.judged(p, c) ==> after.judged(p, c),
{
    assert forall|p: Pair, c: CategoryText| #[trigger] before.rowed(p, c) implies after.rowed(
        p,
        c,
    ) by {
        let t = choose|t: Order| #[trigger]
            was_said(t, before.history@) && pair_category(
                p,
                before.purl_advisories@,
                before.adv_data@,
                t,
            ) == Answer::Known(c);
        assert(was_said(t, after.history@));
    }
    assert forall|p: Pair, row: CategoryText, c: CategoryText| #[trigger]
        before.checks_out(p, row, c) implies after.checks_out(p, row, c) by {
        let t = choose|t: Order| #[trigger]
            was_said(t, before.history@) && after_csaf(
                p,
                row,
                documents_in(before.csaf_data),
                t,
            ) == Answer::Known(c);
        assert(was_said(t, after.history@));
    }
    assert forall|p: Pair, c: CategoryText| #[trigger] before.checked(p, c) implies after.checked(
        p,
        c,
    ) by {
        let row = choose|row: CategoryText| #[trigger]
            before.rowed(p, row) && before.checks_out(p, row, c);
        assert(after.rowed(p, row) && after.checks_out(p, row, c));
    }
    assert forall|p: Pair, c: CategoryText| #[trigger] before.judged(p, c) implies after.judged(
        p,
        c,
    ) by {
        let d = choose|d: CategoryText| #[trigger]
            before.checked(p, d) && c == after_cves(p, d, documents_in(before.cve_data));
        assert(after.checked(p, d));
    }
}

impl Categorization {
    /// Goes on as far as it gets and says what has to be done next: to compare
    /// two versions that are not compared yet, to fetch documents because
    /// something counts as missed, or nothing more.
    pub fn step(&mut self) -> (r: Action)
        requires
            old(self).wf(),
        ensures
            final(self).wf(),
            final(self).goes_on_from(*old(self)),
            match r {
                Action::Compare(a, b) => {
                    &&& !final(self).comparisons@.contains_key((a@, b@))
                    &&& final(self).wants(a@, b@)
                },
                Action::FetchCsaf(ids) => {
                    &&& final(self).stage is AwaitCsaf
                    &&& texts(ids@).no_duplicates()
                    &&& forall|id: Seq<char>| #[trigger]
                        texts(ids@).contains(id) <==> missed_by_advisory(
                            final(self).categories@,
                            id,
                        )
                },
                Action::FetchCves(ids) => {
                    &&& final(self).stage is AwaitCves
                    &&& texts(ids@).no_duplicates()
                    &&& forall|id: Seq<char>| #[trigger]
                        texts(ids@).contains(id) <==> missed_cve(final(self).categories@, id)
                },
                Action::Finish => final(self).stage is Finished,
            },
    {
        proof {
            lemma_successes_again(self.comparisons@);
        }
        if let Stage::Rows(n) = self.stage {
            if let Some((a, b)) = self.step_rows(n) {
                return Action::Compare(a, b);
            }
            let ghost before = *self;
            self.comparisons.forget_failures();
            if any_missed(&self.categories) {
                self.stage = Stage::AwaitCsaf;
                proof {
                    lemma_evidence_kept(before, *self);
                }
            } else {
                self.stage = Stage::Finished;
                proof {
                    lemma_evidence_kept(before, *self);
                    lemma_nothing_to_check(before, *self);
                }
                return Action::Finish;
            }
        }
        if let Stage::Csaf(n) = self.stage {
            if let Some((a, b)) = self.step_csaf(n) {
                return Action::Compare(a, b);
            }
            let ghost before = *self;
            self.comparisons.forget_failures();
            let more = any_missed(&self.categories);
            if more {
                self.stage = Stage::AwaitCves;
            } else {
                self.stage = Stage::Finished;
            }
            proof {
                lemma_evidence_kept(before, *self);
                lemma_all_checked(before, *self);
            }
            if !more {
                return Action::Finish;
            }
        }
        match self.stage {
            Stage::AwaitCsaf => Action::FetchCsaf(csaf_advisory_ids(&self.categories)),
            Stage::AwaitCves => Action::FetchCves(cve_ids_to_check(&self.categories)),
            _ => Action::Finish,
        }
    }

    /// Takes in the CSAF documents that could be fetched.
    pub fn csaf_fetched(&mut self, documents: StrMap<Json>)
        requires
            old(self).wf(),
            old(self).stage is AwaitCsaf,
        ensures
            final(self).wf(),
            final(self).stage == Stage::Csaf(0),
            final(self).csaf_data == Some(documents),
            final(self).gaps == old(self).gaps,
            final(self).purl_advisories == old(self).purl_advisories,
            final(self).adv_data == old(self).adv_data,
            final(self).cve_data == old(self).cve_data,
            final(self).categories == old(self).categories,
            final(self).comparisons == old(self).comparisons,
            final(self).history == old(self).history,
    {
        let ghost before = *self;
        let n = self.categories.len();
        self.csaf_data = Some(documents);
        self.stage = Stage::Csaf(0);
        proof {
            let keys = self.categories.keys();
            assert forall|j: int| 0 <= j < n implies self.rowed(
                #[trigger] keys[j],
                self.categories@[keys[j]]@,
            ) by {
                assert(keys.to_set().contains(keys[j]));
                assert(before.categories@.contains_key(keys[j]));
                assert(before.rowed(keys[j], before.categories@[keys[j]]@));
                lemma_rowed_again(before, *self, keys[j], self.categories@[keys[j]]@);
            }
        }
    }

    /// Takes in the records of CVEs that could be fetched.
    pub fn cves_fetched(&mut self, documents: StrMap<Json>)
        requires
            old(self).wf(),
            old(self).stage is AwaitCves,
        ensures
            final(self).wf(),
            final(self).stage is Finished,
            final(self).cve_data == Some(documents),
            final(self).gaps == old(self).gaps,
            final(self).purl_advisories == old(self).purl_advisories,
            final(self).adv_data == old(self).adv_data,
            final(self).csaf_data == old(self).csaf_data,
            final(self).comparisons == old(self).comparisons,
            final(self).history == old(self).history,
            final(self).categories@.dom() == old(self).categories@.dom(),
            forall|p: Pair| #[trigger]
                old(self).categories@.contains_key(p) ==> final(self).categories@[p]@
                    == withdrawn_revised(p, old(self).categories@[p]@, documents@),
    {
        let ghost before = *self;
        apply_withdrawn(&mut self.categories, &documents);
        self.cve_data = Some(documents);
        self.stage = Stage::Finished;
        proof {
            assert forall|p: Pair| #[trigger] self.categories@.contains_key(p) implies self.judged(
                p,
                self.categories@[p]@,
            ) by {
                let d = before.categories@[p]@;
                assert(before.categories@.contains_key(p));
                assert(before.checked(p, d));
                lemma_checked_again(before, *self, p, d);
            }
            assert(self.covers(self.gaps@.len() as int));
        }
    }
}

proof fn lemma_rowed_again(before: Categorization, after: Categorization, p: Pair, c: CategoryText)
    requires
        before.rowed(p, c),
        after.purl_advisories == before.purl_advisories,
        after.adv_data == before.adv_data,
        after.history == before.history,
    ensures
        after.rowed(p, c),
{
    let t = choose|t: Order| #[trigger]
        was_said(t, before.history@) && pair_category(
            p,
            before.purl_advisories@,
            before.adv_data@,
            t,
        ) == Answer::Known(c);
    assert(was_said(t, after.history@));
}

proof fn lemma_checked_again(
    before: Categorization,
    after: Categorization,
    p: Pair,
    c: CategoryText,
)
    requires
        before.checked(p, c),
        after.purl_advisories == before.purl_advisories,
        after.adv_data == before.adv_data,
        after.csaf_data == before.csaf_data,
        after.history == before.history,
    ensures
        after.checked(p, c),
{
    let row = choose|row: CategoryText| #[trigger]
        before.rowed(p, row) && before.checks_out(p, row, c);
    lemma_rowed_again(before, after, p, row);
    let t = choose|t: Order| #[trigger]
        was_said(t, before.history@) && after_csaf(
            p,
            row,
            documents_in(before.csaf_data),
            t,
        ) == Answer::Known(c);
    assert(was_said(t, after.history@));
    assert(after.checks_out(p, row, c));
}

/// Where nothing is missed, what the advisories say is final.
proof fn lemma_nothing_to_check(before: Categorization, after: Categorization)
    requires
        before.wf(),
        before.stage == Stage::Rows(before.gaps.len()),
        after.same_inputs(before),
        after.categories == before.categories,
        after.history == before.history,
        after.csaf_data is None,
        after.cve_data is None,
    ensures
        forall|p: Pair| #[trigger]
            after.categories@.contains_key(p) ==> after.judged(p, after.categories@[p]@),
{
    assert forall|p: Pair| #[trigger] after.categories@.contains_key(p) implies after.judged(
        p,
        after.categories@[p]@,
    ) by {
        let c = after.categories@[p]@;
        assert(before.categories@.contains_key(p));
        lemma_rowed_again(before, after, p, c);
        let t = Map::<Pair, Option<i32>>::empty();
        assert(was_said(t, after.history@));
        assert(after.checks_out(p, c, c));
        assert(after.checked(p, c));
    }
}

/// When the last category is checked, all are.
proof fn lemma_all_checked(before: Categorization, after: Categorization)
    requires
        before.wf(),
        before.stage matches Stage::Csaf(done) && done == before.categories.keys().len(),
        before.categories.coherent(),
        after.same_inputs(before),
        after.categories == before.categories,
        after.history == before.history,
        after.cve_data is None,
    ensures
        forall|p: Pair| #[trigger]
            after.categories@.contains_key(p) ==> after.checked(p, after.categories@[p]@)
                && after.judged(p, after.categories@[p]@),
{
    assert forall|p: Pair| #[trigger] after.categories@.contains_key(p) implies after.checked(
        p,
        after.categories@[p]@,
    ) && after.judged(p, after.categories@[p]@) by {
        let keys = before.categories.keys();
        assert(keys.to_set().contains(p));
        let j = choose|j: int| 0 <= j < keys.len() && keys[j] == p;
        assert(before.checked(
            before.categories.keys()[j],
            before.categories@[before.categories.keys()[j]]@,
        ));
        lemma_checked_again(before, after, p, after.categories@[p]@);
        assert(after_cves(p, after.categories@[p]@, documents_in(after.cve_data))
            == after.categories@[p]@);
    }
}

/// Whether no comparison ever said two things.
pub open spec fn is_consistent(history: History) -> bool {
    forall|p: Pair, x: Option<i32>, y: Option<i32>| #[trigger]
        history.contains((p, x)) && #[trigger] history.contains((p, y)) ==> x == y
}

proof fn lemma_one_table(t: Order, u: Order, history: History) -> (both: Order)
    requires
        is_consistent(history),
        was_said(t, history),
        was_said(u, history),
    ensures
        extends(t, both),
        extends(u, both),
{
    let both = t.union_prefer_right(u);
    assert forall|p: Pair| #[trigger] t.contains_key(p) implies both.contains_key(p) && both[p]
        == t[p] by {
        if u.contains_key(p) {
            assert(history.contains((p, t[p])) && history.contains((p, u[p])));
        }
    }
    both
}

/// Whether two categorizations go by the same advisories, and comparing the same
/// versions said the same in both.
pub open spec fn same_advisories(a: Categorization, b: Categorization) -> bool {
    &&& a.purl_advisories@ == b.purl_advisories@
    &&& a.adv_data@ == b.adv_data@
    &&& is_consistent(a.history@.union(b.history@))
}

proof fn lemma_rows_agree(
    a: Categorization,
    b: Categorization,
    p: Pair,
    c: CategoryText,
    d: CategoryText,
)
    requires
        same_advisories(a, b),
        a.rowed(p, c),
        b.rowed(p, d),
    ensures
        c == d,
{
    let adv = a.purl_advisories@;
    let data = a.adv_data@;
    let t = choose|t: Order| #[trigger]
        was_said(t, a.history@) && pair_category(p, adv, data, t) == Answer::Known(c);
    let u = choose|t: Order| #[trigger]
        was_said(t, b.history@) && pair_category(p, adv, data, t) == Answer::Known(d);
    let both = lemma_one_table(t, u, a.history@.union(b.history@));
    law_row_category_settles(p.0, p.1, adv, data, t, both);
    law_row_category_settles(p.0, p.1, adv, data, u, both);
}

proof fn lemma_checks_agree(
    a: Categorization,
    b: Categorization,
    p: Pair,
    row: CategoryText,
    c: CategoryText,
    d: CategoryText,
)
    requires
        same_advisories(a, b),
        documents_in(a.csaf_data) == documents_in(b.csaf_data),
        a.checks_out(p, row, c),
        b.checks_out(p, row, d),
    ensures
        c == d,
{
    let csaf = documents_in(a.csaf_data);
    let t = choose|t: Order| #[trigger]
        was_said(t, a.history@) && after_csaf(p, row, csaf, t) == Answer::Known(c);
    let u = choose|t: Order| #[trigger]
        was_said(t, b.history@) && after_csaf(p, row, csaf, t) == Answer::Known(d);
    let both = lemma_one_table(t, u, a.history@.union(b.history@));
    if let Some(csaf) = csaf {
        law_csaf_revised_settles(p, row, csaf, t, both);
        law_csaf_revised_settles(p, row, csaf, u, both);
    }
}

/// As long as comparing the same versions says the same, there is one category
/// that all the evidence makes of a pair, in whatever order it came in.
pub proof fn law_evidence_decides(run: Categorization, p: Pair, c: CategoryText, d: CategoryText)
    requires
        is_consistent(run.history@),
        run.judged(p, c),
        run.judged(p, d),
    ensures
        c == d,
{
    let cves = documents_in(run.cve_data);
    let c1 = choose|e: CategoryText| #[trigger] run.checked(p, e) && c == after_cves(p, e, cves);
    let d1 = choose|e: CategoryText| #[trigger] run.checked(p, e) && d == after_cves(p, e, cves);
    let c0 = choose|row: CategoryText| #[trigger]
        run.rowed(p, row) && run.checks_out(p, row, c1);
    let d0 = choose|row: CategoryText| #[trigger]
        run.rowed(p, row) && run.checks_out(p, row, d1);
    assert(run.history@.union(run.history@) =~= run.history@);
    lemma_rows_agree(run, run, p, c0, d0);
    lemma_checks_agree(run, run, p, c0, c1, d1);
}

/// Whether two sets of documents are the same, as far as both were fetched.
pub open spec fn same_documents(a: Option<StrMap<Json>>, b: Option<StrMap<Json>>) -> bool {
    a is Some && b is Some ==> documents_in(a) == documents_in(b)
}

/// Whether two categorizations have the same evidence: the same advisories, the
/// same documents where both asked for them, and comparisons that say the same.
pub open spec fn same_evidence(a: Categorization, b: Categorization) -> bool {
    &&& same_advisories(a, b)
    &&& same_documents(a.csaf_data, b.csaf_data)
    &&& same_documents(a.cve_data, b.cve_data)
}

proof fn lemma_judged_alike(a: Categorization, b: Categorization, p: Pair)
    requires
        a.wf() && a.stage is Finished && a.categories@.contains_key(p),
        b.wf() && b.stage is Finished && b.categories@.contains_key(p),
        same_evidence(a, b),
    ensures
        a.categories@[p]@ == b.categories@[p]@,
{
    let c = a.categories@[p]@;
    let d = b.categories@[p]@;
    assert(a.judged(p, c) && b.judged(p, d));
    let c1 = choose|e: CategoryText| #[trigger]
        a.checked(p, e) && c == after_cves(p, e, documents_in(a.cve_data));
    let d1 = choose|e: CategoryText| #[trigger]
        b.checked(p, e) && d == after_cves(p, e, documents_in(b.cve_data));
    let c0 = choose|row: CategoryText| #[trigger] a.rowed(p, row) && a.checks_out(p, row, c1);
    let d0 = choose|row: CategoryText| #[trigger] b.rowed(p, row) && b.checks_out(p, row, d1);
    lemma_rows_agree(a, b, p, c0, d0);
    assert(!missed(a.categories@, p) || a.csaf_data is Some && a.cve_data is Some);
    assert(!missed(b.categories@, p) || b.csaf_data is Some && b.cve_data is Some);
    if a.csaf_data is Some && b.csaf_data is Some {
        lemma_checks_agree(a, b, p, c0, c1, d1);
    }
}

/// Two finished categorizations of the same gaps with the same evidence give the
/// same pairs the same categories.
pub proof fn law_same_evidence_same_categories(a: Categorization, b: Categorization)
    requires
        a.wf() && a.stage is Finished,
        b.wf() && b.stage is Finished,
        gap_texts(a.gaps@) == gap_texts(b.gaps@),
        same_evidence(a, b),
    ensures
        a.categories@.dom() == b.categories@.dom(),
        forall|p: Pair| #[trigger]
            a.categories@.contains_key(p) ==> a.categories@[p]@ == b.categories@[p]@,
{
    let n = a.gaps@.len() as int;
    assert(gap_texts(a.gaps@).len() == n && gap_texts(b.gaps@).len() == b.gaps@.len());
    assert forall|i: int| 0 <= i < n implies gap_key(#[trigger] a.gaps@[i]@) == gap_key(
        b.gaps@[i]@,
    ) by {
        assert(gap_texts(a.gaps@)[i] == a.gaps@[i]@ && gap_texts(b.gaps@)[i] == b.gaps@[i]@);
    }
    assert forall|p: Pair| #[trigger]
        a.categories@.contains_key(p) <==> b.categories@.contains_key(p) by {
        assert(a.covers(n) && b.covers(n));
        if a.categories@.contains_key(p) {
            let i = choose|i: int| 0 <= i < n && gap_key(#[trigger] a.gaps@[i]@) == p;
            assert(gap_key(b.gaps@[i]@) == p);
        }
        if b.categories@.contains_key(p) {
            let i = choose|i: int| 0 <= i < n && gap_key(#[trigger] b.gaps@[i]@) == p;
            assert(gap_key(a.gaps@[i]@) == p);
        }
    }
    assert(a.categories@.dom() =~= b.categories@.dom());
    assert forall|p: Pair| #[trigger] a.categories@.contains_key(p) implies a.categories@[p]@
        == b.categories@[p]@ by {
        lemma_judged_alike(a, b, p);
    }
}

/// What all the evidence makes of a pair is one of the findings, with the verdict
/// on it and the advisory of Red Hat's that it is from; there is no advisory
/// where nothing is known.
pub proof fn law_judged_is_a_finding(run: Categorization, p: Pair, c: CategoryText)
    requires
        run.judged(p, c),
    ensures
        is_finding(c.finding),
        c.verdict == verdict_on(c.finding),
        c.matched_advisory.len() == 0 || redhat_advisory(c.matched_advisory),
        c.finding == FINDING_UNKNOWN@ ==> c.matched_advisory.len() == 0,
{
    let d = choose|d: CategoryText| #[trigger]
        run.checked(p, d) && c == after_cves(p, d, documents_in(run.cve_data));
    let row = choose|row: CategoryText| #[trigger] run.rowed(p, row) && run.checks_out(p, row, d);
    let t = choose|t: Order| #[trigger]
        was_said(t, run.history@) && pair_category(
            p,
            run.purl_advisories@,
            run.adv_data@,
            t,
        ) == Answer::Known(row);
    law_matched_advisory_is_red_hat(p.0, p.1, run.purl_advisories@, run.adv_data@, t);
    law_verdict_follows_finding(FINDING_UNKNOWN@);
    let u = choose|t: Order| #[trigger]
        was_said(t, run.history@) && after_csaf(p, row, documents_in(run.csaf_data), t)
            == Answer::Known(d);
    if let Some(csaf) = documents_in(run.csaf_data) {
        if let Some(package) = package_of(p.0) {
            law_csaf_gives_a_finding(package, p.1, document(csaf, row.matched_advisory), u);
        }
    }
}

/// When all is done, each gap has the category that all the evidence makes of it,
/// and whatever still counts as missed was held against its CSAF document and
/// the record of its CVE.
pub proof fn law_finished_gaps_are_judged(run: Categorization, i: int)
    requires
        run.wf(),
        run.stage is Finished,
        0 <= i < run.gaps@.len(),
    ensures
        run.categories@.contains_key(gap_key(run.gaps@[i]@)),
        run.judged(gap_key(run.gaps@[i]@), run.categories@[gap_key(run.gaps@[i]@)]@),
        missed(run.categories@, gap_key(run.gaps@[i]@)) ==> run.csaf_data is Some
            && run.cve_data is Some,
{
    let p = gap_key(run.gaps@[i]@);
    assert(run.covers(run.gaps@.len() as int));
    assert(run.categories@.contains_key(p));
}

/// Whether a comparison was made that said so.
pub open spec fn all_said(t: Order, run: Categorization) -> bool {
    forall|q: Pair| #[trigger] t.contains_key(q) ==> run.history@.contains((q, t[q]))
}

/// When all is done, the category of each gap is what the package's advisories say,
/// held against the CSAF document where there are any, and then against the record
/// of the CVE, by comparisons that were made.
pub proof fn law_finished_category(run: Categorization, i: int)
    requires
        run.wf(),
        run.stage is Finished,
        0 <= i < run.gaps@.len(),
    ensures
        ({
            let p = (or_empty(string_in(run.gaps@[i].purl)), or_empty(
                string_in(run.gaps@[i].cve_id),
            ));
            run.categories@.contains_key(p) && exists|
                t: Order,
                u: Order,
                row: CategoryText,
                d: CategoryText,
            |
                #![trigger row_category(p.0, p.1, run.purl_advisories@, run.adv_data@, t),
                    after_csaf(p, row, documents_in(run.csaf_data), u),
                    after_cves(p, d, documents_in(run.cve_data))]
                all_said(t, run) && all_said(u, run) && row_category(
                    p.0,
                    p.1,
                    run.purl_advisories@,
                    run.adv_data@,
                    t,
                ) == Answer::Known(row) && after_csaf(p, row, documents_in(run.csaf_data), u)
                    == Answer::Known(d) && run.categories@[p]@ == after_cves(
                    p,
                    d,
                    documents_in(run.cve_data),
                )
        }),
{
    let p = gap_key(run.gaps@[i]@);
    law_finished_gaps_are_judged(run, i);
    let c = run.categories@[p]@;
    let d = choose|d: CategoryText| #[trigger]
        run.checked(p, d) && c == after_cves(p, d, documents_in(run.cve_data));
    let row = choose|row: CategoryText| #[trigger] run.rowed(p, row) && run.checks_out(p, row, d);
    let t = choose|t: Order| #[trigger]
        was_said(t, run.history@) && pair_category(
            p,
            run.purl_advisories@,
            run.adv_data@,
            t,
        ) == Answer::Known(row);
    let u = choose|t: Order| #[trigger]
        was_said(t, run.history@) && after_csaf(p, row, documents_in(run.csaf_data), t)
            == Answer::Known(d);
    assert(all_said(t, run) && all_said(u, run));
    assert(row_category(p.0, p.1, run.purl_advisories@, run.adv_data@, t) == Answer::Known(row));
}

/// Documents that were fetched are held against the categories; where none were
/// fetched a category stays as it is.
pub proof fn law_fetched_documents_count(
    p: Pair,
    c: CategoryText,
    documents: Map<Seq<char>, Json>,
    t: Order,
)
    ensures
        after_csaf(p, c, Some(documents), t) == csaf_revised(p, c, documents, t),
        after_csaf(p, c, None, t) == Answer::Known(c),
        after_cves(p, c, Some(documents)) == withdrawn_revised(p, c, documents),
        after_cves(p, c, None) == c,
{
}

/// When all is done, only gaps have a category, and what is still missed was held
/// against its CSAF document and the record of its CVE.
pub proof fn law_finished_run(run: Categorization, p: Pair)
    requires
        run.wf(),
        run.stage is Finished,
    ensures
        run.categories@.contains_key(p) <==> exists|i: int|
            0 <= i < run.gaps@.len() && or_empty(string_in((#[trigger] run.gaps@[i]).purl)) == p.0
                && or_empty(string_in(run.gaps@[i].cve_id)) == p.1,
        run.categories@.contains_key(p) && run.categories@[p].finding@ == "TPA_MISS"@
            ==> run.csaf_data is Some && run.cve_data is Some,
{
    assert(run.covers(run.gaps@.len() as int));
    if run.categories@.contains_key(p) {
        let i = choose|i: int|
            0 <= i < run.gaps@.len() && gap_key(#[trigger] run.gaps@[i]@) == p;
        assert(or_empty(string_in(run.gaps@[i].purl)) == p.0);
        assert(missed(run.categories@, p) || run.categories@[p].finding@ != "TPA_MISS"@);
    }
    if exists|i: int|
        0 <= i < run.gaps@.len() && or_empty(string_in((#[trigger] run.gaps@[i]).purl)) == p.0
            && or_empty(string_in(run.gaps@[i].cve_id)) == p.1 {
        let i = choose|i: int|
            0 <= i < run.gaps@.len() && or_empty(string_in((#[trigger] run.gaps@[i]).purl)) == p.0
                && or_empty(string_in(run.gaps@[i].cve_id)) == p.1;
        assert(gap_key(run.gaps@[i]@) == p);
    }
}

/// On its way the categorization loses nothing: a comparison that succeeded stays, one
/// that failed stays as long as the categorization stays where it is, every pair that
/// has a category keeps one, and the inputs and the history are the same. While nothing
/// is being checked against documents, the categories stay what they are.
pub proof fn law_nothing_is_lost(
    later: Categorization,
    earlier: Categorization,
    a: Seq<char>,
    b: Seq<char>,
    p: Pair,
)
    requires
        later.goes_on_from(earlier),
    ensures
        earlier.comparisons@.contains_key((a, b)) && earlier.comparisons@[(a, b)] is Some
            ==> later.comparisons@.contains_key((a, b)) && later.comparisons@[(a, b)]
            == earlier.comparisons@[(a, b)],
        earlier.comparisons@.contains_key((a, b)) && later.stage == earlier.stage
            && later.categories.keys() == earlier.categories.keys()
            ==> later.comparisons@.contains_key((a, b)) && later.comparisons@[(a, b)]
            == earlier.comparisons@[(a, b)],
        later.comparisons@.contains_key((a, b)) ==> earlier.comparisons@.contains_key((a, b)),
        later.gaps@ == earlier.gaps@,
        earlier.categories@.contains_key(p) ==> later.categories@.contains_key(p),
        earlier.categories@.contains_key(p) && !(earlier.stage is Csaf) ==> later.categories@[p]
            == earlier.categories@[p],
{
}

} // verus!
