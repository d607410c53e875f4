//! Asking OSV for all packages: chunk by chunk, and page by page.

use vstd::prelude::*;
use vstd::string::*;

use crate::chunks::{chunks_of, law_chunks_are_the_list, split_into_chunks, text_lists};
use crate::lists::lemma_add_contains;
use crate::osv::{
    build_osv_querybatch_request, id_texts, no_vulns, queries, query_texts, strings_in,
    OsvQuerybatchRequest, OsvQuerybatchResponse, OsvVulns, VulnIdText, VulnsText,
};
use crate::text::{copy_string, decimal, decimal_text, texts};

verus! {

/// How many packages are asked for in one request.
pub const OSV_QUERYBATCH_CHUNK_SIZE: usize = 100;

/// Where OSV answers batches of queries.
pub const OSV_QUERYBATCH_URL: &'static str = "https://api.osv.dev/v1/querybatch";

/// The chunks in which OSV is asked.
pub fn osv_chunks(purls: &Vec<String>) -> (r: Vec<Vec<String>>)
    ensures
        text_lists(r@) == chunks_of(texts(purls@), OSV_QUERYBATCH_CHUNK_SIZE as int),
        text_lists(r@) == chunks_of(texts(purls@), 100),
{
    split_into_chunks(purls, OSV_QUERYBATCH_CHUNK_SIZE)
}

/// The answers of a list, as texts.
pub open spec fn answer_texts(v: Seq<OsvVulns>) -> Seq<VulnsText> {
    v.map_values(|x: OsvVulns| x@)
}

/// What is known of the packages of a chunk after some pages: for each the
/// advisories so far, and the token of the page that is due.
pub struct Pages {
    pub vulns: Seq<Seq<VulnIdText>>,
    pub tokens: Seq<Option<Seq<char>>>,
}

/// A chunk of which nothing is known yet.
pub open spec fn no_pages(n: nat) -> Pages {
    Pages {
        vulns: Seq::new(n, |i: int| Seq::empty()),
        tokens: Seq::new(n, |i: int| None),
    }
}

/// What is known after one more page: its advisories come behind those that were
/// there, and its tokens stand in place of the old ones.
pub open spec fn turned(pages: Pages, results: Seq<VulnsText>) -> Pages {
    Pages {
        vulns: Seq::new(
            pages.vulns.len(),
            |i: int| pages.vulns[i] + results[i].vulns,
        ),
        tokens: Seq::new(pages.vulns.len(), |i: int| results[i].next_page_token),
    }
}

/// Whether some answer has a further page.
pub open spec fn more_due(results: Seq<VulnsText>) -> bool {
    exists|i: int| 0 <= i < results.len() && (#[trigger] results[i]).next_page_token is Some
}

/// What is said of an answer with the wrong number of results.
pub open spec fn wrong_number(results: nat, asked: nat) -> Seq<char> {
    "OSV querybatch returned "@ + decimal(results) + " results for "@ + decimal(asked)
        + " queries"@
}

fn wrong_number_text(results: usize, asked: usize) -> (r: String)
    ensures
        r@ == wrong_number(results as nat, asked as nat),
{
    let mut r = "OSV querybatch returned ".to_owned();
    r.append(decimal_text(results).as_str());
    r.append(" results for ");
    r.append(decimal_text(asked).as_str());
    r.append(" queries");
    r
}

/// The advisories for the packages of a chunk, as the pages come in.
pub struct Paging {
    entries: Vec<OsvVulns>,
}

impl View for Paging {
    type V = Pages;

    closed spec fn view(&self) -> Pages {
        Pages {
            vulns: self.entries@.map_values(|x: OsvVulns| x@.vulns),
            tokens: self.entries@.map_values(|x: OsvVulns| x@.next_page_token),
        }
    }
}

impl Paging {
    /// A chunk of `n` packages, before the first page.
    pub fn new(n: usize) -> (r: Self)
        ensures
            r@ == no_pages(n as nat),
    {
        let mut entries: Vec<OsvVulns> = Vec::new();
        for i in 0..n
            invariant
                entries@.len() == i,
                forall|j: int| 0 <= j < i ==> (#[trigger] entries@[j])@ == no_vulns(),
        {
            entries.push(OsvVulns::default());
        }
        let r = Paging { entries };
        assert(r@.vulns =~= no_pages(n as nat).vulns);
        assert(r@.tokens =~= no_pages(n as nat).tokens);
        r
    }

    /// The queries for the pages that are due.
    pub fn request(&self, purls: &Vec<String>) -> (r: OsvQuerybatchRequest)
        ensures
            query_texts(r.queries@) == queries(texts(purls@), self@.tokens),
    {
        let mut tokens: Vec<Option<String>> = Vec::new();
        for i in 0..self.entries.len()
            invariant
                strings_in(tokens@) == self@.tokens.take(i as int),
        {
            let ghost before = tokens@;
            tokens.push(copy_string(&self.entries[i].next_page_token));
            assert(strings_in(tokens@) =~= strings_in(before).push(self@.tokens[i as int]));
            assert(self@.tokens.take(i + 1) =~= self@.tokens.take(i as int).push(
                self@.tokens[i as int],
            ));
        }
        assert(self@.tokens.take(self@.tokens.len() as int) =~= self@.tokens);
        build_osv_querybatch_request(purls, Some(&tokens))
    }

    /// Takes a page in and says whether there is a further one. A page with the
    /// wrong number of answers is refused.
    pub fn absorb(&mut self, response: OsvQuerybatchResponse) -> (r: Result<bool, String>)
        ensures
            final(self)@ == (if response.results@.len() == old(self)@.vulns.len() {
                turned(old(self)@, answer_texts(response.results@))
            } else {
                old(self)@
            }),
            match r {
                Ok(more) => response.results@.len() == old(self)@.vulns.len() && more == more_due(
                    answer_texts(response.results@),
                ),
                Err(e) => response.results@.len() != old(self)@.vulns.len() && e@ == wrong_number(
                    response.results@.len(),
                    old(self)@.vulns.len(),
                ),
            },
    {
        let n = self.entries.len();
        if response.results.len() != n {
            return Err(wrong_number_text(response.results.len(), n));
        }
        let ghost given = response.results@;
        let ghost before = self.entries@;
        let mut results = response.into_results();
        let mut more_pages = false;
        for i in 0..n
            invariant
                n == before.len(),
                n == given.len(),
                n == self.entries@.len(),
                n == results@.len(),
                forall|j: int| i <= j < n ==> #[trigger] results@[j] == given[j],
                forall|j: int| i <= j < n ==> #[trigger] self.entries@[j] == before[j],
                forall|j: int|
                    0 <= j < i ==> {
                        &&& (#[trigger] self.entries@[j])@.vulns == before[j]@.vulns
                            + given[j]@.vulns
                        &&& self.entries@[j]@.next_page_token == given[j]@.next_page_token
                    },
                more_pages == exists|j: int|
                    0 <= j < i && (#[trigger] given[j])@.next_page_token is Some,
        {
            let mut result = OsvVulns::default();
            std::mem::swap(&mut result, &mut results[i]);
            let mut entry = OsvVulns::default();
            std::mem::swap(&mut entry, &mut self.entries[i]);
            assert(given[i as int] == result);
            if result.next_page_token.is_some() {
                more_pages = true;
            }
            let ghost page = result.vulns@;
            let ghost held = entry.vulns@;
            entry.vulns.append(&mut result.vulns);
            entry.next_page_token = result.next_page_token;
            assert(id_texts(entry.vulns@) =~= id_texts(held) + id_texts(page));
            self.entries.set(i, entry);
        }
        proof {
            let expected = turned(old(self)@, answer_texts(given));
            assert(self@.vulns =~= expected.vulns);
            assert(self@.tokens =~= expected.tokens);
            let answers = answer_texts(given);
            assert forall|j: int| 0 <= j < n implies (#[trigger] answers[j]) == given[j]@ by {}
            if more_pages {
                let j = choose|j: int|
                    0 <= j < n && (#[trigger] given[j])@.next_page_token is Some;
                assert(answers[j].next_page_token is Some);
            }
            if more_due(answers) {
                let j = choose|j: int|
                    0 <= j < answers.len() && (#[trigger] answers[j]).next_page_token is Some;
                assert(given[j]@.next_page_token is Some);
            }
        }
        Ok(more_pages)
    }

    /// The advisories for the packages, without tokens.
    pub fn finish(self) -> (r: Vec<OsvVulns>)
        ensures
            answer_texts(r@) == finished(self@),
    {
        let ghost full = finished(self@);
        let ghost given = self.entries@;
        let mut entries = self.entries;
        let n = entries.len();
        for i in 0..n
            invariant
                n == given.len(),
                n == entries@.len(),
                forall|j: int| i <= j < n ==> #[trigger] entries@[j] == given[j],
                forall|j: int|
                    0 <= j < i ==> {
                        &&& (#[trigger] entries@[j])@.vulns == given[j]@.vulns
                        &&& entries@[j]@.next_page_token is None
                    },
        {
            let mut entry = OsvVulns::default();
            std::mem::swap(&mut entry, &mut entries[i]);
            entry.next_page_token = None;
            entries.set(i, entry);
        }
        assert(answer_texts(entries@) =~= full);
        entries
    }
}

/// The answers for the packages of a chunk after all pages.
pub open spec fn finished(pages: Pages) -> Seq<VulnsText> {
    pages.vulns.map_values(
        |vulns: Seq<VulnIdText>| VulnsText { vulns, next_page_token: None },
    )
}

/// What is known after some pages.
pub open spec fn after_pages(n: nat, pages: Seq<Seq<VulnsText>>) -> Pages
    decreases pages.len(),
{
    if pages.len() == 0 {
        no_pages(n)
    } else {
        turned(after_pages(n, pages.drop_last()), pages.last())
    }
}

/// The advisories that the pages name for the `i`-th package, page after page.
pub open spec fn named_on(pages: Seq<Seq<VulnsText>>, i: int) -> Seq<VulnIdText>
    decreases pages.len(),
{
    if pages.len() == 0 {
        Seq::empty()
    } else {
        named_on(pages.drop_last(), i) + pages.last()[i].vulns
    }
}

/// After all pages, each package has the advisories that the pages name for it,
/// in their order, and none of another.
pub proof fn law_pages_add_up(n: nat, pages: Seq<Seq<VulnsText>>, i: int)
    requires
        0 <= i < n,
    ensures
        after_pages(n, pages).vulns.len() == n,
        after_pages(n, pages).vulns[i] == named_on(pages, i),
    decreases pages.len(),
{
    if pages.len() > 0 {
        law_pages_add_up(n, pages.drop_last(), i);
    }
}

/// An answer for each package of a chunk that says nothing.
pub open spec fn blank_answers(n: nat) -> Seq<VulnsText> {
    Seq::new(n, |i: int| no_vulns())
}

/// The answers for the packages of a chunk: those that came, or blank ones where
/// the chunk failed.
pub open spec fn answers_for(chunk: Seq<Seq<char>>, result: Option<Seq<VulnsText>>) -> Seq<
    VulnsText,
> {
    match result {
        Some(answers) => answers,
        None => blank_answers(chunk.len()),
    }
}

/// The answers for all packages, chunk after chunk.
pub open spec fn merged(
    chunks: Seq<Seq<Seq<char>>>,
    results: Seq<Option<Seq<VulnsText>>>,
) -> Seq<VulnsText>
    decreases chunks.len(),
{
    if chunks.len() == 0 {
        Seq::empty()
    } else {
        answers_for(chunks[0], results[0]) + merged(chunks.drop_first(), results.drop_first())
    }
}

/// The results of chunks, as texts.
pub open spec fn result_texts(v: Seq<Option<Vec<OsvVulns>>>) -> Seq<Option<Seq<VulnsText>>> {
    v.map_values(
        |r: Option<Vec<OsvVulns>>|
            match r {
                Some(answers) => Some(answer_texts(answers@)),
                None => None,
            },
    )
}

/// How many of the results are failures.
pub open spec fn failures(results: Seq<Option<Seq<VulnsText>>>) -> nat
    decreases results.len(),
{
    if results.len() == 0 {
        0
    } else {
        failures(results.drop_last()) + if results.last() is None {
            1nat
        } else {
            0
        }
    }
}

/// The answers for all packages, and the number of chunks that failed: those
/// have blank answers.
pub fn merge_chunk_results(chunks: &Vec<Vec<String>>, results: Vec<Option<Vec<OsvVulns>>>) -> (r: (
    Vec<OsvVulns>,
    usize,
))
    requires
        results@.len() == chunks@.len(),
    ensures
        answer_texts(r.0@) == merged(text_lists(chunks@), result_texts(results@)),
        r.1 == failures(result_texts(results@)),
{
    let ghost cs = text_lists(chunks@);
    let ghost rs = result_texts(results@);
    let ghost given = results@;
    let n = chunks.len();
    let mut results = results;
    let mut all: Vec<OsvVulns> = Vec::new();
    let mut failed: usize = 0;
    assert(answer_texts(all@) =~= Seq::<VulnsText>::empty());
    assert(cs.skip(0) =~= cs);
    assert(rs.skip(0) =~= rs);
    assert(answer_texts(all@) + merged(cs.skip(0), rs.skip(0)) =~= merged(cs, rs));
    assert(rs.take(0).len() == 0);
    for i in 0..n
        invariant
            n == chunks@.len(),
            n == results@.len(),
            n == given.len(),
            cs == text_lists(chunks@),
            rs == result_texts(given),
            forall|j: int| i <= j < n ==> #[trigger] results@[j] == given[j],
            answer_texts(all@) + merged(cs.skip(i as int), rs.skip(i as int)) == merged(cs, rs),
            failed <= i,
            failed == failures(rs.take(i as int)),
    {
        let mut result: Option<Vec<OsvVulns>> = None;
        std::mem::swap(&mut result, &mut results[i]);
        let ghost before = all@;
        let ghost piece = answers_for(cs[i as int], rs[i as int]);
        assert(given[i as int] == result);
        proof {
            assert(rs.take(i + 1).drop_last() =~= rs.take(i as int));
            assert(cs.skip(i as int).drop_first() =~= cs.skip(i + 1));
            assert(rs.skip(i as int).drop_first() =~= rs.skip(i + 1));
        }
        match result {
            Some(answers) => {
                let mut answers = answers;
                assert(piece == answer_texts(answers@));
                let ghost came = answers@;
                all.append(&mut answers);
                assert(answer_texts(all@) =~= answer_texts(before) + answer_texts(came));
            },
            None => {
                failed += 1;
                let size = chunks[i].len();
                assert(cs[i as int].len() == size);
                for k in 0..size
                    invariant
                        answer_texts(all@) == answer_texts(before) + blank_answers(k as nat),
                {
                    let ghost held = all@;
                    let blank = OsvVulns::default();
                    all.push(blank);
                    assert(answer_texts(all@) =~= answer_texts(held).push(no_vulns()));
                    assert(blank_answers((k + 1) as nat) =~= blank_answers(k as nat).push(
                        no_vulns(),
                    ));
                }
            },
        }
        assert(answer_texts(all@) =~= answer_texts(before) + piece);
        assert(answer_texts(before) + (piece + merged(cs.skip(i + 1), rs.skip(i + 1)))
            =~= answer_texts(all@) + merged(cs.skip(i + 1), rs.skip(i + 1)));
    }
    assert(rs.take(n as int) =~= rs);
    assert(answer_texts(all@) =~= merged(cs, rs));
    (all, failed)
}

/// Where the answers for a chunk begin.
pub open spec fn chunk_start(chunks: Seq<Seq<Seq<char>>>, k: int) -> int
    decreases k,
{
    if k <= 0 || chunks.len() == 0 {
        0
    } else {
        chunks[0].len() + chunk_start(chunks.drop_first(), k - 1)
    }
}

/// Whether each chunk that did not fail has an answer for each of its packages.
pub open spec fn fully_answered(
    chunks: Seq<Seq<Seq<char>>>,
    results: Seq<Option<Seq<VulnsText>>>,
) -> bool {
    &&& results.len() == chunks.len()
    &&& forall|k: int|
        0 <= k < chunks.len() ==> (#[trigger] results[k] matches Some(answers) ==> answers.len()
            == chunks[k].len())
}

proof fn lemma_merged_in_order(
    chunks: Seq<Seq<Seq<char>>>,
    results: Seq<Option<Seq<VulnsText>>>,
    k: int,
    j: int,
)
    requires
        fully_answered(chunks, results),
    ensures
        merged(chunks, results).len() == chunks.flatten().len(),
        0 <= k < chunks.len() && 0 <= j < chunks[k].len() ==> {
            let at = chunk_start(chunks, k) + j;
            &&& 0 <= at < chunks.flatten().len()
            &&& chunks.flatten()[at] == chunks[k][j]
            &&& merged(chunks, results)[at] == answers_for(chunks[k], results[k])[j]
        },
    decreases chunks.len(),
{
    if chunks.len() > 0 {
        let cs = chunks.drop_first();
        let rs = results.drop_first();
        assert forall|m: int| 0 <= m < cs.len() implies (#[trigger] rs[m] matches Some(answers)
            ==> answers.len() == cs[m].len()) by {
            assert(results[m + 1] == rs[m]);
        }
        lemma_merged_in_order(cs, rs, k - 1, j);
        assert(chunks.flatten() == chunks[0] + cs.flatten());
        assert(answers_for(chunks[0], results[0]).len() == chunks[0].len());
        if 0 < k < chunks.len() {
            assert(cs[k - 1] == chunks[k]);
            assert(rs[k - 1] == results[k]);
        }
    }
}

/// The answers come in the order of the packages: there is one for each, and the
/// answer in a package's place is the one that its chunk got for it, or a blank
/// one where the chunk failed.
pub proof fn law_answers_match_packages(
    purls: Seq<Seq<char>>,
    results: Seq<Option<Seq<VulnsText>>>,
    k: int,
    j: int,
)
    requires
        fully_answered(chunks_of(purls, OSV_QUERYBATCH_CHUNK_SIZE as int), results),
        0 <= k < results.len(),
        0 <= j < chunks_of(purls, OSV_QUERYBATCH_CHUNK_SIZE as int)[k].len(),
    ensures
        ({
            let chunks = chunks_of(purls, OSV_QUERYBATCH_CHUNK_SIZE as int);
            let at = chunk_start(chunks, k) + j;
            &&& merged(chunks, results).len() == purls.len()
            &&& 0 <= at < purls.len()
            &&& purls[at] == chunks[k][j]
            &&& merged(chunks, results)[at] == answers_for(chunks[k], results[k])[j]
        }),
{
    law_chunks_are_the_list(purls, OSV_QUERYBATCH_CHUNK_SIZE as int);
    lemma_merged_in_order(
        chunks_of(purls, OSV_QUERYBATCH_CHUNK_SIZE as int),
        results,
        k,
        j,
    );
}

proof fn lemma_named_on(pages: Seq<Seq<VulnsText>>, i: int, vuln: VulnIdText)
    ensures
        named_on(pages, i).contains(vuln) <==> exists|k: int|
            0 <= k < pages.len() && (#[trigger] pages[k])[i].vulns.contains(vuln),
    decreases pages.len(),
{
    if pages.len() > 0 {
        let rest = pages.drop_last();
        lemma_named_on(rest, i, vuln);
        lemma_add_contains(named_on(rest, i), pages.last()[i].vulns, vuln);
        if named_on(rest, i).contains(vuln) {
            let k = choose|k: int|
                0 <= k < rest.len() && (#[trigger] rest[k])[i].vulns.contains(vuln);
            assert(pages[k][i].vulns.contains(vuln));
        }
        if exists|k: int| 0 <= k < pages.len() && (#[trigger] pages[k])[i].vulns.contains(vuln) {
            let k = choose|k: int|
                0 <= k < pages.len() && (#[trigger] pages[k])[i].vulns.contains(vuln);
            if k < rest.len() {
                assert(rest[k][i].vulns.contains(vuln));
            }
        }
    }
}

/// After all pages each package has exactly the advisories that some page names for
/// it, and no page is due.
pub proof fn law_all_pages_count(
    n: nat,
    pages: Seq<Seq<VulnsText>>,
    i: int,
    vuln: VulnIdText,
)
    requires
        0 <= i < n,
    ensures
        finished(after_pages(n, pages)).len() == n,
        finished(after_pages(n, pages))[i].next_page_token is None,
        finished(after_pages(n, pages))[i].vulns.contains(vuln) <==> exists|k: int|
            0 <= k < pages.len() && (#[trigger] pages[k])[i].vulns.contains(vuln),
{
    law_pages_add_up(n, pages, i);
    lemma_named_on(pages, i, vuln);
}

/// A page is taken in behind the ones before it, and the token that it gives is the
/// one that is asked for next; before the first page there is nothing.
pub proof fn law_pages_are_turned(
    n: nat,
    pages: Seq<Seq<VulnsText>>,
    page: Seq<VulnsText>,
    i: int,
)
    requires
        0 <= i < n,
    ensures
        after_pages(n, pages.push(page)).vulns[i] == after_pages(n, pages).vulns[i]
            + page[i].vulns,
        after_pages(n, pages.push(page)).tokens[i] == page[i].next_page_token,
        after_pages(n, Seq::empty()).vulns[i].len() == 0,
        after_pages(n, Seq::empty()).tokens[i] is None,
{
    law_pages_add_up(n, pages, i);
    assert(pages.push(page).drop_last() =~= pages);
}

/// There is a further page exactly where some answer has a token.
pub proof fn law_more_pages_are_due(results: Seq<VulnsText>, i: int)
    requires
        0 <= i < results.len(),
    ensures
        results[i].next_page_token is Some ==> more_due(results),
        (forall|j: int| 0 <= j < results.len() ==> (#[trigger] results[j]).next_page_token is None)
            ==> !more_due(results),
{
}

proof fn lemma_chunk_at(purls: Seq<Seq<char>>, size: int, k: int, j: int)
    requires
        size > 0,
        0 <= k,
        0 <= j < size,
        k * size + j < purls.len(),
    ensures
        k < chunks_of(purls, size).len(),
        j < chunks_of(purls, size)[k].len(),
        chunk_start(chunks_of(purls, size), k) == k * size,
    decreases k,
{
    if k > 0 {
        let rest = purls.skip(size);
        assert((k - 1) * size + j == k * size + j - size) by (nonlinear_arith)
            requires
                size > 0,
        ;
        assert(k * size >= size) by (nonlinear_arith)
            requires
                k >= 1,
                size > 0,
        ;
        lemma_chunk_at(rest, size, k - 1, j);
        let chunks = chunks_of(purls, size);
        assert(chunks.drop_first() =~= chunks_of(rest, size));
        assert((k - 1) * size + size == k * size) by (nonlinear_arith);
    } else {
        assert(0 * size == 0) by (nonlinear_arith);
    }
}

/// The answer for a package is the one in its place in the answers that its chunk of
/// a hundred got, or one that names nothing where the chunk failed.
pub proof fn law_answer_for_a_package(
    purls: Seq<Seq<char>>,
    results: Seq<Option<Seq<VulnsText>>>,
    n: int,
)
    requires
        fully_answered(chunks_of(purls, 100), results),
        0 <= n < purls.len(),
    ensures
        merged(chunks_of(purls, 100), results).len() == purls.len(),
        0 <= n / 100 < results.len(),
        results[n / 100] matches Some(answers) ==> merged(chunks_of(purls, 100), results)[n]
            == answers[n % 100],
        results[n / 100] is None ==> merged(chunks_of(purls, 100), results)[n].vulns.len() == 0
            && merged(chunks_of(purls, 100), results)[n].next_page_token is None,
{
    let k = n / 100;
    let j = n % 100;
    assert(k * 100 + j == n);
    lemma_chunk_at(purls, 100, k, j);
    law_answers_match_packages(purls, results, k, j);
}

/// A chunk that fails is one more failure; one that does not is none.
pub proof fn law_failures_are_counted(
    results: Seq<Option<Seq<VulnsText>>>,
    result: Option<Seq<VulnsText>>,
)
    ensures
        failures(Seq::empty()) == 0,
        failures(results.push(result)) == failures(results) + if result is None {
            1int
        } else {
            0int
        },
{
    assert(results.push(result).drop_last() =~= results);
}

/// The answers of a chunk come before those of the chunks behind it: those that it
/// got, however many, or as many blank ones as it has packages where it failed.
pub proof fn law_chunks_are_merged_in_turn(
    chunk: Seq<Seq<char>>,
    chunks: Seq<Seq<Seq<char>>>,
    result: Option<Seq<VulnsText>>,
    results: Seq<Option<Seq<VulnsText>>>,
)
    ensures
        merged(Seq::empty(), results).len() == 0,
        result matches Some(answers) ==> merged(seq![chunk] + chunks, seq![result] + results)
            == answers + merged(chunks, results),
        result is None ==> merged(seq![chunk] + chunks, seq![result] + results) == Seq::new(
            chunk.len(),
            |i: int| VulnsText { vulns: Seq::empty(), next_page_token: None },
        ) + merged(chunks, results),
{
    assert((seq![chunk] + chunks).drop_first() =~= chunks);
    assert((seq![result] + results).drop_first() =~= results);
    assert(blank_answers(chunk.len()) =~= Seq::new(
        chunk.len(),
        |i: int| VulnsText { vulns: Seq::empty(), next_page_token: None },
    ));
}

/// A page with the wrong number of answers is refused with both numbers.
pub proof fn law_wrong_number_is_told(results: nat, asked: nat)
    ensures
        wrong_number(results, asked) == "OSV querybatch returned "@ + decimal(results)
            + " results for "@ + decimal(asked) + " queries"@,
{
}

} // verus!
