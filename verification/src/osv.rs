//! What OSV is asked, and what it answers.

use vstd::prelude::*;
use vstd::std_specs::iter::IteratorSpec;
use vstd::string::*;

use crate::compare::Scored;
use crate::text::{copy_string, string_in, texts};

verus! {

/// A vulnerability that OSV knows of a package.
#[allow(non_snake_case)]
#[derive(Debug)]
pub struct OSVHeader {
    pub PURL: String,
    pub CVE_ID: String,
    pub CVSS: String,
}

impl View for OSVHeader {
    type V = Scored;

    open spec fn view(&self) -> Scored {
        Scored { purl: self.PURL@, cve_id: self.CVE_ID@, cvss: self.CVSS@ }
    }
}

/// An advisory that OSV names, and when it was last changed.
#[derive(Debug)]
pub struct OsvVulnId {
    pub id: String,
    pub modified: Option<String>,
}

/// An advisory that OSV names, as texts.
pub struct VulnIdText {
    pub id: Seq<char>,
    pub modified: Option<Seq<char>>,
}

impl View for OsvVulnId {
    type V = VulnIdText;

    open spec fn view(&self) -> VulnIdText {
        VulnIdText { id: self.id@, modified: string_in(self.modified) }
    }
}

/// The advisories that OSV names for a package, and where the next page of them
/// is found.
#[derive(Debug)]
pub struct OsvVulns {
    pub vulns: Vec<OsvVulnId>,
    pub next_page_token: Option<String>,
}

/// The advisories for a package, as texts.
pub struct VulnsText {
    pub vulns: Seq<VulnIdText>,
    pub next_page_token: Option<Seq<char>>,
}

/// The advisories of a list, as texts.
pub open spec fn id_texts(v: Seq<OsvVulnId>) -> Seq<VulnIdText> {
    v.map_values(|x: OsvVulnId| x@)
}

impl View for OsvVulns {
    type V = VulnsText;

    open spec fn view(&self) -> VulnsText {
        VulnsText {
            vulns: id_texts(self.vulns@),
            next_page_token: string_in(self.next_page_token),
        }
    }
}

/// What is said of a package of which nothing is said.
pub open spec fn no_vulns() -> VulnsText {
    VulnsText { vulns: Seq::empty(), next_page_token: None }
}

impl Default for OsvVulns {
    fn default() -> (r: Self)
        ensures
            r@ == no_vulns(),
    {
        let r = OsvVulns { vulns: Vec::new(), next_page_token: None };
        assert(r@.vulns =~= Seq::<VulnIdText>::empty());
        r
    }
}

impl OsvVulns {
    /// The advisories, one after the other.
    pub fn iter_vulns(&self) -> (r: std::slice::Iter<'_, OsvVulnId>)
        ensures
            r.remaining() == self.vulns@.as_ref(),
    {
        self.vulns.iter()
    }
}

/// The answers to the queries of a batch.
#[derive(Debug)]
pub struct OsvQuerybatchResponse {
    pub results: Vec<OsvVulns>,
}

impl OsvQuerybatchResponse {
    /// The answers, one after the other.
    pub fn iter_results(&self) -> (r: std::slice::Iter<'_, OsvVulns>)
        ensures
            r.remaining() == self.results@.as_ref(),
    {
        self.results.iter()
    }

    /// The answers.
    pub fn into_results(self) -> (r: Vec<OsvVulns>)
        ensures
            r == self.results,
    {
        self.results
    }
}

/// The package that a query is about.
#[derive(Debug)]
pub struct OsvQueryPackage {
    pub purl: String,
}

/// A query, for the first page or for the one behind a token.
#[derive(Debug)]
pub struct OsvQueryItem {
    pub package: OsvQueryPackage,
    pub page_token: Option<String>,
}

/// A batch of queries.
#[derive(Debug)]
pub struct OsvQuerybatchRequest {
    pub queries: Vec<OsvQueryItem>,
}

impl View for OsvQueryItem {
    type V = (Seq<char>, Option<Seq<char>>);

    open spec fn view(&self) -> (Seq<char>, Option<Seq<char>>) {
        (self.package.purl@, string_in(self.page_token))
    }
}

/// The queries of a list, as texts.
pub open spec fn query_texts(v: Seq<OsvQueryItem>) -> Seq<(Seq<char>, Option<Seq<char>>)> {
    v.map_values(|q: OsvQueryItem| q@)
}

/// The texts of a list that may be there.
pub open spec fn strings_in(v: Seq<Option<String>>) -> Seq<Option<Seq<char>>> {
    v.map_values(|s: Option<String>| string_in(s))
}

/// The queries for packages: for each the page that its token stands for, the
/// first where there is no token.
pub open spec fn queries(purls: Seq<Seq<char>>, tokens: Seq<Option<Seq<char>>>) -> Seq<
    (Seq<char>, Option<Seq<char>>),
> {
    Seq::new(
        purls.len(),
        |i: int|
            (
                purls[i],
                if i < tokens.len() {
                    tokens[i]
                } else {
                    None
                },
            ),
    )
}

/// The queries for packages.
pub fn build_osv_querybatch_request(
    purls: &Vec<String>,
    page_tokens: Option<&Vec<Option<String>>>,
) -> (r: OsvQuerybatchRequest)
    ensures
        query_texts(r.queries@) == queries(
            texts(purls@),
            match page_tokens {
                Some(tokens) => strings_in(tokens@),
                None => Seq::empty(),
            },
        ),
{
    let ghost tokens = match page_tokens {
        Some(tokens) => strings_in(tokens@),
        None => Seq::empty(),
    };
    let ghost full = queries(texts(purls@), tokens);
    let mut items: Vec<OsvQueryItem> = Vec::new();
    for i in 0..purls.len()
        invariant
            tokens == (match page_tokens {
                Some(tokens) => strings_in(tokens@),
                None => Seq::empty(),
            }),
            full == queries(texts(purls@), tokens),
            query_texts(items@) == full.take(i as int),
    {
        let ghost before = items@;
        let page_token = match page_tokens {
            Some(tokens) => if i < tokens.len() {
                assert(strings_in(tokens@)[i as int] == string_in(tokens@[i as int]));
                copy_string(&tokens[i])
            } else {
                None
            },
            None => None,
        };
        items.push(OsvQueryItem { package: OsvQueryPackage { purl: purls[i].clone() }, page_token });
        assert(query_texts(items@) =~= query_texts(before).push(full[i as int]));
        assert(full.take(i + 1) =~= full.take(i as int).push(full[i as int]));
    }
    assert(full.take(full.len() as int) =~= full);
    OsvQuerybatchRequest { queries: items }
}

/// There is a query for each package, in their order, with the token that is in its
/// place, and without one where there is none.
pub proof fn law_one_query_per_package(
    asked: Seq<OsvQueryItem>,
    purls: Seq<Seq<char>>,
    tokens: Seq<Option<Seq<char>>>,
    i: int,
)
    requires
        query_texts(asked) == queries(purls, tokens),
        0 <= i < purls.len(),
    ensures
        asked.len() == purls.len(),
        asked[i].package.purl@ == purls[i],
        i < tokens.len() ==> string_in(asked[i].page_token) == tokens[i],
        i >= tokens.len() ==> asked[i].page_token is None,
{
    assert(query_texts(asked).len() == asked.len());
    assert(query_texts(asked)[i] == asked[i]@);
}

} // verus!
