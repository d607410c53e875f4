//! What TPA is asked, and what it answers.

use vstd::prelude::*;
use vstd::string::*;

use crate::chunks::{chunks_of, split_into_chunks, text_lists};
use crate::compare::Scored;
use crate::lists::{
    lemma_add_contains, lemma_filter_contains, lemma_flat_map_contains, lemma_flat_map_last,
    lemma_flat_map_len, total,
};
use crate::str_map::StrMap;
use crate::text::{
    law_no_split, law_pieces_not_empty, law_pieces_split, law_pieces_whole, law_split_at_first,
    pieces, same_text, split, split_at_first, split_once, strip_prefix, texts,
};

verus! {

/// How many packages are asked for in one request.
pub const TPA_CHUNK_SIZE: usize = 25;

/// How many requests are under way at a time.
pub const TPA_CONCURRENCY: usize = 1;

/// How long to wait between requests, in milliseconds.
pub const TPA_CHUNK_DELAY_MS: u64 = 300;

/// Where TPA is asked, below its base.
pub const TPA_ANALYZE_PATH: &'static str = "/api/v2/vulnerability/analyze";

/// A score with its sort and the severity it stands for. The value is the text
/// of the number.
#[allow(non_snake_case)]
#[derive(Debug)]
pub struct Score {
    pub cvssType: String,
    pub value: String,
    pub severity: String,
}

/// Where an advisory was taken from.
#[allow(non_snake_case)]
#[derive(Debug)]
pub struct Labels {
    pub importerType: String,
}

/// An advisory that says that a package is affected.
#[derive(Debug)]
pub struct AffContent {
    pub identifier: String,
    pub title: String,
    pub labels: Labels,
    pub scores: Vec<Score>,
}

/// The advisories that say that a package is affected.
#[derive(Debug)]
pub struct Affected {
    pub affected: Vec<AffContent>,
}

/// A vulnerability of a package.
#[derive(Debug)]
pub struct Vulnerability {
    pub identifier: String,
    pub status: Affected,
}

/// The vulnerabilities of a package.
#[derive(Debug)]
pub struct PackageResponse {
    pub details: Vec<Vulnerability>,
}

/// What TPA answers: the vulnerabilities by package.
pub struct TPAResponse {
    pub tpa_response: StrMap<PackageResponse>,
}

/// A score that TPA has for a vulnerability of a package, with the advisory and
/// the source it is from.
#[allow(non_snake_case)]
#[derive(Debug)]
pub struct TPAHeaders {
    pub PURL: String,
    pub CVE_ID: String,
    pub OSV_ID: String,
    pub CVSS: String,
    pub CVSSType: String,
    pub Source: String,
}

/// A record of TPA, as texts.
pub struct TpaText {
    pub scored: Scored,
    pub osv_id: Seq<char>,
    pub cvss_type: Seq<char>,
    pub source: Seq<char>,
}

impl View for TPAHeaders {
    type V = TpaText;

    open spec fn view(&self) -> TpaText {
        TpaText {
            scored: Scored { purl: self.PURL@, cve_id: self.CVE_ID@, cvss: self.CVSS@ },
            osv_id: self.OSV_ID@,
            cvss_type: self.CVSSType@,
            source: self.Source@,
        }
    }
}

/// Whether packages of a type have no namespace.
pub open spec fn without_namespace(kind: Seq<char>) -> bool {
    kind == "cargo"@ || kind == "golang"@ || kind == "pypi"@ || kind == "nuget"@ || kind == "gem"@
}

/// The parts, between slashes, of a package URL that has a version: the type,
/// the namespace and the name.
pub open spec fn purl_parts(purl: Seq<char>) -> Option<Seq<Seq<char>>> {
    if "pkg:"@.is_prefix_of(purl) {
        match split_at_first(purl.skip("pkg:"@.len() as int), '@') {
            Some((path, _)) => Some(pieces(path, '/')),
            None => None,
        }
    } else {
        None
    }
}

/// Whether TPA takes a package URL: it does not take one with a namespace where
/// the type has none.
pub open spec fn taken_by_tpa(purl: Seq<char>) -> bool {
    match purl_parts(purl) {
        Some(parts) => parts.len() < 3 || !without_namespace(parts[0]),
        None => true,
    }
}

/// Whether TPA takes a package URL.
pub fn is_purl_valid_for_tpa(purl: &str) -> (r: bool)
    ensures
        r == taken_by_tpa(purl@),
{
    let rest = match strip_prefix(purl, "pkg:") {
        Some(rest) => rest,
        None => return true,
    };
    let path = match split_once(rest.as_str(), '@') {
        Some((path, _)) => path,
        None => return true,
    };
    let parts = split(path.as_str(), '/');
    assert(texts(parts@).len() == parts@.len());
    if parts.len() < 3 {
        return true;
    }
    let kind = parts[0].as_str();
    assert(texts(parts@)[0] == kind@);
    !(same_text(kind, "cargo") || same_text(kind, "golang") || same_text(kind, "pypi")
        || same_text(kind, "nuget") || same_text(kind, "gem"))
}

/// The package URLs that TPA takes.
pub fn filter_purls(purls: Vec<String>) -> (r: Vec<String>)
    ensures
        texts(r@) == texts(purls@).filter(|purl: Seq<char>| taken_by_tpa(purl)),
{
    let ghost all = texts(purls@);
    let ghost f = |purl: Seq<char>| taken_by_tpa(purl);
    let mut r: Vec<String> = Vec::new();
    proof {
        reveal(Seq::filter);
        assert(all.take(0).filter(f) =~= Seq::<Seq<char>>::empty());
        assert(texts(r@) =~= Seq::<Seq<char>>::empty());
    }
    for i in 0..purls.len()
        invariant
            all == texts(purls@),
            f == (|purl: Seq<char>| taken_by_tpa(purl)),
            texts(r@) == all.take(i as int).filter(f),
    {
        let ghost before = r@;
        proof {
            reveal(Seq::filter);
            assert(all.take(i + 1).drop_last() =~= all.take(i as int));
            assert(all.take(i + 1).last() == purls@[i as int]@);
        }
        if is_purl_valid_for_tpa(purls[i].as_str()) {
            r.push(purls[i].clone());
            assert(texts(r@) =~= texts(before).push(purls@[i as int]@));
        }
    }
    assert(all.take(all.len() as int) =~= all);
    r
}

/// The chunks in which TPA is asked.
pub fn tpa_chunks(purls: &Vec<String>) -> (r: Vec<Vec<String>>)
    ensures
        text_lists(r@) == chunks_of(texts(purls@), TPA_CHUNK_SIZE as int),
        text_lists(r@) == chunks_of(texts(purls@), 25),
{
    split_into_chunks(purls, TPA_CHUNK_SIZE)
}

/// Where TPA is asked.
pub fn tpa_endpoint(base: &str) -> (r: String)
    ensures
        r@ == base@ + TPA_ANALYZE_PATH@,
        r@ == base@ + "/api/v2/vulnerability/analyze"@,
{
    let mut r = base.to_owned();
    r.append(TPA_ANALYZE_PATH);
    r
}

/// What a request is authorized by: a token that is not blank.
pub fn bearer(token: Option<&str>) -> (r: Option<String>)
    ensures
        match token {
            Some(token) => if token@.len() > 0 {
                r matches Some(s) && s@ == "Bearer "@ + token@
            } else {
                r is None
            },
            None => r is None,
        },
{
    let token = match token {
        Some(token) => token,
        None => return None,
    };
    if token.is_empty() {
        return None;
    }
    let mut r = "Bearer ".to_owned();
    r.append(token);
    Some(r)
}

/// A text in quotation marks.
pub open spec fn quoted(s: Seq<char>) -> Seq<char> {
    "\""@ + s + "\""@
}

/// Texts in quotation marks, with commas between them.
pub open spec fn quoted_list(v: Seq<Seq<char>>) -> Seq<char>
    decreases v.len(),
{
    if v.len() == 0 {
        Seq::empty()
    } else if v.len() == 1 {
        quoted(v[0])
    } else {
        quoted_list(v.drop_last()) + ","@ + quoted(v.last())
    }
}

/// What is sent to ask for packages.
pub fn analyze_body(purls: &Vec<String>) -> (r: String)
    ensures
        r@ == "{\"purls\":["@ + quoted_list(texts(purls@)) + "]}"@,
{
    let ghost all = texts(purls@);
    let ghost lead = "{\"purls\":["@;
    let mut r = "{\"purls\":[".to_owned();
    assert(all.take(0).len() == 0);
    assert(lead + quoted_list(all.take(0)) =~= lead);
    for i in 0..purls.len()
        invariant
            all == texts(purls@),
            lead == "{\"purls\":["@,
            r@ == lead + quoted_list(all.take(i as int)),
    {
        let ghost before = r@;
        let ghost now = all.take(i + 1);
        assert(now.drop_last() =~= all.take(i as int));
        assert(now.last() == purls@[i as int]@);
        if i > 0 {
            r.append(",");
        }
        r.append("\"");
        r.append(purls[i].as_str());
        r.append("\"");
        assert(r@ =~= lead + quoted_list(now));
    }
    assert(all.take(all.len() as int) =~= all);
    r.append("]}");
    r
}

/// A score of an advisory for a vulnerability of a package, as a record.
pub open spec fn tpa_record(
    purl: Seq<char>,
    vuln: Seq<char>,
    content: AffContent,
    score: Score,
) -> TpaText {
    TpaText {
        scored: Scored { purl, cve_id: vuln, cvss: score.value@ },
        osv_id: content.identifier@,
        cvss_type: score.cvssType@,
        source: content.labels.importerType@,
    }
}

/// The scores of an advisory, as records.
pub open spec fn advisory_records(purl: Seq<char>, vuln: Seq<char>) -> spec_fn(AffContent) -> Seq<
    TpaText,
> {
    |content: AffContent|
        content.scores@.map_values(|score: Score| tpa_record(purl, vuln, content, score))
}

/// The scores for a vulnerability, as records.
pub open spec fn vulnerability_records(purl: Seq<char>) -> spec_fn(Vulnerability) -> Seq<TpaText> {
    |vuln: Vulnerability|
        vuln.status.affected@.flat_map(advisory_records(purl, vuln.identifier@))
}

/// The scores for a package, as records.
pub open spec fn package_records(response: Map<Seq<char>, PackageResponse>) -> spec_fn(
    Seq<char>,
) -> Seq<TpaText> {
    |purl: Seq<char>| response[purl].details@.flat_map(vulnerability_records(purl))
}

/// The records of a list, as texts.
pub open spec fn tpa_texts(v: Seq<TPAHeaders>) -> Seq<TpaText> {
    v.map_values(|h: TPAHeaders| h@)
}

fn add_advisory(records: &mut Vec<TPAHeaders>, purl: &String, vuln: &String, content: &AffContent)
    ensures
        tpa_texts(final(records)@) == tpa_texts(old(records)@) + advisory_records(purl@, vuln@)(
            *content,
        ),
{
    let ghost before = records@;
    let ghost piece = advisory_records(purl@, vuln@)(*content);
    assert(tpa_texts(before) + piece.take(0) =~= tpa_texts(before));
    for i in 0..content.scores.len()
        invariant
            piece == advisory_records(purl@, vuln@)(*content),
            tpa_texts(records@) == tpa_texts(before) + piece.take(i as int),
    {
        let ghost held = records@;
        let score = &content.scores[i];
        records.push(
            TPAHeaders {
                PURL: purl.clone(),
                CVE_ID: vuln.clone(),
                OSV_ID: content.identifier.clone(),
                CVSS: score.value.clone(),
                CVSSType: score.cvssType.clone(),
                Source: content.labels.importerType.clone(),
            },
        );
        assert(tpa_texts(records@) =~= tpa_texts(held).push(piece[i as int]));
        assert(piece.take(i + 1) =~= piece.take(i as int).push(piece[i as int]));
    }
    assert(piece.take(piece.len() as int) =~= piece);
}

fn add_vulnerability(records: &mut Vec<TPAHeaders>, purl: &String, vuln: &Vulnerability)
    ensures
        tpa_texts(final(records)@) == tpa_texts(old(records)@) + vulnerability_records(purl@)(
            *vuln,
        ),
{
    let ghost before = records@;
    let ghost all = vuln.status.affected@;
    let ghost f = advisory_records(purl@, vuln.identifier@);
    assert(all.take(0).flat_map(f) =~= Seq::<TpaText>::empty());
    assert(tpa_texts(before) + Seq::<TpaText>::empty() =~= tpa_texts(before));
    for i in 0..vuln.status.affected.len()
        invariant
            all == vuln.status.affected@,
            f == advisory_records(purl@, vuln.identifier@),
            tpa_texts(records@) == tpa_texts(before) + all.take(i as int).flat_map(f),
    {
        add_advisory(records, purl, &vuln.identifier, &vuln.status.affected[i]);
        proof {
            all.lemma_flat_map_take_append(f, i as int);
            assert(tpa_texts(records@) =~= tpa_texts(before) + all.take(i + 1).flat_map(f));
        }
    }
    assert(all.take(all.len() as int) =~= all);
}

/// The scores that TPA has, one record for each.
pub fn extract_tpa_headers(tpa_response: TPAResponse) -> (r: Vec<TPAHeaders>)
    ensures
        tpa_response.tpa_response.coherent(),
        tpa_texts(r@) == tpa_response.tpa_response.keys().flat_map(
            package_records(tpa_response.tpa_response@),
        ),
{
    let response = tpa_response.tpa_response;
    let ghost keys = response.keys();
    let ghost f = package_records(response@);
    let n = response.len();
    let mut records: Vec<TPAHeaders> = Vec::new();
    assert(keys.take(0).flat_map(f) =~= Seq::<TpaText>::empty());
    assert(tpa_texts(records@) =~= Seq::<TpaText>::empty());
    for i in 0..n
        invariant
            keys == response.keys(),
            n == keys.len(),
            f == package_records(response@),
            tpa_texts(records@) == keys.take(i as int).flat_map(f),
    {
        let purl = response.key_at(i);
        let package = response.value_at(i);
        let ghost before = records@;
        let ghost all = package.details@;
        let ghost g = vulnerability_records(purl@);
        assert(all.take(0).flat_map(g) =~= Seq::<TpaText>::empty());
        assert(tpa_texts(before) + Seq::<TpaText>::empty() =~= tpa_texts(before));
        for j in 0..package.details.len()
            invariant
                all == package.details@,
                g == vulnerability_records(purl@),
                tpa_texts(records@) == tpa_texts(before) + all.take(j as int).flat_map(g),
        {
            add_vulnerability(&mut records, purl, &package.details[j]);
            proof {
                all.lemma_flat_map_take_append(g, j as int);
                assert(tpa_texts(records@) =~= tpa_texts(before) + all.take(j + 1).flat_map(g));
            }
        }
        assert(all.take(all.len() as int) =~= all);
        proof {
            keys.lemma_flat_map_take_append(f, i as int);
        }
    }
    assert(keys.take(n as int) =~= keys);
    records
}

/// The records of a chunk: none where the request for it failed.
pub open spec fn chunk_records(result: Option<Vec<TPAHeaders>>) -> Seq<TpaText> {
    match result {
        Some(records) => tpa_texts(records@),
        None => Seq::empty(),
    }
}

/// The records of all chunks, chunk after chunk.
pub open spec fn joined_records(results: Seq<Option<Vec<TPAHeaders>>>) -> Seq<TpaText> {
    results.flat_map(|result: Option<Vec<TPAHeaders>>| chunk_records(result))
}

/// The records of all chunks; a chunk that failed has none.
pub fn merge_tpa_chunks(results: Vec<Option<Vec<TPAHeaders>>>) -> (r: Vec<TPAHeaders>)
    ensures
        tpa_texts(r@) == joined_records(results@),
{
    let ghost given = results@;
    let ghost f = |result: Option<Vec<TPAHeaders>>| chunk_records(result);
    let mut results = results;
    let n = results.len();
    let mut all: Vec<TPAHeaders> = Vec::new();
    assert(given.take(0).flat_map(f) =~= Seq::<TpaText>::empty());
    assert(tpa_texts(all@) =~= Seq::<TpaText>::empty());
    for i in 0..n
        invariant
            n == results@.len(),
            n == given.len(),
            f == (|result: Option<Vec<TPAHeaders>>| chunk_records(result)),
            forall|j: int| i <= j < n ==> #[trigger] results@[j] == given[j],
            tpa_texts(all@) == given.take(i as int).flat_map(f),
    {
        let mut result: Option<Vec<TPAHeaders>> = None;
        std::mem::swap(&mut result, &mut results[i]);
        let ghost before = all@;
        assert(given[i as int] == result);
        if let Some(mut records) = result {
            let ghost piece = records@;
            all.append(&mut records);
            assert(tpa_texts(all@) =~= tpa_texts(before) + tpa_texts(piece));
        } else {
            assert(tpa_texts(all@) =~= tpa_texts(before) + Seq::<TpaText>::empty());
        }
        proof {
            given.lemma_flat_map_take_append(f, i as int);
        }
    }
    assert(given.take(n as int) =~= given);
    all
}

/// Whether a row is about a score of an advisory for a vulnerability of a package.
pub open spec fn row_of(
    row: TPAHeaders,
    purl: Seq<char>,
    vuln: Vulnerability,
    content: AffContent,
    score: Score,
) -> bool {
    &&& row.PURL@ == purl
    &&& row.CVE_ID@ == vuln.identifier@
    &&& row.OSV_ID@ == content.identifier@
    &&& row.CVSS@ == score.value@
    &&& row.CVSSType@ == score.cvssType@
    &&& row.Source@ == content.labels.importerType@
}

proof fn lemma_record_of(
    response: Map<Seq<char>, PackageResponse>,
    purls: Seq<Seq<char>>,
    record: TpaText,
)
    ensures
        purls.flat_map(package_records(response)).contains(record) <==> exists|
            k: int,
            v: int,
            a: int,
            c: int,
        |
            #![trigger response[purls[k]].details@[v].status.affected@[a].scores@[c]]
            0 <= k < purls.len() && 0 <= v < response[purls[k]].details@.len() && 0 <= a
                < response[purls[k]].details@[v].status.affected@.len() && 0 <= c
                < response[purls[k]].details@[v].status.affected@[a].scores@.len() && record
                == tpa_record(
                purls[k],
                response[purls[k]].details@[v].identifier@,
                response[purls[k]].details@[v].status.affected@[a],
                response[purls[k]].details@[v].status.affected@[a].scores@[c],
            ),
{
    let f = package_records(response);
    lemma_flat_map_contains(purls, f, record);
    if purls.flat_map(f).contains(record) {
        let k = choose|k: int| 0 <= k < purls.len() && f(#[trigger] purls[k]).contains(record);
        let purl = purls[k];
        let details = response[purl].details@;
        let g = vulnerability_records(purl);
        assert(f(purl) == details.flat_map(g));
        lemma_flat_map_contains(details, g, record);
        let v = choose|v: int| 0 <= v < details.len() && g(#[trigger] details[v]).contains(record);
        let affected = details[v].status.affected@;
        let h = advisory_records(purl, details[v].identifier@);
        assert(g(details[v]) == affected.flat_map(h));
        lemma_flat_map_contains(affected, h, record);
        let a = choose|a: int| 0 <= a < affected.len() && h(#[trigger] affected[a]).contains(record);
        let rows = h(affected[a]);
        let c = choose|c: int| 0 <= c < rows.len() && rows[c] == record;
        let score = response[purls[k]].details@[v].status.affected@[a].scores@[c];
        assert(record == tpa_record(purl, details[v].identifier@, affected[a], score));
    }
    if exists|k: int, v: int, a: int, c: int|
        #![trigger response[purls[k]].details@[v].status.affected@[a].scores@[c]]
        0 <= k < purls.len() && 0 <= v < response[purls[k]].details@.len() && 0 <= a
            < response[purls[k]].details@[v].status.affected@.len() && 0 <= c
            < response[purls[k]].details@[v].status.affected@[a].scores@.len() && record
            == tpa_record(
            purls[k],
            response[purls[k]].details@[v].identifier@,
            response[purls[k]].details@[v].status.affected@[a],
            response[purls[k]].details@[v].status.affected@[a].scores@[c],
        ) {
        let (k, v, a, c) = choose|k: int, v: int, a: int, c: int|
            #![trigger response[purls[k]].details@[v].status.affected@[a].scores@[c]]
            0 <= k < purls.len() && 0 <= v < response[purls[k]].details@.len() && 0 <= a
                < response[purls[k]].details@[v].status.affected@.len() && 0 <= c
                < response[purls[k]].details@[v].status.affected@[a].scores@.len() && record
                == tpa_record(
                purls[k],
                response[purls[k]].details@[v].identifier@,
                response[purls[k]].details@[v].status.affected@[a],
                response[purls[k]].details@[v].status.affected@[a].scores@[c],
            );
        let purl = purls[k];
        let details = response[purl].details@;
        let g = vulnerability_records(purl);
        let affected = details[v].status.affected@;
        let h = advisory_records(purl, details[v].identifier@);
        assert(h(affected[a])[c] == record);
        assert(h(affected[a]).contains(record));
        lemma_flat_map_contains(affected, h, record);
        assert(g(details[v]) == affected.flat_map(h));
        assert(g(details[v]).contains(record));
        lemma_flat_map_contains(details, g, record);
        assert(f(purls[k]) == details.flat_map(g));
        assert(f(purls[k]).contains(record));
    }
}

/// There is a row for each score of each advisory for each vulnerability of each
/// package.
pub proof fn law_every_score_has_a_row(
    response: Map<Seq<char>, PackageResponse>,
    purls: Seq<Seq<char>>,
    rows: Seq<TPAHeaders>,
    k: int,
    v: int,
    a: int,
    c: int,
)
    requires
        tpa_texts(rows) == purls.flat_map(package_records(response)),
        0 <= k < purls.len(),
        0 <= v < response[purls[k]].details@.len(),
        0 <= a < response[purls[k]].details@[v].status.affected@.len(),
        0 <= c < response[purls[k]].details@[v].status.affected@[a].scores@.len(),
    ensures
        exists|i: int|
            0 <= i < rows.len() && row_of(
                #[trigger] rows[i],
                purls[k],
                response[purls[k]].details@[v],
                response[purls[k]].details@[v].status.affected@[a],
                response[purls[k]].details@[v].status.affected@[a].scores@[c],
            ),
{
    let vuln = response[purls[k]].details@[v];
    let content = vuln.status.affected@[a];
    let score = content.scores@[c];
    let record = tpa_record(purls[k], vuln.identifier@, content, score);
    lemma_record_of(response, purls, record);
    let score_again = response[purls[k]].details@[v].status.affected@[a].scores@[c];
    assert(record == tpa_record(purls[k], vuln.identifier@, content, score_again));
    assert(tpa_texts(rows).contains(record));
    let i = choose|i: int| 0 <= i < tpa_texts(rows).len() && tpa_texts(rows)[i] == record;
    assert(rows[i]@ == record);
    assert(row_of(rows[i], purls[k], vuln, content, score));
}

/// Each row is about a score of an advisory for a vulnerability of a package.
pub proof fn law_every_row_has_a_score(
    response: Map<Seq<char>, PackageResponse>,
    purls: Seq<Seq<char>>,
    rows: Seq<TPAHeaders>,
    i: int,
)
    requires
        tpa_texts(rows) == purls.flat_map(package_records(response)),
        0 <= i < rows.len(),
    ensures
        exists|k: int, v: int, a: int, c: int|
            #![trigger response[purls[k]].details@[v].status.affected@[a].scores@[c]]
            0 <= k < purls.len() && 0 <= v < response[purls[k]].details@.len() && 0 <= a
                < response[purls[k]].details@[v].status.affected@.len() && 0 <= c
                < response[purls[k]].details@[v].status.affected@[a].scores@.len() && row_of(
                rows[i],
                purls[k],
                response[purls[k]].details@[v],
                response[purls[k]].details@[v].status.affected@[a],
                response[purls[k]].details@[v].status.affected@[a].scores@[c],
            ),
{
    let record = tpa_texts(rows)[i];
    assert(record == rows[i]@);
    assert(tpa_texts(rows).contains(record));
    lemma_record_of(response, purls, record);
    let (k, v, a, c) = choose|k: int, v: int, a: int, c: int|
        #![trigger response[purls[k]].details@[v].status.affected@[a].scores@[c]]
        0 <= k < purls.len() && 0 <= v < response[purls[k]].details@.len() && 0 <= a
            < response[purls[k]].details@[v].status.affected@.len() && 0 <= c
            < response[purls[k]].details@[v].status.affected@[a].scores@.len() && record
            == tpa_record(
            purls[k],
            response[purls[k]].details@[v].identifier@,
            response[purls[k]].details@[v].status.affected@[a],
            response[purls[k]].details@[v].status.affected@[a].scores@[c],
        );
    let score = response[purls[k]].details@[v].status.affected@[a].scores@[c];
    assert(row_of(
        rows[i],
        purls[k],
        response[purls[k]].details@[v],
        response[purls[k]].details@[v].status.affected@[a],
        score,
    ));
}

/// How many scores there are for a vulnerability.
pub open spec fn scores_of_vulnerability(vuln: Vulnerability) -> nat {
    total(vuln.status.affected@, |content: AffContent| content.scores@.len())
}

/// How many scores there are for a package.
pub open spec fn scores_of_package(package: PackageResponse) -> nat {
    total(package.details@, |vuln: Vulnerability| scores_of_vulnerability(vuln))
}

/// There are as many rows as there are scores.
pub proof fn law_as_many_rows_as_scores(
    response: Map<Seq<char>, PackageResponse>,
    purls: Seq<Seq<char>>,
    rows: Seq<TPAHeaders>,
)
    requires
        tpa_texts(rows) == purls.flat_map(package_records(response)),
    ensures
        rows.len() == total(purls, |purl: Seq<char>| scores_of_package(response[purl])),
{
    let f = package_records(response);
    let count = |purl: Seq<char>| scores_of_package(response[purl]);
    assert forall|k: int| 0 <= k < purls.len() implies f(#[trigger] purls[k]).len() == count(
        purls[k],
    ) by {
        let purl = purls[k];
        let details = response[purl].details@;
        let g = vulnerability_records(purl);
        let many = |vuln: Vulnerability| scores_of_vulnerability(vuln);
        assert forall|v: int| 0 <= v < details.len() implies g(#[trigger] details[v]).len() == many(
            details[v],
        ) by {
            let h = advisory_records(purl, details[v].identifier@);
            lemma_flat_map_len(
                details[v].status.affected@,
                h,
                |content: AffContent| content.scores@.len(),
            );
        }
        lemma_flat_map_len(details, g, many);
    }
    lemma_flat_map_len(purls, f, count);
    assert(tpa_texts(rows).len() == rows.len());
}

/// The records of the chunks are those of the one after those of the other; a
/// chunk that failed adds nothing.
pub proof fn law_chunk_records_join(
    before: Seq<Option<Vec<TPAHeaders>>>,
    result: Option<Vec<TPAHeaders>>,
)
    ensures
        joined_records(Seq::empty()).len() == 0,
        joined_records(before.push(result)) == (match result {
            Some(records) => joined_records(before) + records@.map_values(|r: TPAHeaders| r@),
            None => joined_records(before),
        }),
{
    let f = |result: Option<Vec<TPAHeaders>>| chunk_records(result);
    let more = before.push(result);
    lemma_flat_map_last(Seq::<Option<Vec<TPAHeaders>>>::empty(), f);
    lemma_flat_map_last(more, f);
    assert(more.drop_last() =~= before);
    assert(joined_records(before) + Seq::<TpaText>::empty() =~= joined_records(before));
}

/// A package URL with a type, a namespace, a name and a version is taken exactly
/// where the type is none of the five that have no namespace. One without a
/// namespace, or without a version, is taken, and so is what is no package URL.
pub proof fn law_namespaces_taken(
    kind: Seq<char>,
    namespace: Seq<char>,
    name: Seq<char>,
    version: Seq<char>,
)
    requires
        !kind.contains('/') && !kind.contains('@'),
        !namespace.contains('/') && !namespace.contains('@'),
        !name.contains('@'),
    ensures
        taken_by_tpa("pkg:"@ + kind + seq!['/'] + namespace + seq!['/'] + name + seq!['@'] + version)
            <==> kind != "cargo"@ && kind != "golang"@ && kind != "pypi"@ && kind != "nuget"@
            && kind != "gem"@,
        !name.contains('/') ==> taken_by_tpa("pkg:"@ + kind + seq!['/'] + name + seq!['@'] + version),
        taken_by_tpa("pkg:"@ + kind + seq!['/'] + namespace + seq!['/'] + name),
        forall|purl: Seq<char>| !"pkg:"@.is_prefix_of(purl) ==> #[trigger] taken_by_tpa(purl),
{
    let path = kind + seq!['/'] + namespace + seq!['/'] + name;
    let full = "pkg:"@ + kind + seq!['/'] + namespace + seq!['/'] + name + seq!['@'] + version;
    let n = "pkg:"@.len() as int;
    assert(full.take(n) =~= "pkg:"@);
    assert(full.skip(n) =~= path + seq!['@'] + version);
    lemma_not_in_sum(kind, namespace, name, '@');
    law_split_at_first(path, '@', version);
    assert(path =~= kind + seq!['/'] + (namespace + seq!['/'] + name));
    law_pieces_split(kind, '/', namespace + seq!['/'] + name);
    law_pieces_split(namespace, '/', name);
    law_pieces_not_empty(name, '/');
    let short = "pkg:"@ + kind + seq!['/'] + name + seq!['@'] + version;
    let path2 = kind + seq!['/'] + name;
    assert(short.take(n) =~= "pkg:"@);
    assert(short.skip(n) =~= path2 + seq!['@'] + version);
    assert(!path2.contains('@')) by {
        lemma_add_contains(kind + seq!['/'], name, '@');
        lemma_add_contains(kind, seq!['/'], '@');
    }
    law_split_at_first(path2, '@', version);
    law_pieces_split(kind, '/', name);
    if !name.contains('/') {
        law_pieces_whole(name, '/');
    }
    let bare = "pkg:"@ + kind + seq!['/'] + namespace + seq!['/'] + name;
    assert(bare.take(n) =~= "pkg:"@);
    assert(bare.skip(n) =~= path);
    law_no_split(path, '@');
}

proof fn lemma_not_in_sum(a: Seq<char>, b: Seq<char>, c: Seq<char>, x: char)
    requires
        x != '/',
        !a.contains(x),
        !b.contains(x),
        !c.contains(x),
    ensures
        !(a + seq!['/'] + b + seq!['/'] + c).contains(x),
{
    lemma_add_contains(a + seq!['/'] + b + seq!['/'], c, x);
    lemma_add_contains(a + seq!['/'] + b, seq!['/'], x);
    lemma_add_contains(a + seq!['/'], b, x);
    lemma_add_contains(a, seq!['/'], x);
}

/// The package URLs that are asked for are those that are taken, and no other.
pub proof fn law_filtered_purls(purls: Seq<Seq<char>>, purl: Seq<char>)
    ensures
        purls.filter(|purl: Seq<char>| taken_by_tpa(purl)).contains(purl) <==> purls.contains(purl)
            && taken_by_tpa(purl),
{
    lemma_filter_contains(purls, |purl: Seq<char>| taken_by_tpa(purl), purl);
}

/// A list of package URLs is sent as the one part of it, a comma and the other
/// part; a single one stands in quotation marks.
pub proof fn law_quoted_list(a: Seq<Seq<char>>, b: Seq<Seq<char>>, purl: Seq<char>)
    ensures
        quoted_list(seq![purl]) == seq!['"'] + purl + seq!['"'],
        quoted_list(Seq::empty()).len() == 0,
        a.len() > 0 && b.len() > 0 ==> quoted_list(a + b) == quoted_list(a) + seq![','] + quoted_list(
            b,
        ),
    decreases b.len(),
{
    reveal_strlit("\"");
    reveal_strlit(",");
    assert("\""@ =~= seq!['"']);
    assert(","@ =~= seq![',']);
    if a.len() > 0 && b.len() > 0 {
        let all = a + b;
        assert(all.drop_last() =~= a + b.drop_last());
        assert(all.last() == b.last());
        if b.len() == 1 {
            assert(a + b.drop_last() =~= a);
            assert(b =~= seq![b[0]]);
        } else {
            law_quoted_list(a, b.drop_last(), purl);
        }
        assert(quoted_list(all) =~= quoted_list(a) + seq![','] + quoted_list(b));
    }
}

/// The rows of a vulnerability are those of its advisories, one after the other, and
/// the rows of a package those of its vulnerabilities; those of an advisory are in
/// the order of its scores.
pub proof fn law_rows_keep_their_order(
    purl: Seq<char>,
    fewer: Vulnerability,
    more: Vulnerability,
    content: AffContent,
    response: Map<Seq<char>, PackageResponse>,
    smaller: Map<Seq<char>, PackageResponse>,
)
    requires
        more.identifier@ == fewer.identifier@,
        more.status.affected@ == fewer.status.affected@.push(content),
        response[purl].details@ == smaller[purl].details@.push(more),
    ensures
        vulnerability_records(purl)(more) == vulnerability_records(purl)(fewer)
            + content.scores@.map_values(
            |score: Score|
                TpaText {
                    scored: Scored { purl, cve_id: more.identifier@, cvss: score.value@ },
                    osv_id: content.identifier@,
                    cvss_type: score.cvssType@,
                    source: content.labels.importerType@,
                },
        ),
        package_records(response)(purl) == package_records(smaller)(purl) + vulnerability_records(
            purl,
        )(more),
{
    let h = advisory_records(purl, more.identifier@);
    lemma_flat_map_last(more.status.affected@, h);
    assert(more.status.affected@.drop_last() =~= fewer.status.affected@);
    let g = vulnerability_records(purl);
    lemma_flat_map_last(response[purl].details@, g);
    assert(response[purl].details@.drop_last() =~= smaller[purl].details@);
    assert(h(content) =~= content.scores@.map_values(
        |score: Score|
            TpaText {
                scored: Scored { purl, cve_id: more.identifier@, cvss: score.value@ },
                osv_id: content.identifier@,
                cvss_type: score.cvssType@,
                source: content.labels.importerType@,
            },
    ));
}

} // verus!
