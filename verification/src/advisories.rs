//! Which advisories there are for which packages, and where they are fetched.

use vstd::prelude::*;
use vstd::string::*;

use crate::chunks::text_lists;
use crate::lists::{lemma_add_contains, lemma_filter_contains, lemma_filter_map_contains};
use crate::str_map::StrMap;
use crate::text::{
    law_pieces_split, law_pieces_whole, law_trimmed, lowercase, lowered, pieces, pieces_from,
    replace_char, same_text, split, texts, trim, trimmed, with_replaced,
};

verus! {

/// The first place of a name in a list, from the `i`-th on.
pub open spec fn place_from(names: Seq<Seq<char>>, name: Seq<char>, i: int) -> Option<int>
    decreases names.len() - i,
{
    if i >= names.len() {
        None
    } else if names[i] == name {
        Some(i)
    } else {
        place_from(names, name, i + 1)
    }
}

/// The first place of a column's name.
pub open spec fn column(headers: Seq<Seq<char>>, name: Seq<char>) -> Option<int> {
    place_from(headers, name, 0)
}

fn find_column(headers: &Vec<String>, name: &str) -> (r: Option<usize>)
    ensures
        match r {
            Some(i) => column(texts(headers@), name@) == Some(i as int),
            None => column(texts(headers@), name@) is None,
        },
{
    for i in 0..headers.len()
        invariant
            column(texts(headers@), name@) == place_from(texts(headers@), name@, i as int),
    {
        if same_text(headers[i].as_str(), name) {
            return Some(i);
        }
    }
    None
}

/// What stands in a column of a record, without the white space around it.
pub open spec fn trimmed_cell(record: Seq<Seq<char>>, i: int) -> Seq<char> {
    trimmed(
        if 0 <= i < record.len() {
            record[i]
        } else {
            Seq::empty()
        },
    )
}

fn cell_trimmed(record: &Vec<String>, i: usize) -> (r: String)
    ensures
        r@ == trimmed_cell(texts(record@), i as int),
{
    if i < record.len() {
        trim(record[i].as_str())
    } else {
        proof {
            reveal_strlit("");
            assert(""@ =~= Seq::<char>::empty());
        }
        trim("")
    }
}

/// The advisory that a record names for a package URL; `None` where it names
/// none, or is about no package or another.
pub open spec fn advisory_for(
    record: Seq<Seq<char>>,
    id_at: int,
    purl_at: int,
    purl: Seq<char>,
) -> Option<Seq<char>> {
    if purl.len() > 0 && trimmed_cell(record, purl_at) == purl && trimmed_cell(record, id_at).len()
        > 0 {
        Some(trimmed_cell(record, id_at))
    } else {
        None
    }
}

/// The advisories that the records name for a package URL, in their order. There
/// are none where a column is missing.
pub open spec fn advisories_for(
    headers: Seq<Seq<char>>,
    records: Seq<Seq<Seq<char>>>,
    purl: Seq<char>,
) -> Seq<Seq<char>> {
    match (column(headers, "OSV_ID"@), column(headers, "PURL"@)) {
        (Some(id_at), Some(purl_at)) => records.filter_map(
            |r: Seq<Seq<char>>| advisory_for(r, id_at, purl_at, purl),
        ),
        _ => Seq::empty(),
    }
}

/// The list under a key; an empty one where there is none.
pub open spec fn list_under(lists: Map<Seq<char>, Vec<String>>, key: Seq<char>) -> Seq<Seq<char>> {
    if lists.contains_key(key) {
        texts(lists[key]@)
    } else {
        Seq::empty()
    }
}

/// Whether under a key there is that list, or none where it is empty.
pub open spec fn holds_list(
    lists: Map<Seq<char>, Vec<String>>,
    key: Seq<char>,
    list: Seq<Seq<char>>,
) -> bool {
    &&& lists.contains_key(key) <==> list.len() > 0
    &&& list_under(lists, key) == list
}

/// Puts a text at the end of the list under a key.
pub(crate) fn push_under(lists: &mut StrMap<Vec<String>>, key: String, value: String)
    ensures
        final(lists)@.dom() == old(lists)@.dom().insert(key@),
        list_under(final(lists)@, key@) == list_under(old(lists)@, key@).push(value@),
        forall|k: Seq<char>|
            k != key@ ==> #[trigger] list_under(final(lists)@, k) == list_under(old(lists)@, k),
{
    let ghost held = list_under(lists@, key@);
    let ghost v = value@;
    let mut list = if lists.contains_key(key.as_str()) {
        lists.replace(key.as_str(), Vec::new())
    } else {
        Vec::new()
    };
    assert(texts(list@) =~= held);
    let ghost before = list@;
    list.push(value);
    assert(texts(list@) =~= texts(before).push(v));
    lists.insert(key, list);
    assert(lists@.dom() =~= old(lists)@.dom().insert(key@));
}

/// The advisories of each package URL that the records of a table name.
pub fn collect_purl_advisories(headers: &Vec<String>, records: &Vec<Vec<String>>) -> (r: StrMap<
    Vec<String>,
>)
    ensures
        forall|purl: Seq<char>|
            #![trigger r@.contains_key(purl)]
            holds_list(
                r@,
                purl,
                advisories_for(texts(headers@), text_lists(records@), purl),
            ),
        forall|purl: Seq<char>| #[trigger]
            r@.contains_key(purl) <==> advisories_for(
                texts(headers@),
                text_lists(records@),
                purl,
            ).len() > 0,
        forall|purl: Seq<char>| #[trigger]
            r@.contains_key(purl) ==> texts(r@[purl]@) == advisories_for(
                texts(headers@),
                text_lists(records@),
                purl,
            ),
{
    let ghost all = text_lists(records@);
    let mut found: StrMap<Vec<String>> = StrMap::new();
    let id_at = match find_column(headers, "OSV_ID") {
        Some(i) => i,
        None => return found,
    };
    let purl_at = match find_column(headers, "PURL") {
        Some(i) => i,
        None => return found,
    };
    let ghost ids = |purl: Seq<char>|
        |r: Seq<Seq<char>>| advisory_for(r, id_at as int, purl_at as int, purl);
    assert forall|purl: Seq<char>| holds_list(
        found@,
        purl,
        all.take(0).filter_map(#[trigger] ids(purl)),
    ) by {
        assert(all.take(0).filter_map(ids(purl)) =~= Seq::<Seq<char>>::empty());
    }
    for i in 0..records.len()
        invariant
            all == text_lists(records@),
            forall|purl: Seq<char>|
                #![trigger ids(purl)]
                ids(purl) == (|r: Seq<Seq<char>>|
                    advisory_for(r, id_at as int, purl_at as int, purl)),
            forall|purl: Seq<char>|
                holds_list(
                    found@,
                    purl,
                    all.take(i as int).filter_map(#[trigger] ids(purl)),
                ),
    {
        let ghost before = found@;
        let osv_id = cell_trimmed(&records[i], id_at);
        let purl = cell_trimmed(&records[i], purl_at);
        let ghost id = osv_id@;
        assert(all[i as int] == texts(records@[i as int]@));
        if !osv_id.as_str().is_empty() && !purl.as_str().is_empty() {
            push_under(&mut found, purl, osv_id);
        }
        proof {
            assert forall|q: Seq<char>| holds_list(
                found@,
                q,
                all.take(i + 1).filter_map(#[trigger] ids(q)),
            ) by {
                all.lemma_filter_map_take_succ(ids(q), i as int);
                assert(holds_list(before, q, all.take(i as int).filter_map(ids(q))));
                assert(list_under(found@, q) == list_under(found@, q));
                assert(all.take(i + 1).filter_map(ids(q)) =~= match ids(q)(all[i as int]) {
                    Some(found_id) => all.take(i as int).filter_map(ids(q)).push(found_id),
                    None => all.take(i as int).filter_map(ids(q)),
                });
            }
        }
    }
    assert(all.take(all.len() as int) =~= all);
    assert forall|purl: Seq<char>|
        #![trigger found@.contains_key(purl)]
        holds_list(found@, purl, advisories_for(texts(headers@), all, purl)) by {
        assert(holds_list(found@, purl, all.filter_map(ids(purl))));
    }
    found
}

/// Where OSV keeps what it knows under an id.
pub const OSV_VULNS_URL: &'static str = "https://api.osv.dev/v1/vulns/";

/// Where Red Hat keeps the CSAF documents of its advisories.
pub const CSAF_URL: &'static str = "https://security.access.redhat.com/data/csaf/v2/advisories/";

/// The year in which an advisory without one is looked for.
pub const CSAF_YEAR: &'static str = "2024";

/// After how many answers the fetched advisories are saved.
pub const SAVE_ADVISORIES_EVERY: usize = 500;

/// After how many answers the fetched CSAF documents are saved.
pub const SAVE_CSAF_EVERY: usize = 20;

/// After how many answers the fetched records of CVEs are saved.
pub const SAVE_CVES_EVERY: usize = 200;

/// How many CSAF documents are fetched at a time, at most.
pub const CSAF_CONCURRENCY: usize = 5;

/// How many CSAF documents are fetched at a time.
pub fn csaf_concurrency(concurrency: usize) -> (r: usize)
    ensures
        r == (if concurrency < CSAF_CONCURRENCY {
            concurrency
        } else {
            CSAF_CONCURRENCY
        }),
        r <= 5 && r <= concurrency && (r == 5 || r == concurrency),
{
    if concurrency < CSAF_CONCURRENCY {
        concurrency
    } else {
        CSAF_CONCURRENCY
    }
}

/// Where OSV tells what it knows of an advisory or a CVE.
pub fn osv_vuln_url(id: &str) -> (r: String)
    ensures
        r@ == OSV_VULNS_URL@ + id@,
        r@ == "https://api.osv.dev/v1/vulns/"@ + id@,
{
    let mut url = OSV_VULNS_URL.to_owned();
    url.append(id);
    url
}

/// The name of an advisory's CSAF file, from its id in lower case.
pub open spec fn csaf_file(lower: Seq<char>) -> Seq<char> {
    with_replaced(lower, ':', '_')
}

/// The year in the name of a CSAF file: what stands after the first `-`, up to
/// the next `-` or `_`.
pub open spec fn csaf_year(file: Seq<char>) -> Seq<char> {
    let parts = pieces(file, '-');
    if parts.len() > 1 {
        pieces(parts[1], '_')[0]
    } else {
        CSAF_YEAR@
    }
}

/// Where the CSAF document of an advisory is, from its id in lower case.
pub open spec fn csaf_location(lower: Seq<char>) -> Seq<char> {
    CSAF_URL@ + csaf_year(csaf_file(lower)) + "/"@ + csaf_file(lower) + ".json"@
}

/// Where the CSAF document of an advisory is, from its id in lower case.
pub fn csaf_url_of(lower: &str) -> (r: String)
    ensures
        r@ == csaf_location(lower@),
{
    let file = replace_char(lower, ':', '_');
    let parts = split(file.as_str(), '-');
    let mut url = CSAF_URL.to_owned();
    if parts.len() > 1 {
        assert(texts(parts@)[1] == parts@[1]@);
        let inner = split(parts[1].as_str(), '_');
        assert(pieces_from(parts@[1]@, '_', 0).len() > 0);
        assert(texts(inner@).len() > 0 && texts(inner@)[0] == inner@[0]@);
        url.append(inner[0].as_str());
    } else {
        url.append(CSAF_YEAR);
    }
    url.append("/");
    url.append(file.as_str());
    url.append(".json");
    url
}

/// Where the CSAF document of an advisory is.
pub fn csaf_advisory_url(adv_id: &str) -> (r: String)
    ensures
        r@ == csaf_location(lowered(adv_id@)),
{
    csaf_url_of(lowercase(adv_id).as_str())
}

/// What of the ids is not among the documents.
pub open spec fn not_held(ids: Seq<Seq<char>>, held: Set<Seq<char>>) -> Seq<Seq<char>> {
    ids.filter(|id: Seq<char>| !held.contains(id))
}

/// The ids that have to be fetched, since there is no document for them yet.
pub fn ids_to_fetch<V>(needed: &Vec<String>, cache: &StrMap<V>) -> (r: Vec<String>)
    ensures
        texts(r@) == not_held(texts(needed@), cache@.dom()),
{
    let ghost f = |id: Seq<char>| !cache@.dom().contains(id);
    let ghost ids = texts(needed@);
    let mut r: Vec<String> = Vec::new();
    proof {
        reveal(Seq::filter);
        assert(ids.take(0).filter(f) =~= Seq::<Seq<char>>::empty());
        assert(texts(r@) =~= Seq::<Seq<char>>::empty());
    }
    for i in 0..needed.len()
        invariant
            ids == texts(needed@),
            f == (|id: Seq<char>| !cache@.dom().contains(id)),
            texts(r@) == ids.take(i as int).filter(f),
    {
        let ghost before = r@;
        proof {
            reveal(Seq::filter);
            assert(ids.take(i + 1).drop_last() =~= ids.take(i as int));
            assert(ids.take(i + 1).last() == needed@[i as int]@);
        }
        if !cache.contains_key(needed[i].as_str()) {
            r.push(needed[i].clone());
            assert(texts(r@) =~= texts(before).push(needed@[i as int]@));
        }
    }
    assert(ids.take(ids.len() as int) =~= ids);
    r
}

/// How many of the ids have a document.
pub fn count_cached<V>(needed: &Vec<String>, cache: &StrMap<V>) -> (r: usize)
    ensures
        r == needed@.len() - not_held(texts(needed@), cache@.dom()).len(),
{
    let missing = ids_to_fetch(needed, cache);
    assert(texts(missing@).len() == missing@.len());
    assert(texts(needed@).len() == needed@.len());
    proof {
        texts(needed@).lemma_filter_len(|id: Seq<char>| !cache@.dom().contains(id));
    }
    needed.len() - missing.len()
}

/// The documents that are fetched one after the other.
pub struct Fetching<V> {
    pub cache: StrMap<V>,
    pub done: usize,
}

impl<V> Fetching<V> {
    /// Starts with the documents that are there.
    pub fn new(cache: StrMap<V>) -> (r: Self)
        ensures
            r.cache == cache,
            r.done == 0,
    {
        Fetching { cache, done: 0 }
    }

    /// Takes an answer in: a document, or `None` where there was none to be had.
    /// Says whether it is time to save what is there.
    pub fn take_in(&mut self, answer: Option<(String, V)>, save_every: usize) -> (save: bool)
        requires
            save_every > 0,
            old(self).done < usize::MAX,
        ensures
            final(self).cache@ == (match answer {
                Some((id, document)) => old(self).cache@.insert(id@, document),
                None => old(self).cache@,
            }),
            final(self).done == old(self).done + 1,
            save == (final(self).done as int % save_every as int == 0),
    {
        if let Some((id, document)) = answer {
            self.cache.insert(id, document);
        }
        self.done += 1;
        self.done % save_every == 0
    }
}

/// A document that was fetched is not asked for again; the other ids are as
/// before.
pub proof fn law_fetched_is_held(ids: Seq<Seq<char>>, held: Set<Seq<char>>, id: Seq<char>)
    ensures
        !not_held(ids, held.insert(id)).contains(id),
        forall|other: Seq<char>|
            other != id ==> (#[trigger] not_held(ids, held.insert(id)).contains(other)
                <==> not_held(ids, held).contains(other)),
    decreases ids.len(),
{
    reveal(Seq::filter);
    let f = |x: Seq<char>| !held.contains(x);
    let g = |x: Seq<char>| !held.insert(id).contains(x);
    if ids.len() > 0 {
        let rest = ids.drop_last();
        let last = ids.last();
        law_fetched_is_held(rest, held, id);
        assert forall|other: Seq<char>| other != id implies (#[trigger] not_held(
            ids,
            held.insert(id),
        ).contains(other) <==> not_held(ids, held).contains(other)) by {
            lemma_push_contains(rest.filter(f), last, other);
            lemma_push_contains(rest.filter(g), last, other);
        }
        lemma_push_contains(rest.filter(g), last, id);
    }
}

proof fn lemma_push_contains(s: Seq<Seq<char>>, last: Seq<char>, x: Seq<char>)
    ensures
        s.push(last).contains(x) <==> s.contains(x) || x == last,
{
    let t = s.push(last);
    if s.contains(x) {
        let i = choose|i: int| 0 <= i < s.len() && s[i] == x;
        assert(t[i] == x);
    }
    assert(t[s.len() as int] == last);
}

proof fn lemma_place(names: Seq<Seq<char>>, name: Seq<char>, i: int, k: int)
    requires
        0 <= i <= k <= names.len(),
        forall|j: int| 0 <= j < k ==> #[trigger] names[j] != name,
    ensures
        place_from(names, name, i) == place_from(names, name, k),
    decreases k - i,
{
    if i < k {
        assert(names[i] != name);
        lemma_place(names, name, i + 1, k);
    }
}

/// An advisory is known for a package exactly where a record has both, without the
/// white space around them, in the first columns named `OSV_ID` and `PURL`, and
/// neither is blank.
pub proof fn law_records_name_advisories(
    headers: Seq<Seq<char>>,
    records: Seq<Seq<Seq<char>>>,
    id_at: int,
    purl_at: int,
    purl: Seq<char>,
    id: Seq<char>,
)
    requires
        0 <= id_at < headers.len() && headers[id_at] == "OSV_ID"@,
        forall|j: int| 0 <= j < id_at ==> #[trigger] headers[j] != "OSV_ID"@,
        0 <= purl_at < headers.len() && headers[purl_at] == "PURL"@,
        forall|j: int| 0 <= j < purl_at ==> #[trigger] headers[j] != "PURL"@,
        forall|i: int| 0 <= i < records.len() ==> (#[trigger] records[i]).len() == headers.len(),
    ensures
        advisories_for(headers, records, purl).contains(id) <==> purl.len() > 0 && id.len() > 0
            && exists|i: int|
            0 <= i < records.len() && trimmed((#[trigger] records[i])[purl_at]) == purl && trimmed(
                records[i][id_at],
            ) == id,
{
    lemma_place(headers, "OSV_ID"@, 0, id_at);
    lemma_place(headers, "PURL"@, 0, purl_at);
    let f = |r: Seq<Seq<char>>| advisory_for(r, id_at, purl_at, purl);
    assert(advisories_for(headers, records, purl) == records.filter_map(f));
    lemma_filter_map_contains(records, f, id);
    if records.filter_map(f).contains(id) {
        let i = choose|i: int| 0 <= i < records.len() && f(#[trigger] records[i]) == Some(id);
        assert(records[i].len() == headers.len());
        assert(trimmed(records[i][purl_at]) == purl);
    }
    if purl.len() > 0 && id.len() > 0 && exists|i: int|
        0 <= i < records.len() && trimmed((#[trigger] records[i])[purl_at]) == purl && trimmed(
            records[i][id_at],
        ) == id {
        let i = choose|i: int|
            0 <= i < records.len() && trimmed((#[trigger] records[i])[purl_at]) == purl && trimmed(
                records[i][id_at],
            ) == id;
        assert(records[i].len() == headers.len());
        assert(f(records[i]) == Some(id));
    }
}

/// A record adds its advisory behind those of the records before it, or none;
/// without one of the columns nothing is known.
pub proof fn law_records_keep_their_order(
    headers: Seq<Seq<char>>,
    records: Seq<Seq<Seq<char>>>,
    record: Seq<Seq<char>>,
    purl: Seq<char>,
)
    ensures
        advisories_for(headers, records.push(record), purl) == advisories_for(
            headers,
            records,
            purl,
        ) + advisories_for(headers, seq![record], purl),
        !headers.contains("OSV_ID"@) || !headers.contains("PURL"@) ==> advisories_for(
            headers,
            records,
            purl,
        ).len() == 0,
{
    let more = records.push(record);
    let one = seq![record];
    assert(more.drop_last() =~= records);
    assert(more.last() == record);
    assert(one.drop_last() =~= Seq::<Seq<Seq<char>>>::empty());
    assert(one.last() == record);
    reveal_with_fuel(Seq::filter_map, 2);
    assert(advisories_for(headers, more, purl) =~= advisories_for(headers, records, purl)
        + advisories_for(headers, one, purl));
    if !headers.contains("OSV_ID"@) {
        lemma_place_none(headers, "OSV_ID"@);
    }
    if !headers.contains("PURL"@) {
        lemma_place_none(headers, "PURL"@);
    }
}

proof fn lemma_place_none(names: Seq<Seq<char>>, name: Seq<char>)
    requires
        !names.contains(name),
    ensures
        place_from(names, name, 0) is None,
{
    assert forall|j: int| 0 <= j < names.len() implies #[trigger] names[j] != name by {
        assert(names.contains(names[j]));
    }
    lemma_place(names, name, 0, names.len() as int);
}

/// Where the document of an advisory such as `rhsa-2024:1234` is found: below its
/// year, under its name with an underscore for the colon.
pub proof fn law_document_of_an_advisory(kind: Seq<char>, year: Seq<char>, number: Seq<char>)
    requires
        !kind.contains('-') && !kind.contains(':'),
        !year.contains('-') && !year.contains(':') && !year.contains('_'),
        !number.contains('-') && !number.contains(':'),
    ensures
        csaf_location(kind + seq!['-'] + year + seq![':'] + number)
            == "https://security.access.redhat.com/data/csaf/v2/advisories/"@ + year + "/"@ + (kind
            + seq!['-'] + year + seq!['_'] + number) + ".json"@,
{
    let lower = kind + seq!['-'] + year + seq![':'] + number;
    let file = kind + seq!['-'] + year + seq!['_'] + number;
    let rest = year + seq!['_'] + number;
    assert(csaf_file(lower) =~= file) by {
        assert forall|i: int| 0 <= i < file.len() implies csaf_file(lower)[i] == file[i] by {
            let c = lower[i];
            if i < kind.len() {
                assert(kind.contains(kind[i]));
                assert(c == kind[i]);
            } else if i == kind.len() {
                assert(c == '-');
            } else if i < kind.len() + 1 + year.len() {
                assert(year.contains(year[i - kind.len() - 1]));
                assert(c == year[i - kind.len() - 1]);
            } else if i > kind.len() + 1 + year.len() {
                assert(number.contains(number[i - kind.len() - 2 - year.len()]));
                assert(c == number[i - kind.len() - 2 - year.len()]);
            }
        }
    }
    assert(file =~= kind + seq!['-'] + rest);
    law_pieces_split(kind, '-', rest);
    assert(!rest.contains('-')) by {
        lemma_add_contains(year + seq!['_'], number, '-');
        lemma_add_contains(year, seq!['_'], '-');
    }
    law_pieces_whole(rest, '-');
    law_pieces_split(year, '_', number);
}

/// What is fetched is what is needed and not there yet, in the order in which it is
/// needed, and no more.
pub proof fn law_what_is_fetched(ids: Seq<Seq<char>>, held: Set<Seq<char>>, id: Seq<char>)
    ensures
        not_held(ids, held).contains(id) <==> ids.contains(id) && !held.contains(id),
        not_held(ids.push(id), held) == (if held.contains(id) {
            not_held(ids, held)
        } else {
            not_held(ids, held).push(id)
        }),
{
    let f = |id: Seq<char>| !held.contains(id);
    lemma_filter_contains(ids, f, id);
    reveal(Seq::filter);
    assert(ids.push(id).drop_last() =~= ids);
}

/// The document of an advisory without a year in its name is looked for in 2024.
pub proof fn law_document_without_a_year(lower: Seq<char>)
    requires
        !lower.contains('-'),
    ensures
        csaf_location(lower) == "https://security.access.redhat.com/data/csaf/v2/advisories/"@
            + "2024"@ + "/"@ + with_replaced(lower, ':', '_') + ".json"@,
{
    let file = csaf_file(lower);
    assert(!file.contains('-')) by {
        if file.contains('-') {
            let i = choose|i: int| 0 <= i < file.len() && file[i] == '-';
            assert(lower[i] == '-');
        }
    }
    law_pieces_whole(file, '-');
}

/// A cell is read without the white space around it; a record that ends before the
/// column has nothing there, and names no advisory.
pub proof fn law_cells_are_trimmed(
    record: Seq<Seq<char>>,
    i: int,
    id_at: int,
    purl_at: int,
    purl: Seq<char>,
)
    ensures
        0 <= i < record.len() ==> trimmed_cell(record, i) == trimmed(record[i]),
        i >= record.len() ==> trimmed_cell(record, i).len() == 0,
        id_at >= record.len() || purl_at >= record.len() ==> advisory_for(
            record,
            id_at,
            purl_at,
            purl,
        ) is None,
{
    law_trimmed(Seq::empty());
}

} // verus!
