//! The answers of OSV by package, as rows, and by advisory.

use vstd::prelude::*;
use vstd::string::*;

use crate::advisories::{
    advisories_for, advisory_for, holds_list, list_under, place_from, push_under, trimmed_cell,
};
use crate::lists::{lemma_flat_map_contains, lemma_flat_map_len, total};
use crate::osv::{id_texts, OsvVulns, VulnIdText, VulnsText};
use crate::osv_batch::answer_texts;
use crate::str_map::StrMap;
use crate::text::{is_plain, texts, trimmed};

verus! {

/// The answer for a package among the first `n`: that in the last of its places.
pub open spec fn answer_before(
    purls: Seq<Seq<char>>,
    answers: Seq<VulnsText>,
    purl: Seq<char>,
    n: int,
) -> Option<VulnsText>
    decreases n,
{
    if n <= 0 {
        None
    } else if purls[n - 1] == purl {
        Some(answers[n - 1])
    } else {
        answer_before(purls, answers, purl, n - 1)
    }
}

/// The answer for a package. Packages without an answer, and answers without a
/// package, do not count.
pub open spec fn answer_for(
    purls: Seq<Seq<char>>,
    answers: Seq<VulnsText>,
    purl: Seq<char>,
) -> Option<VulnsText> {
    answer_before(
        purls,
        answers,
        purl,
        if purls.len() < answers.len() {
            purls.len() as int
        } else {
            answers.len() as int
        },
    )
}

/// Whether under a package there is that answer.
pub open spec fn holds_answer(
    by_purl: Map<Seq<char>, OsvVulns>,
    purl: Seq<char>,
    answer: Option<VulnsText>,
) -> bool {
    match answer {
        Some(answer) => by_purl.contains_key(purl) && by_purl[purl]@ == answer,
        None => !by_purl.contains_key(purl),
    }
}

/// The answers by package.
pub fn index_by_purl(purls: &Vec<String>, answers: Vec<OsvVulns>) -> (r: StrMap<OsvVulns>)
    ensures
        forall|purl: Seq<char>|
            #![trigger r@.contains_key(purl)]
            holds_answer(
                r@,
                purl,
                answer_for(texts(purls@), answer_texts(answers@), purl),
            ),
        forall|purl: Seq<char>| #[trigger]
            r@.contains_key(purl) <==> answer_for(texts(purls@), answer_texts(answers@), purl)
                is Some,
        forall|purl: Seq<char>| #[trigger]
            r@.contains_key(purl) ==> r@[purl]@ == answer_for(
                texts(purls@),
                answer_texts(answers@),
                purl,
            )->0,
{
    let ghost ps = texts(purls@);
    let ghost given = answers@;
    let ghost all = answer_texts(answers@);
    let mut answers = answers;
    let n = if purls.len() < answers.len() {
        purls.len()
    } else {
        answers.len()
    };
    let mut by_purl: StrMap<OsvVulns> = StrMap::new();
    for i in 0..n
        invariant
            ps == texts(purls@),
            all == answer_texts(given),
            n <= purls@.len(),
            n <= answers@.len(),
            answers@.len() == given.len(),
            forall|j: int| i <= j < n ==> #[trigger] answers@[j] == given[j],
            forall|purl: Seq<char>|
                #![trigger by_purl@.contains_key(purl)]
                holds_answer(by_purl@, purl, answer_before(ps, all, purl, i as int)),
    {
        let ghost before = by_purl@;
        let mut answer = OsvVulns::default();
        std::mem::swap(&mut answer, &mut answers[i]);
        assert(answer == given[i as int]);
        by_purl.insert(purls[i].clone(), answer);
        assert forall|purl: Seq<char>|
            #![trigger by_purl@.contains_key(purl)]
            holds_answer(by_purl@, purl, answer_before(ps, all, purl, i + 1)) by {
            assert(before.contains_key(purl) || !before.contains_key(purl));
            assert(holds_answer(before, purl, answer_before(ps, all, purl, i as int)));
            assert(ps[i as int] == purls@[i as int]@);
            assert(all[i as int] == answer@);
        }
    }
    by_purl
}

/// A row on an advisory for a package.
#[allow(non_snake_case)]
#[derive(Debug)]
pub struct OsvQuerybatchRow {
    pub PURL: String,
    pub OSV_ID: String,
    pub MODIFIED: String,
}

/// A row on an advisory for a package, as texts in the order of the columns.
pub open spec fn row_texts(row: OsvQuerybatchRow) -> Seq<Seq<char>> {
    seq![row.PURL@, row.OSV_ID@, row.MODIFIED@]
}

/// The columns of such rows.
pub open spec fn row_columns() -> Seq<Seq<char>> {
    seq!["PURL"@, "OSV_ID"@, "MODIFIED"@]
}

/// The row on an advisory for a package.
pub open spec fn vuln_row(purl: Seq<char>, vuln: VulnIdText) -> Seq<Seq<char>> {
    seq![
        purl,
        vuln.id,
        match vuln.modified {
            Some(modified) => modified,
            None => Seq::empty(),
        },
    ]
}

/// The rows for a package: one for each advisory, or one without an advisory
/// where there is none.
pub open spec fn package_rows(purl: Seq<char>, vulns: Seq<VulnIdText>) -> Seq<Seq<Seq<char>>> {
    if vulns.len() == 0 {
        seq![seq![purl, Seq::empty(), Seq::empty()]]
    } else {
        vulns.map_values(|vuln: VulnIdText| vuln_row(purl, vuln))
    }
}

/// The rows for all packages.
pub open spec fn all_rows(purls: Seq<Seq<char>>, by_purl: Map<Seq<char>, OsvVulns>) -> Seq<
    Seq<Seq<char>>,
> {
    purls.flat_map(|purl: Seq<char>| package_rows(purl, by_purl[purl]@.vulns))
}

/// The rows of a list, as texts.
pub open spec fn rows_texts(rows: Seq<OsvQuerybatchRow>) -> Seq<Seq<Seq<char>>> {
    rows.map_values(|row: OsvQuerybatchRow| row_texts(row))
}

/// The rows for all packages, package after package.
pub fn querybatch_rows(by_purl: &StrMap<OsvVulns>) -> (r: Vec<OsvQuerybatchRow>)
    ensures
        by_purl.coherent(),
        rows_texts(r@) == all_rows(by_purl.keys(), by_purl@),
{
    let ghost keys = by_purl.keys();
    let ghost f = |purl: Seq<char>| package_rows(purl, by_purl@[purl]@.vulns);
    let mut rows: Vec<OsvQuerybatchRow> = Vec::new();
    let n = by_purl.len();
    proof {
        reveal_strlit("");
        assert(""@ =~= Seq::<char>::empty());
        assert(keys.take(0).flat_map(f) =~= Seq::<Seq<Seq<char>>>::empty());
        assert(rows_texts(rows@) =~= Seq::<Seq<Seq<char>>>::empty());
    }
    for i in 0..n
        invariant
            ""@ == Seq::<char>::empty(),
            keys == by_purl.keys(),
            n == keys.len(),
            f == (|purl: Seq<char>| package_rows(purl, by_purl@[purl]@.vulns)),
            rows_texts(rows@) == keys.take(i as int).flat_map(f),
    {
        let ghost before = rows@;
        let purl = by_purl.key_at(i);
        let vulns = &by_purl.value_at(i).vulns;
        let ghost piece = package_rows(purl@, id_texts(vulns@));
        if vulns.len() == 0 {
            rows.push(
                OsvQuerybatchRow {
                    PURL: purl.clone(),
                    OSV_ID: "".to_owned(),
                    MODIFIED: "".to_owned(),
                },
            );
            assert(id_texts(vulns@).len() == 0);
            assert(rows_texts(rows@) =~= rows_texts(before) + piece);
        } else {
            for j in 0..vulns.len()
                invariant
                    ""@ == Seq::<char>::empty(),
                    vulns@.len() > 0,
                    piece == package_rows(purl@, id_texts(vulns@)),
                    rows_texts(rows@) == rows_texts(before) + piece.take(j as int),
            {
                let ghost held = rows@;
                let vuln = &vulns[j];
                assert(id_texts(vulns@)[j as int] == vuln@);
                let modified = match &vuln.modified {
                    Some(modified) => modified.clone(),
                    None => "".to_owned(),
                };
                rows.push(
                    OsvQuerybatchRow { PURL: purl.clone(), OSV_ID: vuln.id.clone(), MODIFIED: modified },
                );
                assert(row_texts(rows@.last()) =~= piece[j as int]);
                assert(rows_texts(rows@) =~= rows_texts(held).push(piece[j as int]));
                assert(piece.take(j + 1) =~= piece.take(j as int).push(piece[j as int]));
            }
            assert(id_texts(vulns@).len() == vulns@.len());
            assert(piece.take(piece.len() as int) =~= piece);
        }
        proof {
            keys.lemma_flat_map_take_append(f, i as int);
        }
    }
    assert(keys.take(n as int) =~= keys);
    rows
}

/// A package, where the advisory is that one.
pub open spec fn if_named(purl: Seq<char>, id: Seq<char>) -> spec_fn(VulnIdText) -> Option<
    Seq<char>,
> {
    |vuln: VulnIdText|
        if vuln.id == id {
            Some(purl)
        } else {
            None
        }
}

/// A package, once for each time that the advisory is named for it.
pub open spec fn times_named(by_purl: Map<Seq<char>, OsvVulns>, id: Seq<char>) -> spec_fn(
    Seq<char>,
) -> Seq<Seq<char>> {
    |purl: Seq<char>| by_purl[purl]@.vulns.filter_map(if_named(purl, id))
}

/// The packages for which an advisory is named.
pub open spec fn purls_naming(
    purls: Seq<Seq<char>>,
    by_purl: Map<Seq<char>, OsvVulns>,
    id: Seq<char>,
) -> Seq<Seq<char>> {
    purls.flat_map(times_named(by_purl, id))
}

/// The packages by advisory.
pub fn map_advisories(by_purl: &StrMap<OsvVulns>) -> (r: StrMap<Vec<String>>)
    ensures
        by_purl.coherent(),
        forall|id: Seq<char>|
            #![trigger r@.contains_key(id)]
            holds_list(r@, id, purls_naming(by_purl.keys(), by_purl@, id)),
        forall|id: Seq<char>| #[trigger]
            r@.contains_key(id) <==> purls_naming(by_purl.keys(), by_purl@, id).len() > 0,
        forall|id: Seq<char>| #[trigger]
            r@.contains_key(id) ==> texts(r@[id]@) == purls_naming(by_purl.keys(), by_purl@, id),
{
    let ghost keys = by_purl.keys();
    let ghost m = by_purl@;
    let mut found: StrMap<Vec<String>> = StrMap::new();
    let n = by_purl.len();
    assert forall|id: Seq<char>| holds_list(
        found@,
        id,
        keys.take(0).flat_map(#[trigger] times_named(m, id)),
    ) by {
        assert(keys.take(0).flat_map(times_named(m, id)) =~= Seq::<Seq<char>>::empty());
    }
    for i in 0..n
        invariant
            keys == by_purl.keys(),
            m == by_purl@,
            n == keys.len(),
            forall|id: Seq<char>|
                holds_list(
                    found@,
                    id,
                    keys.take(i as int).flat_map(#[trigger] times_named(m, id)),
                ),
    {
        let purl = by_purl.key_at(i);
        let vulns = &by_purl.value_at(i).vulns;
        let ghost p = purl@;
        let ghost ids = id_texts(vulns@);
        let ghost held = keys.take(i as int);
        assert forall|id: Seq<char>| holds_list(
            found@,
            id,
            held.flat_map(#[trigger] times_named(m, id)) + ids.take(0).filter_map(if_named(p, id)),
        ) by {
            assert(ids.take(0).filter_map(if_named(p, id)) =~= Seq::<Seq<char>>::empty());
            assert(held.flat_map(times_named(m, id)) + Seq::<Seq<char>>::empty()
                =~= held.flat_map(times_named(m, id)));
        }
        for j in 0..vulns.len()
            invariant
                p == purl@,
                ids == id_texts(vulns@),
                forall|id: Seq<char>|
                    holds_list(
                        found@,
                        id,
                        held.flat_map(#[trigger] times_named(m, id)) + ids.take(
                            j as int,
                        ).filter_map(if_named(p, id)),
                    ),
        {
            let ghost before = found@;
            let ghost named = vulns@[j as int].id@;
            assert(ids[j as int].id == named);
            push_under(&mut found, vulns[j].id.clone(), purl.clone());
            assert forall|id: Seq<char>| holds_list(
                found@,
                id,
                held.flat_map(#[trigger] times_named(m, id)) + ids.take(j + 1).filter_map(
                    if_named(p, id),
                ),
            ) by {
                let now = held.flat_map(times_named(m, id)) + ids.take(j + 1).filter_map(
                    if_named(p, id),
                );
                let was = held.flat_map(times_named(m, id)) + ids.take(j as int).filter_map(
                    if_named(p, id),
                );
                ids.lemma_filter_map_take_succ(if_named(p, id), j as int);
                assert(holds_list(before, id, was));
                assert(now =~= if id == named {
                    was.push(p)
                } else {
                    was
                });
                assert(list_under(found@, id) == now);
            }
        }
        assert(ids.take(ids.len() as int) =~= ids);
        assert forall|id: Seq<char>| holds_list(
            found@,
            id,
            keys.take(i + 1).flat_map(#[trigger] times_named(m, id)),
        ) by {
            keys.lemma_flat_map_take_append(times_named(m, id), i as int);
            assert(times_named(m, id)(keys[i as int]) == ids.filter_map(if_named(p, id)));
        }
    }
    assert(keys.take(n as int) =~= keys);
    assert forall|id: Seq<char>|
        #![trigger found@.contains_key(id)]
        holds_list(found@, id, purls_naming(keys, m, id)) by {
        assert(holds_list(found@, id, keys.flat_map(times_named(m, id))));
    }
    found
}

proof fn lemma_filter_map_add<A, B>(a: Seq<A>, b: Seq<A>, f: spec_fn(A) -> Option<B>)
    ensures
        (a + b).filter_map(f) == a.filter_map(f) + b.filter_map(f),
    decreases b.len(),
{
    if b.len() == 0 {
        assert(a + b =~= a);
        assert(b.filter_map(f) =~= Seq::<B>::empty());
        assert(a.filter_map(f) + Seq::<B>::empty() =~= a.filter_map(f));
    } else {
        let rest = b.drop_last();
        lemma_filter_map_add(a, rest, f);
        let n = b.len() - 1;
        let all = a + b;
        all.lemma_filter_map_take_succ(f, a.len() + n);
        assert(all.take(a.len() + n + 1) =~= all);
        assert(all.take(a.len() + n) =~= a + rest);
        b.lemma_filter_map_take_succ(f, n);
        assert(b.take(n + 1) =~= b);
        assert(b.take(n) =~= rest);
        assert(all.filter_map(f) =~= a.filter_map(f) + b.filter_map(f));
    }
}

/// The ids of advisories.
pub open spec fn ids_of(vulns: Seq<VulnIdText>) -> Seq<Seq<char>> {
    vulns.map_values(|vuln: VulnIdText| vuln.id)
}

proof fn lemma_package_rows_read_back(
    purl: Seq<char>,
    vulns: Seq<VulnIdText>,
    asked: Seq<char>,
    n: int,
)
    requires
        is_plain(purl),
        is_plain(asked),
        forall|i: int| 0 <= i < vulns.len() ==> is_plain((#[trigger] vulns[i]).id),
        0 <= n <= vulns.len(),
        vulns.len() > 0,
    ensures
        package_rows(purl, vulns).take(n).filter_map(
            |r: Seq<Seq<char>>| advisory_for(r, 1, 0, asked),
        ) == (if purl == asked {
            ids_of(vulns).take(n)
        } else {
            Seq::empty()
        }),
    decreases n,
{
    let rows = package_rows(purl, vulns);
    let f = |r: Seq<Seq<char>>| advisory_for(r, 1, 0, asked);
    if n == 0 {
        assert(rows.take(0).filter_map(f) =~= Seq::<Seq<char>>::empty());
        assert(ids_of(vulns).take(0) =~= Seq::<Seq<char>>::empty());
    } else {
        lemma_package_rows_read_back(purl, vulns, asked, n - 1);
        rows.lemma_filter_map_take_succ(f, n - 1);
        let row = rows[n - 1];
        assert(row == vuln_row(purl, vulns[n - 1]));
        assert(trimmed_cell(row, 0) == purl);
        assert(trimmed_cell(row, 1) == vulns[n - 1].id);
        if purl == asked {
            assert(ids_of(vulns).take(n) =~= ids_of(vulns).take(n - 1) + seq![vulns[n - 1].id]);
        }
    }
}

proof fn lemma_rows_read_back(
    purls: Seq<Seq<char>>,
    by_purl: Map<Seq<char>, OsvVulns>,
    asked: Seq<char>,
)
    requires
        purls.no_duplicates(),
        is_plain(asked),
        forall|k: int| 0 <= k < purls.len() ==> is_plain(#[trigger] purls[k]),
        forall|k: int, i: int|
            0 <= k < purls.len() && 0 <= i < by_purl[purls[k]]@.vulns.len() ==> is_plain(
                (#[trigger] by_purl[purls[k]]@.vulns[i]).id,
            ),
    ensures
        all_rows(purls, by_purl).filter_map(|r: Seq<Seq<char>>| advisory_for(r, 1, 0, asked)) == (
        if purls.contains(asked) {
            ids_of(by_purl[asked]@.vulns)
        } else {
            Seq::empty()
        }),
    decreases purls.len(),
{
    let f = |purl: Seq<char>| package_rows(purl, by_purl[purl]@.vulns);
    let g = |r: Seq<Seq<char>>| advisory_for(r, 1, 0, asked);
    if purls.len() == 0 {
        assert(all_rows(purls, by_purl) =~= Seq::<Seq<Seq<char>>>::empty());
        assert(all_rows(purls, by_purl).filter_map(g) =~= Seq::<Seq<char>>::empty());
    } else {
        let rest = purls.drop_last();
        let last = purls.last();
        let n = purls.len() - 1;
        assert forall|k: int, i: int|
            0 <= k < rest.len() && 0 <= i < by_purl[rest[k]]@.vulns.len() implies is_plain(
            (#[trigger] by_purl[rest[k]]@.vulns[i]).id,
        ) by {
            assert(rest[k] == purls[k]);
            assert(is_plain(by_purl[purls[k]]@.vulns[i].id));
        }
        lemma_rows_read_back(rest, by_purl, asked);
        purls.lemma_flat_map_take_append(f, n);
        assert(purls.take(n + 1) =~= purls);
        assert(purls.take(n) =~= rest);
        let vulns = by_purl[last]@.vulns;
        let piece = package_rows(last, vulns);
        lemma_filter_map_add(all_rows(rest, by_purl), piece, g);
        assert(is_plain(purls[n]));
        if vulns.len() == 0 {
            let row = seq![last, Seq::empty(), Seq::empty()];
            piece.lemma_filter_map_take_succ(g, 0);
            assert(piece.take(0).filter_map(g) =~= Seq::<Seq<char>>::empty());
            assert(piece.take(1) =~= piece);
            assert(piece[0] == row);
            assert(trimmed(Seq::<char>::empty()) =~= Seq::<char>::empty());
            assert(g(row) is None);
            assert(piece.filter_map(g) =~= Seq::<Seq<char>>::empty());
            assert(ids_of(vulns) =~= Seq::<Seq<char>>::empty());
        } else {
            assert forall|i: int| 0 <= i < vulns.len() implies is_plain(
                (#[trigger] vulns[i]).id,
            ) by {
                assert(is_plain(by_purl[purls[n]]@.vulns[i].id));
            }
            lemma_package_rows_read_back(last, vulns, asked, vulns.len() as int);
            assert(piece.take(vulns.len() as int) =~= piece);
            assert(ids_of(vulns).take(vulns.len() as int) =~= ids_of(vulns));
        }
        if last == asked {
            assert(purls[n] == asked);
            assert(!rest.contains(asked)) by {
                if rest.contains(asked) {
                    let k = choose|k: int| 0 <= k < rest.len() && rest[k] == asked;
                    assert(purls[k] == purls[n]);
                }
            }
        } else {
            assert(purls.contains(asked) <==> rest.contains(asked)) by {
                if purls.contains(asked) {
                    let k = choose|k: int| 0 <= k < purls.len() && purls[k] == asked;
                    assert(rest[k] == asked);
                }
                if rest.contains(asked) {
                    let k = choose|k: int| 0 <= k < rest.len() && rest[k] == asked;
                    assert(purls[k] == asked);
                }
            }
        }
        assert(all_rows(purls, by_purl).filter_map(g) =~= (if purls.contains(asked) {
            ids_of(by_purl[asked]@.vulns)
        } else {
            Seq::empty()
        }));
    }
}

/// The rows give back what they were made of: for each package its advisories,
/// in their order, provided that no package URL and no id is blank or has white
/// space around it.
pub proof fn law_rows_read_back(
    purls: Seq<Seq<char>>,
    by_purl: Map<Seq<char>, OsvVulns>,
    asked: Seq<char>,
)
    requires
        purls.no_duplicates(),
        is_plain(asked),
        forall|k: int| 0 <= k < purls.len() ==> is_plain(#[trigger] purls[k]),
        forall|k: int, i: int|
            0 <= k < purls.len() && 0 <= i < by_purl[purls[k]]@.vulns.len() ==> is_plain(
                (#[trigger] by_purl[purls[k]]@.vulns[i]).id,
            ),
    ensures
        advisories_for(row_columns(), all_rows(purls, by_purl), asked) == (if purls.contains(
            asked,
        ) {
            ids_of(by_purl[asked]@.vulns)
        } else {
            Seq::empty()
        }),
{
    reveal_strlit("PURL");
    reveal_strlit("OSV_ID");
    reveal_strlit("MODIFIED");
    assert("PURL"@.len() == 4);
    assert("OSV_ID"@.len() == 6);
    assert(place_from(row_columns(), "OSV_ID"@, 1) == Some(1int));
    assert(place_from(row_columns(), "PURL"@, 0) == Some(0int));
    lemma_rows_read_back(purls, by_purl, asked);
}

proof fn lemma_times_named(purl: Seq<char>, vulns: Seq<VulnIdText>, id: Seq<char>, n: int)
    requires
        0 <= n <= vulns.len(),
    ensures
        forall|q: Seq<char>| #[trigger]
            vulns.take(n).filter_map(if_named(purl, id)).contains(q) <==> q == purl && exists|
                i: int,
            |
                0 <= i < n && (#[trigger] vulns[i]).id == id,
    decreases n,
{
    let f = if_named(purl, id);
    if n == 0 {
        assert(vulns.take(0).filter_map(f) =~= Seq::<Seq<char>>::empty());
    } else {
        lemma_times_named(purl, vulns, id, n - 1);
        vulns.lemma_filter_map_take_succ(f, n - 1);
        let held = vulns.take(n - 1).filter_map(f);
        let now = vulns.take(n).filter_map(f);
        assert forall|q: Seq<char>| #[trigger] now.contains(q) <==> q == purl && exists|i: int|
            0 <= i < n && (#[trigger] vulns[i]).id == id by {
            assert(held.contains(q) <==> q == purl && exists|i: int|
                0 <= i < n - 1 && (#[trigger] vulns[i]).id == id);
            if vulns[n - 1].id == id {
                assert(now =~= held.push(purl));
                assert(now[held.len() as int] == purl);
                if held.contains(q) {
                    let k = choose|k: int| 0 <= k < held.len() && held[k] == q;
                    assert(now[k] == q);
                }
            } else {
                assert(now =~= held);
            }
        }
    }
}

/// An advisory is mapped to exactly the packages for which it is named.
pub proof fn law_advisory_reaches_its_packages(
    purls: Seq<Seq<char>>,
    by_purl: Map<Seq<char>, OsvVulns>,
    id: Seq<char>,
    purl: Seq<char>,
)
    ensures
        purls_naming(purls, by_purl, id).contains(purl) <==> purls.contains(purl) && ids_of(
            by_purl[purl]@.vulns,
        ).contains(id),
    decreases purls.len(),
{
    let f = times_named(by_purl, id);
    if purls.len() == 0 {
        assert(purls.flat_map(f) =~= Seq::<Seq<char>>::empty());
    } else {
        let n = purls.len() - 1;
        let rest = purls.drop_last();
        let last = purls.last();
        law_advisory_reaches_its_packages(rest, by_purl, id, purl);
        purls.lemma_flat_map_take_append(f, n);
        assert(purls.take(n + 1) =~= purls);
        assert(purls.take(n) =~= rest);
        let vulns = by_purl[last]@.vulns;
        lemma_times_named(last, vulns, id, vulns.len() as int);
        assert(vulns.take(vulns.len() as int) =~= vulns);
        lemma_contains_add(rest.flat_map(f), f(last), purl);
        assert(rest + seq![last] =~= purls);
        lemma_contains_add(rest, seq![last], purl);
        assert(seq![last].contains(purl) <==> purl == last) by {
            assert(seq![last][0] == last);
        }
        assert(ids_of(vulns).contains(id) <==> exists|i: int|
            0 <= i < vulns.len() && (#[trigger] vulns[i]).id == id) by {
            if ids_of(vulns).contains(id) {
                let k = choose|k: int| 0 <= k < ids_of(vulns).len() && ids_of(vulns)[k] == id;
                assert(vulns[k].id == id);
            }
            if exists|i: int| 0 <= i < vulns.len() && (#[trigger] vulns[i]).id == id {
                let i = choose|i: int| 0 <= i < vulns.len() && (#[trigger] vulns[i]).id == id;
                assert(ids_of(vulns)[i] == id);
            }
        }
    }
}

proof fn lemma_contains_add(a: Seq<Seq<char>>, b: Seq<Seq<char>>, x: Seq<char>)
    ensures
        (a + b).contains(x) <==> a.contains(x) || b.contains(x),
{
    let all = a + b;
    if a.contains(x) {
        let i = choose|i: int| 0 <= i < a.len() && a[i] == x;
        assert(all[i] == x);
    }
    if b.contains(x) {
        let i = choose|i: int| 0 <= i < b.len() && b[i] == x;
        assert(all[a.len() + i] == x);
    }
    if all.contains(x) {
        let i = choose|i: int| 0 <= i < all.len() && all[i] == x;
        if i < a.len() {
            assert(a[i] == x);
        } else {
            assert(b[i - a.len()] == x);
        }
    }
}

proof fn lemma_answer_at(
    purls: Seq<Seq<char>>,
    answers: Seq<VulnsText>,
    purl: Seq<char>,
    k: int,
    n: int,
)
    requires
        -1 <= k < n,
        forall|j: int| k < j < n ==> #[trigger] purls[j] != purl,
        k >= 0 ==> purls[k] == purl,
    ensures
        k >= 0 ==> answer_before(purls, answers, purl, n) == Some(answers[k]),
        k < 0 ==> answer_before(purls, answers, purl, n) is None,
    decreases n,
{
    if n > 0 && k < n - 1 {
        assert(purls[n - 1] != purl);
        if n > 1 || k >= 0 {
            lemma_answer_at(purls, answers, purl, k, n - 1);
        }
    }
}

/// The answer for a package is the one in the last place that it has among the
/// packages, as far as there are answers; a package without a place has none.
pub proof fn law_answer_in_its_place(
    purls: Seq<Seq<char>>,
    answers: Seq<VulnsText>,
    purl: Seq<char>,
    k: int,
)
    requires
        -1 <= k < purls.len(),
        k < answers.len(),
        forall|j: int|
            k < j < purls.len() && j < answers.len() ==> #[trigger] purls[j] != purl,
        k >= 0 ==> purls[k] == purl,
    ensures
        k >= 0 ==> answer_for(purls, answers, purl) == Some(answers[k]),
        k < 0 ==> answer_for(purls, answers, purl) is None,
{
    let n = if purls.len() < answers.len() {
        purls.len() as int
    } else {
        answers.len() as int
    };
    lemma_answer_at(purls, answers, purl, k, n);
}

proof fn lemma_row_at(
    rows: Seq<OsvQuerybatchRow>,
    purls: Seq<Seq<char>>,
    by_purl: Map<Seq<char>, OsvVulns>,
    k: int,
    row: Seq<Seq<char>>,
) -> (i: int)
    requires
        rows_texts(rows) == all_rows(purls, by_purl),
        0 <= k < purls.len(),
        package_rows(purls[k], by_purl[purls[k]]@.vulns).contains(row),
    ensures
        0 <= i < rows.len(),
        row_texts(rows[i]) == row,
{
    let f = |purl: Seq<char>| package_rows(purl, by_purl[purl]@.vulns);
    lemma_flat_map_contains(purls, f, row);
    assert(f(purls[k]).contains(row));
    assert(rows_texts(rows).contains(row));
    let i = choose|i: int| 0 <= i < rows_texts(rows).len() && rows_texts(rows)[i] == row;
    i
}

/// There is a row for each advisory that is named for each package, with the time at
/// which it was changed, and one with blanks for a package for which none is named.
pub proof fn law_every_advisory_has_a_row(
    rows: Seq<OsvQuerybatchRow>,
    purls: Seq<Seq<char>>,
    by_purl: Map<Seq<char>, OsvVulns>,
    k: int,
    j: int,
)
    requires
        rows_texts(rows) == all_rows(purls, by_purl),
        0 <= k < purls.len(),
    ensures
        0 <= j < by_purl[purls[k]].vulns@.len() ==> exists|i: int|
            0 <= i < rows.len() && (#[trigger] rows[i]).PURL@ == purls[k] && rows[i].OSV_ID@
                == by_purl[purls[k]].vulns@[j].id@ && rows[i].MODIFIED@ == (
            match by_purl[purls[k]].vulns@[j].modified {
                Some(modified) => modified@,
                None => Seq::<char>::empty(),
            }),
        by_purl[purls[k]].vulns@.len() == 0 ==> exists|i: int|
            0 <= i < rows.len() && (#[trigger] rows[i]).PURL@ == purls[k] && rows[i].OSV_ID@.len()
                == 0 && rows[i].MODIFIED@.len() == 0,
{
    let purl = purls[k];
    let vulns = by_purl[purl]@.vulns;
    let made = package_rows(purl, vulns);
    assert(vulns.len() == by_purl[purl].vulns@.len());
    if 0 <= j < vulns.len() {
        assert(vulns[j] == by_purl[purl].vulns@[j]@);
        let row = vuln_row(purl, vulns[j]);
        assert(made[j] == row);
        assert(made.contains(row));
        let i = lemma_row_at(rows, purls, by_purl, k, row);
        assert(row_texts(rows[i])[0] == rows[i].PURL@ && row_texts(rows[i])[1] == rows[i].OSV_ID@
            && row_texts(rows[i])[2] == rows[i].MODIFIED@);
        assert(rows[i].PURL@ == purl);
    }
    if vulns.len() == 0 {
        let row = seq![purl, Seq::empty(), Seq::empty()];
        assert(made[0] == row);
        assert(made.contains(row));
        let i = lemma_row_at(rows, purls, by_purl, k, row);
        assert(row_texts(rows[i])[0] == rows[i].PURL@ && row_texts(rows[i])[1] == rows[i].OSV_ID@
            && row_texts(rows[i])[2] == rows[i].MODIFIED@);
        assert(rows[i].PURL@ == purl);
    }
}

/// There are no other rows: each is about a package and about an advisory that is
/// named for it, or about none where none is; and there are as many as it takes.
pub proof fn law_every_row_has_an_advisory(
    rows: Seq<OsvQuerybatchRow>,
    purls: Seq<Seq<char>>,
    by_purl: Map<Seq<char>, OsvVulns>,
    i: int,
)
    requires
        rows_texts(rows) == all_rows(purls, by_purl),
        0 <= i < rows.len(),
    ensures
        exists|k: int|
            0 <= k < purls.len() && #[trigger] purls[k] == rows[i].PURL@ && (
            by_purl[purls[k]].vulns@.len() == 0 && rows[i].OSV_ID@.len() == 0 || exists|j: int|
                0 <= j < by_purl[purls[k]].vulns@.len() && (
                #[trigger] by_purl[purls[k]].vulns@[j]).id@ == rows[i].OSV_ID@),
        rows.len() == total(
            purls,
            |purl: Seq<char>|
                if by_purl[purl].vulns@.len() == 0 {
                    1nat
                } else {
                    by_purl[purl].vulns@.len()
                },
        ),
{
    let f = |purl: Seq<char>| package_rows(purl, by_purl[purl]@.vulns);
    let row = row_texts(rows[i]);
    assert(rows_texts(rows)[i] == row);
    assert(rows_texts(rows).contains(row));
    lemma_flat_map_contains(purls, f, row);
    let k = choose|k: int| 0 <= k < purls.len() && f(#[trigger] purls[k]).contains(row);
    let purl = purls[k];
    let vulns = by_purl[purl]@.vulns;
    let made = f(purl);
    let j = choose|j: int| 0 <= j < made.len() && made[j] == row;
    assert(row[0] == rows[i].PURL@ && row[1] == rows[i].OSV_ID@);
    assert(made[j][0] == purl);
    if vulns.len() > 0 {
        assert(made[j] == vuln_row(purl, vulns[j]));
        assert(vulns[j] == by_purl[purl].vulns@[j]@);
        assert(by_purl[purls[k]].vulns@[j].id@ == rows[i].OSV_ID@);
    }
    let count = |purl: Seq<char>|
        if by_purl[purl].vulns@.len() == 0 {
            1nat
        } else {
            by_purl[purl].vulns@.len()
        };
    assert forall|m: int| 0 <= m < purls.len() implies f(#[trigger] purls[m]).len() == count(
        purls[m],
    ) by {
        assert(by_purl[purls[m]]@.vulns.len() == by_purl[purls[m]].vulns@.len());
    }
    lemma_flat_map_len(purls, f, count);
    assert(rows_texts(rows).len() == rows.len());
}

/// An advisory has a package as often as it is named for it.
pub proof fn law_named_as_often(
    purls: Seq<Seq<char>>,
    by_purl: Map<Seq<char>, OsvVulns>,
    id: Seq<char>,
)
    ensures
        purls_naming(purls, by_purl, id).len() == total(
            purls,
            |purl: Seq<char>| ids_of(by_purl[purl]@.vulns).filter(|x: Seq<char>| x == id).len(),
        ),
{
    let f = times_named(by_purl, id);
    let count = |purl: Seq<char>|
        ids_of(by_purl[purl]@.vulns).filter(|x: Seq<char>| x == id).len();
    assert forall|k: int| 0 <= k < purls.len() implies f(#[trigger] purls[k]).len() == count(
        purls[k],
    ) by {
        lemma_times_counted(purls[k], by_purl[purls[k]]@.vulns, id);
    }
    lemma_flat_map_len(purls, f, count);
}

proof fn lemma_times_counted(purl: Seq<char>, vulns: Seq<VulnIdText>, id: Seq<char>)
    ensures
        vulns.filter_map(if_named(purl, id)).len() == ids_of(vulns).filter(
            |x: Seq<char>| x == id,
        ).len(),
    decreases vulns.len(),
{
    reveal(Seq::filter);
    if vulns.len() > 0 {
        lemma_times_counted(purl, vulns.drop_last(), id);
        assert(ids_of(vulns).drop_last() =~= ids_of(vulns.drop_last()));
        assert(ids_of(vulns).last() == vulns.last().id);
    }
}

} // verus!
