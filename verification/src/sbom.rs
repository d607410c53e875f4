//! The package URLs of a bill of materials, and the files they are kept in.

use vstd::prelude::*;
use vstd::string::*;

use crate::lists::lemma_filter_map_contains;
use crate::text::{
    chars_of, find, is_plain, is_white_space, law_lines, lemma_find, lines, lines_of, pieces, pieces_from,
    same_text, texts, trim, trim_back, trim_front, trimmed, without_return,
};

verus! {

/// The forms of bills of materials that are read.
#[derive(Debug, PartialEq, Eq, Structural)]
pub enum SbomKind {
    CycloneDx,
    Spdx,
}

/// The form that a name stands for; `None` where it stands for none.
pub fn sbom_kind(sbom_type: &str) -> (r: Option<SbomKind>)
    ensures
        r == (if sbom_type@ == "cdx"@ {
            Some(SbomKind::CycloneDx)
        } else if sbom_type@ == "spdx"@ {
            Some(SbomKind::Spdx)
        } else {
            None
        }),
{
    if same_text(sbom_type, "cdx") {
        Some(SbomKind::CycloneDx)
    } else if same_text(sbom_type, "spdx") {
        Some(SbomKind::Spdx)
    } else {
        None
    }
}

/// Where the data of the sources is kept.
pub const SOURCE_DIRECTORY: &'static str = "test_results/source/";

/// The file in which something is kept that was found for a form of bill at a
/// time.
pub fn source_file(sbom_type: &str, what: &str, timestamp: &str, extension: &str) -> (r: String)
    ensures
        r@ == SOURCE_DIRECTORY@ + sbom_type@ + "_"@ + what@ + "_"@ + timestamp@ + "."@ + extension@,
        "test_results/source/"@.is_prefix_of(r@),
{
    let mut r = SOURCE_DIRECTORY.to_owned();
    r.append(sbom_type);
    r.append("_");
    r.append(what);
    r.append("_");
    r.append(timestamp);
    r.append(".");
    r.append(extension);
    r
}

/// The file in which the answers of TPA of a time are kept.
pub fn tpa_file(timestamp: &str, extension: &str) -> (r: String)
    ensures
        r@ == SOURCE_DIRECTORY@ + "tpa_response_"@ + timestamp@ + "."@ + extension@,
        "test_results/source/"@.is_prefix_of(r@),
{
    let mut r = SOURCE_DIRECTORY.to_owned();
    r.append("tpa_response_");
    r.append(timestamp);
    r.append(".");
    r.append(extension);
    r
}

/// Package URLs, one to a line.
pub open spec fn written(purls: Seq<Seq<char>>) -> Seq<char>
    decreases purls.len(),
{
    if purls.len() == 0 {
        Seq::empty()
    } else {
        purls[0] + "\n"@ + written(purls.drop_first())
    }
}

/// Package URLs, one to a line.
pub fn purls_to_text(purls: &Vec<String>) -> (r: String)
    ensures
        r@ == written(texts(purls@)),
{
    let ghost all = texts(purls@);
    proof {
        reveal_strlit("");
        assert(""@ =~= Seq::<char>::empty());
        assert(all.skip(0) =~= all);
    }
    let mut r = "".to_owned();
    assert(r@ + written(all) =~= written(all));
    for i in 0..purls.len()
        invariant
            all == texts(purls@),
            r@ + written(all.skip(i as int)) == written(all),
    {
        let ghost before = r@;
        let ghost rest = all.skip(i as int);
        assert(rest.drop_first() =~= all.skip(i + 1));
        assert(rest[0] == purls@[i as int]@);
        r.append(purls[i].as_str());
        r.append("\n");
        assert(r@ + written(all.skip(i + 1)) =~= before + written(rest));
    }
    assert(all.skip(all.len() as int).len() == 0);
    assert(r@ + Seq::<char>::empty() =~= r@);
    r
}

/// The package URLs in a text: its lines without the white space around them,
/// those that are blank left out.
pub open spec fn read(content: Seq<char>) -> Seq<Seq<char>> {
    lines_of(content).filter_map(
        |line: Seq<char>|
            if trimmed(line).len() > 0 {
                Some(trimmed(line))
            } else {
                None
            },
    )
}

/// The package URLs in a text.
pub fn purls_from_text(content: &str) -> (r: Vec<String>)
    ensures
        texts(r@) == read(content@),
{
    let all = lines(content);
    let ghost ls = lines_of(content@);
    let ghost f = |line: Seq<char>|
        if trimmed(line).len() > 0 {
            Some(trimmed(line))
        } else {
            None
        };
    let mut r: Vec<String> = Vec::new();
    assert(ls.take(0).filter_map(f) =~= Seq::<Seq<char>>::empty());
    assert(texts(r@) =~= Seq::<Seq<char>>::empty());
    assert(ls.len() == all@.len());
    for i in 0..all.len()
        invariant
            ls == texts(all@),
            f == (|line: Seq<char>|
                if trimmed(line).len() > 0 {
                    Some(trimmed(line))
                } else {
                    None
                }),
            texts(r@) == ls.take(i as int).filter_map(f),
    {
        let ghost before = r@;
        proof {
            ls.lemma_filter_map_take_succ(f, i as int);
            assert(ls[i as int] == all@[i as int]@);
        }
        let line = trim(all[i].as_str());
        let ghost l = line@;
        if !line.as_str().is_empty() {
            r.push(line);
            assert(texts(r@) =~= texts(before) + seq![l]);
        } else {
            assert(texts(before) + Seq::<Seq<char>>::empty() =~= texts(before));
        }
    }
    assert(ls.take(ls.len() as int) =~= ls);
    r
}

proof fn lemma_trim_shortens(s: Seq<char>)
    ensures
        trim_front(s).len() <= s.len(),
        trim_front(s).len() == s.len() ==> trim_front(s) == s,
        trim_back(s).len() <= s.len(),
    decreases s.len(),
{
    if s.len() > 0 {
        lemma_trim_shortens(s.skip(1));
        lemma_trim_shortens(s.drop_last());
    }
}

proof fn lemma_plain_end(s: Seq<char>)
    requires
        is_plain(s),
    ensures
        !is_white_space(s.last()),
        without_return(s) == s,
{
    lemma_trim_shortens(s);
    lemma_trim_shortens(trim_front(s));
    lemma_trim_shortens(s.drop_last());
    assert(is_white_space('\r'));
}

proof fn lemma_pieces_written(lead: Seq<char>, purls: Seq<Seq<char>>)
    requires
        forall|i: int| 0 <= i < purls.len() ==> !(#[trigger] purls[i]).contains('\n'),
    ensures
        pieces_from(lead + written(purls), '\n', lead.len() as int) == purls.push(Seq::empty()),
    decreases purls.len(),
{
    reveal_strlit("\n");
    let s = lead + written(purls);
    let from = lead.len() as int;
    lemma_find(s, '\n', from);
    if purls.len() == 0 {
        assert(s =~= lead);
        assert(s.subrange(from, s.len() as int) =~= Seq::<char>::empty());
        assert(seq![s.subrange(from, s.len() as int)] =~= purls.push(Seq::empty()));
    } else {
        let first = purls[0];
        let rest = purls.drop_first();
        assert forall|i: int| 0 <= i < rest.len() implies !(#[trigger] rest[i]).contains(
            '\n',
        ) by {
            assert(rest[i] == purls[i + 1]);
        }
        let i = from + first.len();
        assert(s =~= (lead + first + "\n"@) + written(rest));
        assert(s[i] == '\n');
        assert forall|k: int| from <= k < i implies s[k] != '\n' by {
            assert(s[k] == first[k - from]);
            assert(first.contains(first[k - from]));
        }
        assert(find(s, '\n', from) == i);
        assert(s.subrange(from, i) =~= first);
        lemma_pieces_written(lead + first + "\n"@, rest);
        assert(seq![first] + rest.push(Seq::empty()) =~= purls.push(Seq::empty()));
    }
}

/// Package URLs that are written one to a line are read back as they were,
/// provided that none is blank, has white space around it or a line feed in it.
pub proof fn law_purls_read_back(purls: Seq<Seq<char>>)
    requires
        forall|i: int| 0 <= i < purls.len() ==> is_plain(#[trigger] purls[i]),
        forall|i: int| 0 <= i < purls.len() ==> !(#[trigger] purls[i]).contains('\n'),
    ensures
        read(written(purls)) == purls,
{
    let content = written(purls);
    lemma_pieces_written(Seq::empty(), purls);
    assert(Seq::<char>::empty() + content =~= content);
    let parts = pieces(content, '\n');
    assert(parts.drop_last() =~= purls);
    assert(lines_of(content) =~= purls) by {
        assert forall|i: int| 0 <= i < purls.len() implies without_return(#[trigger] purls[i])
            == purls[i] by {
            lemma_plain_end(purls[i]);
        }
    }
    let f = |line: Seq<char>|
        if trimmed(line).len() > 0 {
            Some(trimmed(line))
        } else {
            None
        };
    lemma_read_all(purls, f, purls.len() as int);
    assert(purls.take(purls.len() as int) =~= purls);
}

proof fn lemma_read_all(
    purls: Seq<Seq<char>>,
    f: spec_fn(Seq<char>) -> Option<Seq<char>>,
    n: int,
)
    requires
        0 <= n <= purls.len(),
        forall|i: int| 0 <= i < purls.len() ==> f(#[trigger] purls[i]) == Some(purls[i]),
    ensures
        purls.take(n).filter_map(f) == purls.take(n),
    decreases n,
{
    if n == 0 {
        assert(purls.take(0).filter_map(f) =~= purls.take(0));
    } else {
        lemma_read_all(purls, f, n - 1);
        purls.lemma_filter_map_take_succ(f, n - 1);
        assert(purls.take(n) =~= purls.take(n - 1) + seq![purls[n - 1]]);
    }
}

/// The files with the advisories that OSV named, as a pattern of paths.
pub const QUERYBATCH_FILES: &'static str = "test_results/source/*_osv_querybatch_*.csv";

/// Whether a text does not come behind another, by the first character in which
/// they differ.
pub open spec fn in_order(a: Seq<char>, b: Seq<char>) -> bool
    decreases a.len(),
{
    if a.len() == 0 {
        true
    } else if b.len() == 0 {
        false
    } else if a[0] == b[0] {
        in_order(a.skip(1), b.skip(1))
    } else {
        a[0] < b[0]
    }
}

proof fn lemma_in_order(a: Seq<char>, b: Seq<char>, c: Seq<char>)
    ensures
        in_order(a, a),
        in_order(a, b) || in_order(b, a),
        in_order(a, b) && in_order(b, c) ==> in_order(a, c),
    decreases a.len(),
{
    if a.len() > 0 {
        lemma_in_order(a.skip(1), b.skip(1), c.skip(1));
    }
}

fn precedes(a: &str, b: &str) -> (r: bool)
    ensures
        r == in_order(a@, b@),
{
    let v = chars_of(a);
    let w = chars_of(b);
    let mut i: usize = 0;
    assert(v@.skip(0) =~= v@);
    assert(w@.skip(0) =~= w@);
    while i < v.len()
        invariant
            v@ == a@,
            w@ == b@,
            i <= v@.len(),
            i <= w@.len(),
            in_order(v@, w@) == in_order(v@.skip(i as int), w@.skip(i as int)),
        decreases v@.len() - i,
    {
        assert(v@.skip(i as int).skip(1) =~= v@.skip(i + 1));
        if i >= w.len() {
            return false;
        }
        assert(w@.skip(i as int).skip(1) =~= w@.skip(i + 1));
        if v[i] != w[i] {
            return v[i] < w[i];
        }
        i += 1;
    }
    true
}

/// The last of the files by name: the latest, where the names differ by the time
/// at their end.
pub fn latest_file(names: &Vec<String>) -> (r: Option<String>)
    ensures
        match r {
            Some(last) => {
                &&& texts(names@).contains(last@)
                &&& forall|i: int| 0 <= i < names@.len() ==> in_order(#[trigger] names@[i]@, last@)
            },
            None => names@.len() == 0,
        },
{
    if names.len() == 0 {
        return None;
    }
    let mut best: usize = 0;
    proof {
        lemma_in_order(names@[0]@, names@[0]@, names@[0]@);
    }
    for i in 1..names.len()
        invariant
            best < names@.len(),
            forall|j: int| 0 <= j < i ==> in_order(#[trigger] names@[j]@, names@[best as int]@),
    {
        let ghost before = best;
        if precedes(names[best].as_str(), names[i].as_str()) {
            best = i;
        }
        proof {
            let now = names@[best as int]@;
            lemma_in_order(names@[before as int]@, names@[i as int]@, now);
            assert forall|j: int| 0 <= j < i + 1 implies in_order(#[trigger] names@[j]@, now) by {
                lemma_in_order(names@[j]@, names@[before as int]@, now);
                lemma_in_order(names@[i as int]@, names@[before as int]@, now);
            }
        }
    }
    assert(texts(names@)[best as int] == names@[best as int]@);
    Some(names[best].clone())
}

/// The package URLs in a text are its lines, without the white space around them,
/// but for the blank ones.
pub proof fn law_lines_are_purls(content: Seq<char>, purl: Seq<char>)
    ensures
        read(content).contains(purl) <==> purl.len() > 0 && exists|i: int|
            0 <= i < lines_of(content).len() && trimmed(#[trigger] lines_of(content)[i]) == purl,
{
    let f = |line: Seq<char>|
        if trimmed(line).len() > 0 {
            Some(trimmed(line))
        } else {
            None
        };
    let all = lines_of(content);
    lemma_filter_map_contains(all, f, purl);
    if read(content).contains(purl) {
        let i = choose|i: int| 0 <= i < all.len() && f(#[trigger] all[i]) == Some(purl);
        assert(trimmed(lines_of(content)[i]) == purl);
    }
    if purl.len() > 0 && exists|i: int|
        0 <= i < lines_of(content).len() && trimmed(#[trigger] lines_of(content)[i]) == purl {
        let i = choose|i: int|
            0 <= i < lines_of(content).len() && trimmed(#[trigger] lines_of(content)[i]) == purl;
        assert(f(all[i]) == Some(purl));
    }
}

/// The package URL of a line comes before those of the lines behind it; a blank line
/// has none.
pub proof fn law_purls_keep_their_order(line: Seq<char>, rest: Seq<char>)
    requires
        !line.contains('\n'),
        line.len() == 0 || line.last() != '\r',
    ensures
        read(line + seq!['\n'] + rest) == (if trimmed(line).len() > 0 {
            seq![trimmed(line)] + read(rest)
        } else {
            read(rest)
        }),
{
    let f = |line: Seq<char>|
        if trimmed(line).len() > 0 {
            Some(trimmed(line))
        } else {
            None
        };
    law_lines(line, rest);
    lemma_first_picked(line, lines_of(rest), f);
}

proof fn lemma_first_picked(
    first: Seq<char>,
    rest: Seq<Seq<char>>,
    f: spec_fn(Seq<char>) -> Option<Seq<char>>,
)
    ensures
        (seq![first] + rest).filter_map(f) == (match f(first) {
            Some(x) => seq![x] + rest.filter_map(f),
            None => rest.filter_map(f),
        }),
    decreases rest.len(),
{
    let all = seq![first] + rest;
    if rest.len() == 0 {
        assert(all =~= seq![first]);
        assert(all.drop_last() =~= Seq::<Seq<char>>::empty());
        assert(all.last() == first);
        reveal_with_fuel(Seq::filter_map, 2);
        assert(all.filter_map(f) =~= match f(first) {
            Some(x) => seq![x] + rest.filter_map(f),
            None => rest.filter_map(f),
        });
    } else {
        lemma_first_picked(first, rest.drop_last(), f);
        assert(all.drop_last() =~= seq![first] + rest.drop_last());
        assert(all.last() == rest.last());
        assert(all.filter_map(f) =~= match f(first) {
            Some(x) => seq![x] + rest.filter_map(f),
            None => rest.filter_map(f),
        });
    }
}

/// A package URL is written with a line feed behind it, and the one list behind the
/// other.
pub proof fn law_purls_are_written(a: Seq<Seq<char>>, b: Seq<Seq<char>>, purl: Seq<char>)
    ensures
        written(Seq::empty()).len() == 0,
        written(seq![purl]) == purl + seq!['\n'],
        written(a + b) == written(a) + written(b),
    decreases a.len(),
{
    reveal_strlit("\n");
    assert("\n"@ =~= seq!['\n']);
    let one = seq![purl];
    assert(one.drop_first() =~= Seq::<Seq<char>>::empty());
    reveal_with_fuel(written, 2);
    assert(written(one) =~= purl + seq!['\n']);
    if a.len() == 0 {
        assert(a + b =~= b);
        assert(written(a) + written(b) =~= written(b));
    } else {
        law_purls_are_written(a.drop_first(), b, purl);
        assert((a + b).drop_first() =~= a.drop_first() + b);
        assert(written(a + b) =~= written(a) + written(b));
    }
}

/// A text does not come behind another exactly where it is the beginning of the
/// other, or is below it in the first character in which they differ.
pub proof fn law_order_of_names(a: Seq<char>, b: Seq<char>)
    ensures
        in_order(a, b) <==> a.is_prefix_of(b) || exists|k: int|
            #![trigger a[k], b[k]]
            0 <= k < a.len() && k < b.len() && a.take(k) == b.take(k) && a[k] < b[k],
    decreases a.len(),
{
    if a.len() == 0 {
        assert(b.take(0) =~= a);
    } else if b.len() > 0 && a[0] == b[0] {
        let x = a.skip(1);
        let y = b.skip(1);
        law_order_of_names(x, y);
        if x.is_prefix_of(y) {
            assert(a =~= b.take(a.len() as int)) by {
                assert forall|i: int| 0 <= i < a.len() implies a[i] == b[i] by {
                    if i > 0 {
                        assert(x[i - 1] == a[i]);
                        assert(x == y.take(x.len() as int));
                        assert(y.take(x.len() as int)[i - 1] == y[i - 1]);
                        assert(y[i - 1] == b[i]);
                    }
                }
            }
        }
        if a.is_prefix_of(b) {
            assert(x =~= y.take(x.len() as int)) by {
                assert forall|i: int| 0 <= i < x.len() implies x[i] == y[i] by {
                    assert(a == b.take(a.len() as int));
                    assert(b.take(a.len() as int)[i + 1] == b[i + 1]);
                }
            }
        }
        if exists|k: int|
            #![trigger x[k], y[k]]
            0 <= k < x.len() && k < y.len() && x.take(k) == y.take(k) && x[k] < y[k] {
            let k = choose|k: int|
                #![trigger x[k], y[k]]
                0 <= k < x.len() && k < y.len() && x.take(k) == y.take(k) && x[k] < y[k];
            assert(a.take(k + 1) =~= b.take(k + 1)) by {
                assert forall|i: int| 0 <= i < k + 1 implies a[i] == b[i] by {
                    if i > 0 {
                        assert(x.take(k)[i - 1] == y.take(k)[i - 1]);
                    }
                }
            }
            assert(a[k + 1] < b[k + 1]);
        }
        if exists|k: int|
            #![trigger a[k], b[k]]
            0 <= k < a.len() && k < b.len() && a.take(k) == b.take(k) && a[k] < b[k] {
            let k = choose|k: int|
                #![trigger a[k], b[k]]
                0 <= k < a.len() && k < b.len() && a.take(k) == b.take(k) && a[k] < b[k];
            assert(k > 0);
            assert(x.take(k - 1) =~= y.take(k - 1)) by {
                assert forall|i: int| 0 <= i < k - 1 implies x[i] == y[i] by {
                    assert(a.take(k)[i + 1] == b.take(k)[i + 1]);
                }
            }
            assert(x[k - 1] < y[k - 1]);
        }
    } else if b.len() > 0 {
        if a.is_prefix_of(b) {
            assert(a == b.take(a.len() as int));
            assert(b.take(a.len() as int)[0] == b[0]);
        }
        if a[0] < b[0] {
            assert(a.take(0) =~= b.take(0));
        }
        if exists|k: int|
            #![trigger a[k], b[k]]
            0 <= k < a.len() && k < b.len() && a.take(k) == b.take(k) && a[k] < b[k] {
            let k = choose|k: int|
                #![trigger a[k], b[k]]
                0 <= k < a.len() && k < b.len() && a.take(k) == b.take(k) && a[k] < b[k];
            if k > 0 {
                assert(a.take(k)[0] == b.take(k)[0]);
            }
        }
    }
}

} // verus!
