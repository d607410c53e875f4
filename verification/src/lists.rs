//! What lists that are made of other lists hold.

use vstd::prelude::*;

verus! {

pub proof fn lemma_add_contains<A>(a: Seq<A>, b: Seq<A>, x: A)
    ensures
        (a + b).contains(x) <==> a.contains(x) || b.contains(x),
{
    let all = a + b;
    if a.contains(x) {
        let i = choose|i: int| 0 <= i < a.len() && a[i] == x;
        assert(all[i] == x);
    }
    if b.contains(x) {
        let i = choose|i: int| 0 <= i < b.len() && b[i] == x;
        assert(all[a.len() + i] == x);
    }
    if all.contains(x) {
        let i = choose|i: int| 0 <= i < all.len() && all[i] == x;
        if i < a.len() {
            assert(a[i] == x);
        } else {
            assert(b[i - a.len()] == x);
        }
    }
}

pub proof fn lemma_flat_map_last<A, B>(s: Seq<A>, f: spec_fn(A) -> Seq<B>)
    ensures
        s.len() == 0 ==> s.flat_map(f) == Seq::<B>::empty(),
        s.len() > 0 ==> s.flat_map(f) == s.drop_last().flat_map(f) + f(s.last()),
{
    if s.len() == 0 {
        assert(s.flat_map(f) =~= Seq::<B>::empty());
    } else {
        let n = s.len() - 1;
        s.lemma_flat_map_take_append(f, n);
        assert(s.take(n + 1) =~= s);
        assert(s.take(n) =~= s.drop_last());
    }
}

/// A list that is made of lists holds what one of them holds.
pub proof fn lemma_flat_map_contains<A, B>(s: Seq<A>, f: spec_fn(A) -> Seq<B>, x: B)
    ensures
        s.flat_map(f).contains(x) <==> exists|i: int|
            0 <= i < s.len() && f(#[trigger] s[i]).contains(x),
    decreases s.len(),
{
    lemma_flat_map_last(s, f);
    if s.len() > 0 {
        let rest = s.drop_last();
        lemma_flat_map_contains(rest, f, x);
        lemma_add_contains(rest.flat_map(f), f(s.last()), x);
        if rest.flat_map(f).contains(x) {
            let i = choose|i: int| 0 <= i < rest.len() && f(#[trigger] rest[i]).contains(x);
            assert(f(s[i]).contains(x));
        }
        if exists|i: int| 0 <= i < s.len() && f(#[trigger] s[i]).contains(x) {
            let i = choose|i: int| 0 <= i < s.len() && f(#[trigger] s[i]).contains(x);
            if i < rest.len() {
                assert(f(rest[i]).contains(x));
            }
        }
    }
}

/// What is picked from a list is what one of its items gives.
pub proof fn lemma_filter_map_contains<A, B>(s: Seq<A>, f: spec_fn(A) -> Option<B>, x: B)
    ensures
        s.filter_map(f).contains(x) <==> exists|i: int|
            0 <= i < s.len() && f(#[trigger] s[i]) == Some(x),
    decreases s.len(),
{
    if s.len() > 0 {
        let rest = s.drop_last();
        lemma_filter_map_contains(rest, f, x);
        if let Some(y) = f(s.last()) {
            lemma_add_contains(rest.filter_map(f), seq![y], x);
            assert(seq![y].contains(x) <==> x == y) by {
                assert(seq![y][0] == y);
            }
        }
        if rest.filter_map(f).contains(x) {
            let i = choose|i: int| 0 <= i < rest.len() && f(#[trigger] rest[i]) == Some(x);
            assert(f(s[i]) == Some(x));
        }
        if exists|i: int| 0 <= i < s.len() && f(#[trigger] s[i]) == Some(x) {
            let i = choose|i: int| 0 <= i < s.len() && f(#[trigger] s[i]) == Some(x);
            if i < rest.len() {
                assert(f(rest[i]) == Some(x));
            }
        }
    }
}

/// What is kept of a list is in the list and of the sort that is kept.
pub proof fn lemma_filter_contains<A>(s: Seq<A>, f: spec_fn(A) -> bool, x: A)
    ensures
        s.filter(f).contains(x) <==> s.contains(x) && f(x),
    decreases s.len(),
{
    reveal(Seq::filter);
    if s.len() > 0 {
        let rest = s.drop_last();
        lemma_filter_contains(rest, f, x);
        assert(rest.push(s.last()) =~= s);
        assert(rest + seq![s.last()] =~= s);
        lemma_add_contains(rest, seq![s.last()], x);
        lemma_add_contains(rest.filter(f), seq![s.last()], x);
        assert(rest.filter(f) + seq![s.last()] =~= rest.filter(f).push(s.last()));
        assert(seq![s.last()].contains(x) <==> x == s.last()) by {
            assert(seq![s.last()][0] == s.last());
        }
    }
}

/// The sum of what the items of a list count for.
pub open spec fn total<A>(s: Seq<A>, count: spec_fn(A) -> nat) -> nat
    decreases s.len(),
{
    if s.len() == 0 {
        0
    } else {
        total(s.drop_last(), count) + count(s.last())
    }
}

/// A list that is made of lists is as long as they are together.
pub proof fn lemma_flat_map_len<A, B>(
    s: Seq<A>,
    f: spec_fn(A) -> Seq<B>,
    count: spec_fn(A) -> nat,
)
    requires
        forall|i: int| 0 <= i < s.len() ==> f(#[trigger] s[i]).len() == count(s[i]),
    ensures
        s.flat_map(f).len() == total(s, count),
    decreases s.len(),
{
    lemma_flat_map_last(s, f);
    if s.len() > 0 {
        let rest = s.drop_last();
        assert forall|i: int| 0 <= i < rest.len() implies f(#[trigger] rest[i]).len() == count(
            rest[i],
        ) by {
            assert(rest[i] == s[i]);
        }
        lemma_flat_map_len(rest, f, count);
        assert(f(s[s.len() - 1]).len() == count(s[s.len() - 1]));
    }
}

} // verus!
