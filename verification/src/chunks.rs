//! Lists cut into chunks of a size, and what comes back of the chunks.

use vstd::prelude::*;

use crate::text::texts;

verus! {

/// A list in chunks: each of that size, but for the last, which has what is left.
pub open spec fn chunks_of<T>(s: Seq<T>, size: int) -> Seq<Seq<T>>
    decreases s.len(),
{
    if s.len() == 0 || size <= 0 {
        Seq::empty()
    } else if s.len() <= size {
        seq![s]
    } else {
        seq![s.take(size)] + chunks_of(s.skip(size), size)
    }
}

/// The lists of texts in a list.
pub open spec fn text_lists(v: Seq<Vec<String>>) -> Seq<Seq<Seq<char>>> {
    v.map_values(|texts_of: Vec<String>| texts(texts_of@))
}

/// A list of texts in chunks.
pub fn split_into_chunks(all: &Vec<String>, size: usize) -> (r: Vec<Vec<String>>)
    requires
        size > 0,
    ensures
        text_lists(r@) == chunks_of(texts(all@), size as int),
{
    let ghost full = texts(all@);
    let n = all.len();
    let mut r: Vec<Vec<String>> = Vec::new();
    let mut start: usize = 0;
    assert(full.skip(0) =~= full);
    assert(text_lists(r@) =~= Seq::<Seq<Seq<char>>>::empty());
    assert(text_lists(r@) + chunks_of(full.skip(0), size as int) =~= chunks_of(full, size as int));
    while start < n
        invariant
            size > 0,
            n == all@.len(),
            full == texts(all@),
            start <= n,
            text_lists(r@) + chunks_of(full.skip(start as int), size as int) == chunks_of(
                full,
                size as int,
            ),
        decreases n - start,
    {
        let ghost rest = full.skip(start as int);
        let ghost before = r@;
        let left = n - start;
        let take = if left <= size {
            left
        } else {
            size
        };
        let mut chunk: Vec<String> = Vec::new();
        for i in 0..take
            invariant
                full == texts(all@),
                rest == full.skip(start as int),
                n == all@.len(),
                start + take <= n,
                texts(chunk@) == rest.take(i as int),
        {
            let ghost held = chunk@;
            chunk.push(all[start + i].clone());
            assert(texts(chunk@) =~= texts(held).push(full[start + i]));
            assert(rest.take(i + 1) =~= rest.take(i as int).push(full[start + i]));
        }
        r.push(chunk);
        proof {
            assert(text_lists(r@) =~= text_lists(before).push(rest.take(take as int)));
            assert(rest.skip(take as int) =~= full.skip(start + take));
            assert(rest.len() == left);
            if left <= size {
                assert(rest.take(take as int) =~= rest);
                assert(chunks_of(rest, size as int) =~= seq![rest]);
                assert(chunks_of(full.skip(start + take), size as int) =~= Seq::<
                    Seq<Seq<char>>,
                >::empty());
            }
            assert(text_lists(r@) + chunks_of(full.skip(start + take), size as int) =~= text_lists(
                before,
            ) + chunks_of(rest, size as int));
        }
        start += take;
    }
    assert(chunks_of(full.skip(start as int), size as int) =~= Seq::<Seq<Seq<char>>>::empty());
    assert(text_lists(r@) =~= chunks_of(full, size as int));
    r
}

/// There are as many chunks as it takes to hold the list.
pub proof fn law_number_of_chunks<T>(s: Seq<T>, size: int)
    requires
        size > 0,
    ensures
        chunks_of(s, size).len() == (s.len() + size - 1) / size,
    decreases s.len(),
{
    let n = s.len() as int;
    if n == 0 {
        vstd::arithmetic::div_mod::lemma_basic_div(size - 1, size);
    } else if n <= size {
        vstd::arithmetic::div_mod::lemma_basic_div(n - 1, size);
        vstd::arithmetic::div_mod::lemma_div_plus_one(n - 1, size);
    } else {
        law_number_of_chunks(s.skip(size), size);
        vstd::arithmetic::div_mod::lemma_div_plus_one(n - 1, size);
    }
}

/// The chunks, one after the other, are the list.
pub proof fn law_chunks_are_the_list<T>(s: Seq<T>, size: int)
    requires
        size > 0,
    ensures
        chunks_of(s, size).flatten() == s,
    decreases s.len(),
{
    broadcast use vstd::seq_lib::group_seq_properties;

    if s.len() == 0 {
        assert(chunks_of(s, size).flatten() =~= s);
    } else if s.len() <= size {
        let one = seq![s];
        assert(one.drop_first() =~= Seq::<Seq<T>>::empty());
        assert(one.flatten() =~= s + Seq::<Seq<T>>::empty().flatten());
    } else {
        let tail = chunks_of(s.skip(size), size);
        law_chunks_are_the_list(s.skip(size), size);
        let all = seq![s.take(size)] + tail;
        assert(all.drop_first() =~= tail);
        assert(all.flatten() == all.first() + tail.flatten());
        assert(s.take(size) + s.skip(size) =~= s);
    }
}

/// No chunk is empty or above the size, and all but the last have the size.
pub proof fn law_chunk_sizes<T>(s: Seq<T>, size: int, k: int)
    requires
        size > 0,
        0 <= k < chunks_of(s, size).len(),
    ensures
        0 < chunks_of(s, size)[k].len() <= size,
        k < chunks_of(s, size).len() - 1 ==> chunks_of(s, size)[k].len() == size,
    decreases s.len(),
{
    if s.len() > size && k > 0 {
        law_chunk_sizes(s.skip(size), size, k - 1);
    }
    if s.len() > size {
        assert(chunks_of(s.skip(size), size).len() > 0);
    }
}

} // verus!
