//! A map from pairs of texts to values that keeps its keys in the order in which
//! they first came.

use vstd::prelude::*;

use crate::str_map::StrMap;

verus! {

/// A pair of texts.
pub type Pair = (Seq<char>, Seq<char>);

/// The texts of a list of pairs of strings.
pub open spec fn pair_texts(v: Seq<(String, String)>) -> Seq<Pair> {
    v.map_values(|p: (String, String)| (p.0@, p.1@))
}

struct Store<V> {
    keys: Vec<(String, String)>,
    values: Vec<V>,
    index: StrMap<StrMap<usize>>,
}

/// A map whose keys are pairs of texts. A key stands where it was first
/// inserted; its value is the one that was last inserted under it.
pub struct PairMap<V> {
    store: Store<V>,
}

spec fn noted(index: StrMap<StrMap<usize>>, p: Pair) -> bool {
    index@.contains_key(p.0) && index@[p.0]@.contains_key(p.1)
}

spec fn place(index: StrMap<StrMap<usize>>, p: Pair) -> int {
    index@[p.0]@[p.1] as int
}

/// Where a pair stands.
fn find(index: &StrMap<StrMap<usize>>, a: &str, b: &str) -> (r: Option<usize>)
    ensures
        match r {
            Some(i) => noted(*index, (a@, b@)) && place(*index, (a@, b@)) == i,
            None => !noted(*index, (a@, b@)),
        },
{
    match index.get(a) {
        Some(row) => match row.get(b) {
            Some(i) => Some(*i),
            None => None,
        },
        None => None,
    }
}

/// Keeps where a pair stands.
fn note(index: &mut StrMap<StrMap<usize>>, a: &str, b: &str, i: usize)
    ensures
        forall|p: Pair| #[trigger]
            noted(*final(index), p) <==> p == (a@, b@) || noted(*old(index), p),
        forall|p: Pair|
            noted(*final(index), p) ==> #[trigger] place(*final(index), p) == (if p == (a@, b@) {
                i as int
            } else {
                place(*old(index), p)
            }),
{
    let mut row = if index.contains_key(a) {
        index.replace(a, StrMap::new())
    } else {
        StrMap::new()
    };
    row.insert(b.to_owned(), i);
    index.insert(a.to_owned(), row);
}

impl<V> Store<V> {
    spec fn key(self, i: int) -> Pair {
        (self.keys@[i].0@, self.keys@[i].1@)
    }

    spec fn wf(self) -> bool {
        &&& self.keys@.len() == self.values@.len()
        &&& forall|i: int|
            0 <= i < self.keys@.len() ==> noted(self.index, #[trigger] self.key(i)) && place(
                self.index,
                self.key(i),
            ) == i
        &&& forall|p: Pair| #[trigger]
            noted(self.index, p) ==> 0 <= place(self.index, p) < self.keys@.len() && self.key(
                place(self.index, p),
            ) == p
    }

    spec fn map(self) -> Map<Pair, V> {
        Map::new(|p: Pair| noted(self.index, p), |p: Pair| self.values@[place(self.index, p)])
    }

    proof fn lemma_keys(self)
        requires
            self.wf(),
        ensures
            pair_texts(self.keys@).no_duplicates(),
            pair_texts(self.keys@).to_set() == self.map().dom(),
    {
        let ks = pair_texts(self.keys@);
        assert forall|i: int, j: int| 0 <= i < ks.len() && 0 <= j < ks.len() && i != j implies ks[i]
            != ks[j] by {
            assert(place(self.index, self.key(i)) == i);
            assert(place(self.index, self.key(j)) == j);
        }
        assert forall|p: Pair| ks.to_set().contains(p) <==> self.map().dom().contains(p) by {
            if ks.contains(p) {
                let i = choose|i: int| 0 <= i < ks.len() && ks[i] == p;
                assert(noted(self.index, self.key(i)));
            }
            if noted(self.index, p) {
                assert(ks[place(self.index, p)] == p);
            }
        }
    }

    fn new() -> (r: Self)
        ensures
            r.wf(),
            r.map() == Map::<Pair, V>::empty(),
            r.keys@ == Seq::<(String, String)>::empty(),
    {
        let r = Store { keys: Vec::new(), values: Vec::new(), index: StrMap::new() };
        assert(r.map() =~= Map::<Pair, V>::empty());
        r
    }

    fn put(&mut self, a: &str, b: &str, v: V)
        requires
            old(self).wf(),
        ensures
            final(self).wf(),
            final(self).map() == old(self).map().insert((a@, b@), v),
            pair_texts(final(self).keys@) == (if old(self).map().contains_key((a@, b@)) {
                pair_texts(old(self).keys@)
            } else {
                pair_texts(old(self).keys@).push((a@, b@))
            }),
    {
        match find(&self.index, a, b) {
            Some(i) => {
                let ghost before = *self;
                self.values.set(i, v);
                assert forall|j: int| 0 <= j < self.keys@.len() implies noted(
                    self.index,
                    #[trigger] self.key(j),
                ) && place(self.index, self.key(j)) == j by {
                    assert(noted(before.index, before.key(j)));
                }
                assert forall|p: Pair| #[trigger] noted(self.index, p) implies 0 <= place(self.index, p)
                    < self.keys@.len() && self.key(place(self.index, p)) == p by {
                    assert(before.key(place(before.index, p)) == p);
                }
            },
            None => {
                let i = self.keys.len();
                let ghost before = *self;
                note(&mut self.index, a, b, i);
                self.keys.push((a.to_owned(), b.to_owned()));
                self.values.push(v);
                assert(self.key(i as int) == (a@, b@));
                assert forall|j: int| 0 <= j < self.keys@.len() implies noted(
                    self.index,
                    #[trigger] self.key(j),
                ) && place(self.index, self.key(j)) == j by {
                    if j < i {
                        assert(self.key(j) == before.key(j));
                        assert(noted(before.index, before.key(j)));
                    }
                }
                assert forall|p: Pair| #[trigger] noted(self.index, p) implies 0 <= place(self.index, p)
                    < self.keys@.len() && self.key(place(self.index, p)) == p by {
                    if p != (a@, b@) {
                        assert(noted(before.index, p));
                        assert(self.key(place(before.index, p)) == before.key(place(before.index, p)));
                    }
                }
                assert(pair_texts(self.keys@) =~= pair_texts(before.keys@).push((a@, b@)));
            },
        }
        assert(self.map() =~= old(self).map().insert((a@, b@), v));
    }
}

impl<V> View for PairMap<V> {
    type V = Map<Pair, V>;

    closed spec fn view(&self) -> Map<Pair, V> {
        self.store.map()
    }
}

impl<V> PairMap<V> {
    #[verifier::type_invariant]
    spec fn wf(self) -> bool {
        self.store.wf()
    }

    /// The keys, in the order in which they first came.
    pub closed spec fn keys(&self) -> Seq<Pair> {
        pair_texts(self.store.keys@)
    }

    /// The keys are those of the map, each once.
    pub open spec fn coherent(&self) -> bool {
        &&& self.keys().no_duplicates()
        &&& self.keys().to_set() == self@.dom()
    }

    pub fn new() -> (r: Self)
        ensures
            r@ == Map::<Pair, V>::empty(),
            r.keys() == Seq::<Pair>::empty(),
    {
        let store = Store::new();
        assert(pair_texts(store.keys@) =~= Seq::<Pair>::empty());
        PairMap { store }
    }

    pub fn len(&self) -> (n: usize)
        ensures
            n == self.keys().len(),
            self.coherent(),
    {
        proof {
            use_type_invariant(self);
            self.store.lemma_keys();
        }
        self.store.keys.len()
    }

    /// The key at a position.
    pub fn key_at(&self, i: usize) -> (k: (&str, &str))
        requires
            i < self.keys().len(),
        ensures
            (k.0@, k.1@) == self.keys()[i as int],
            self@.contains_key((k.0@, k.1@)),
    {
        proof {
            use_type_invariant(self);
            assert(noted(self.store.index, self.store.key(i as int)));
        }
        let key = &self.store.keys[i];
        (key.0.as_str(), key.1.as_str())
    }

    /// The value of the key at a position.
    pub fn value_at(&self, i: usize) -> (v: &V)
        requires
            i < self.keys().len(),
        ensures
            self@.contains_key(self.keys()[i as int]),
            *v == self@[self.keys()[i as int]],
    {
        proof {
            use_type_invariant(self);
            assert(noted(self.store.index, self.store.key(i as int)));
        }
        &self.store.values[i]
    }

    pub fn get(&self, a: &str, b: &str) -> (v: Option<&V>)
        ensures
            match v {
                Some(v) => self@.contains_key((a@, b@)) && *v == self@[(a@, b@)],
                None => !self@.contains_key((a@, b@)),
            },
    {
        proof {
            use_type_invariant(self);
        }
        match find(&self.store.index, a, b) {
            Some(i) => Some(&self.store.values[i]),
            None => None,
        }
    }

    pub fn contains_key(&self, a: &str, b: &str) -> (r: bool)
        ensures
            r == self@.contains_key((a@, b@)),
    {
        find(&self.store.index, a, b).is_some()
    }

    /// Puts a value under a pair; a pair that is there already keeps its place.
    pub fn insert(&mut self, a: &str, b: &str, v: V)
        ensures
            final(self)@ == old(self)@.insert((a@, b@), v),
            final(self).keys() == (if old(self)@.contains_key((a@, b@)) {
                old(self).keys()
            } else {
                old(self).keys().push((a@, b@))
            }),
    {
        proof {
            use_type_invariant(&*self);
        }
        let mut store = Store::new();
        std::mem::swap(&mut store, &mut self.store);
        store.put(a, b, v);
        self.store = store;
    }
}

} // verus!
