//! A map from texts to values that keeps its keys in the order in which they
//! first came.

use vstd::hash_map::StringHashMap;
use vstd::prelude::*;

use crate::text::texts;

verus! {

struct Store<V> {
    keys: Vec<String>,
    values: Vec<V>,
    index: StringHashMap<usize>,
}

/// A map whose keys are texts. A key stands where it was first inserted; its
/// value is the one that was last inserted under it.
pub struct StrMap<V> {
    store: Store<V>,
}

impl<V> Store<V> {
    spec fn wf(self) -> bool {
        &&& self.keys@.len() == self.values@.len()
        &&& forall|i: int|
            0 <= i < self.keys@.len() ==> {
                &&& self.index@.contains_key(#[trigger] self.keys@[i]@)
                &&& self.index@[self.keys@[i]@] == i
            }
        &&& forall|k: Seq<char>| #[trigger]
            self.index@.contains_key(k) ==> {
                &&& self.index@[k] < self.keys@.len()
                &&& self.keys@[self.index@[k] as int]@ == k
            }
    }

    spec fn map(self) -> Map<Seq<char>, V> {
        Map::new(
            |k: Seq<char>| self.index@.contains_key(k),
            |k: Seq<char>| self.values@[self.index@[k] as int],
        )
    }

    proof fn lemma_keys(self)
        requires
            self.wf(),
        ensures
            texts(self.keys@).no_duplicates(),
            texts(self.keys@).to_set() == self.map().dom(),
    {
        let ks = texts(self.keys@);
        assert forall|i: int, j: int| 0 <= i < ks.len() && 0 <= j < ks.len() && i != j implies ks[i]
            != ks[j] by {
            assert(self.index@[self.keys@[i]@] == i);
            assert(self.index@[self.keys@[j]@] == j);
        }
        assert forall|k: Seq<char>| ks.to_set().contains(k) <==> self.map().dom().contains(k) by {
            if ks.contains(k) {
                let i = choose|i: int| 0 <= i < ks.len() && ks[i] == k;
                assert(self.index@.contains_key(self.keys@[i]@));
            }
            if self.index@.contains_key(k) {
                assert(ks[self.index@[k] as int] == k);
            }
        }
    }

    fn new() -> (r: Self)
        ensures
            r.wf(),
            r.map() == Map::<Seq<char>, V>::empty(),
            r.keys@ == Seq::<String>::empty(),
    {
        let r = Store { keys: Vec::new(), values: Vec::new(), index: StringHashMap::new() };
        assert(r.map() =~= Map::<Seq<char>, V>::empty());
        r
    }

    fn put(&mut self, k: String, v: V)
        requires
            old(self).wf(),
        ensures
            final(self).wf(),
            final(self).map() == old(self).map().insert(k@, v),
            texts(final(self).keys@) == (if old(self).map().contains_key(k@) {
                texts(old(self).keys@)
            } else {
                texts(old(self).keys@).push(k@)
            }),
    {
        let found = match self.index.get(k.as_str()) {
            Some(i) => Some(*i),
            None => None,
        };
        match found {
            Some(i) => {
                self.values.set(i, v);
            },
            None => {
                let i = self.keys.len();
                let ghost before = *self;
                self.index.insert(k.clone(), i);
                self.keys.push(k);
                self.values.push(v);
                assert forall|j: int| 0 <= j < self.keys@.len() implies {
                    &&& self.index@.contains_key(#[trigger] self.keys@[j]@)
                    &&& self.index@[self.keys@[j]@] == j
                } by {
                    if j < i {
                        assert(before.index@.contains_key(before.keys@[j]@));
                    }
                }
                assert(texts(self.keys@) =~= texts(before.keys@).push(k@));
            },
        }
        assert(self.map() =~= old(self).map().insert(k@, v));
    }
}

impl<V> View for StrMap<V> {
    type V = Map<Seq<char>, V>;

    closed spec fn view(&self) -> Map<Seq<char>, V> {
        self.store.map()
    }
}

impl<V> StrMap<V> {
    #[verifier::type_invariant]
    spec fn wf(self) -> bool {
        self.store.wf()
    }

    /// The keys, in the order in which they first came.
    pub closed spec fn keys(&self) -> Seq<Seq<char>> {
        texts(self.store.keys@)
    }

    /// The keys are those of the map, each once.
    pub open spec fn coherent(&self) -> bool {
        &&& self.keys().no_duplicates()
        &&& self.keys().to_set() == self@.dom()
    }

    pub fn new() -> (r: Self)
        ensures
            r@ == Map::<Seq<char>, V>::empty(),
            r.keys() == Seq::<Seq<char>>::empty(),
    {
        let store = Store::new();
        assert(texts(store.keys@) =~= Seq::<Seq<char>>::empty());
        StrMap { store }
    }

    pub fn len(&self) -> (n: usize)
        ensures
            n == self.keys().len(),
            self.coherent(),
    {
        proof {
            use_type_invariant(self);
            self.store.lemma_keys();
        }
        self.store.keys.len()
    }

    /// The key at a position.
    pub fn key_at(&self, i: usize) -> (k: &String)
        requires
            i < self.keys().len(),
        ensures
            k@ == self.keys()[i as int],
            self@.contains_key(k@),
    {
        proof {
            use_type_invariant(self);
            self.store.lemma_keys();
            assert(self.keys().to_set().contains(self.keys()[i as int]));
        }
        &self.store.keys[i]
    }

    /// The value of the key at a position.
    pub fn value_at(&self, i: usize) -> (v: &V)
        requires
            i < self.keys().len(),
        ensures
            self@.contains_key(self.keys()[i as int]),
            *v == self@[self.keys()[i as int]],
    {
        proof {
            use_type_invariant(self);
            assert(self.store.index@.contains_key(self.store.keys@[i as int]@));
        }
        &self.store.values[i]
    }

    pub fn get(&self, k: &str) -> (v: Option<&V>)
        ensures
            match v {
                Some(v) => self@.contains_key(k@) && *v == self@[k@],
                None => !self@.contains_key(k@),
            },
    {
        proof {
            use_type_invariant(self);
        }
        match self.store.index.get(k) {
            Some(i) => Some(&self.store.values[*i]),
            None => None,
        }
    }

    pub fn contains_key(&self, k: &str) -> (r: bool)
        ensures
            r == self@.contains_key(k@),
    {
        self.store.index.contains_key(k)
    }

    /// Puts a value under a key; a key that is there already keeps its place.
    pub fn insert(&mut self, k: String, v: V)
        ensures
            final(self)@ == old(self)@.insert(k@, v),
            final(self).keys() == (if old(self)@.contains_key(k@) {
                old(self).keys()
            } else {
                old(self).keys().push(k@)
            }),
    {
        proof {
            use_type_invariant(&*self);
        }
        let mut store = Store::new();
        std::mem::swap(&mut store, &mut self.store);
        store.put(k, v);
        self.store = store;
    }

    /// Takes the value of a key out and leaves another in its place.
    pub fn replace(&mut self, k: &str, v: V) -> (taken: V)
        requires
            old(self)@.contains_key(k@),
        ensures
            taken == old(self)@[k@],
            final(self)@ == old(self)@.insert(k@, v),
            final(self).keys() == old(self).keys(),
    {
        proof {
            use_type_invariant(&*self);
        }
        let mut store = Store::new();
        std::mem::swap(&mut store, &mut self.store);
        let i = match store.index.get(k) {
            Some(i) => *i,
            None => 0,
        };
        let ghost before = store;
        let mut taken = v;
        std::mem::swap(&mut taken, &mut store.values[i]);
        assert(store.map() =~= before.map().insert(k@, v));
        self.store = store;
        taken
    }

    /// The keys and, in the same order, their values.
    pub fn into_parts(self) -> (r: (Vec<String>, Vec<V>))
        ensures
            self.coherent(),
            texts(r.0@) == self.keys(),
            r.1@.len() == r.0@.len(),
            forall|i: int|
                0 <= i < r.1@.len() ==> self@.contains_key(self.keys()[i]) && #[trigger] r.1@[i]
                    == self@[self.keys()[i]],
    {
        proof {
            use_type_invariant(&self);
            self.store.lemma_keys();
            assert forall|i: int| 0 <= i < self.keys().len() implies self@.contains_key(
                self.keys()[i],
            ) && #[trigger] self.store.values@[i] == self@[self.keys()[i]] by {
                assert(self.store.index@.contains_key(self.store.keys@[i]@));
            }
        }
        (self.store.keys, self.store.values)
    }
}

} // verus!
