//! A small map that keeps its entries in the order in which their keys
//! first came in.

use vstd::prelude::*;

verus! {

/// What can serve as a key: a value whose view says which key it is, and
/// which can tell whether another one is the same key.
pub trait Label: View + Sized {
    /// Whether the other value is the same key.
    fn same(&self, other: &Self) -> (r: bool)
        ensures
            r == (self@ == other@),
    ;
}

impl Label for String {
    fn same(&self, other: &Self) -> (r: bool) {
        *self == *other
    }
}

/// A map from keys to values. No key occurs twice.
pub struct KeyedMap<K: Label, V> {
    keys: Vec<K>,
    values: Vec<V>,
}

/// A map keyed by text.
pub type TextMap<V> = KeyedMap<String, V>;

impl<K: Label, V> KeyedMap<K, V> {
    #[verifier::type_invariant]
    spec fn valid(self) -> bool {
        &&& self.keys.len() == self.values.len()
        &&& forall|i: int, j: int|
            0 <= i < j < self.keys.len() ==> self.keys[i]@ != self.keys[j]@
    }

    /// The keys, in the order in which they first came in.
    pub closed spec fn labels(self) -> Seq<K::V> {
        Seq::new(self.keys.len() as nat, |i: int| self.keys[i]@)
    }

    /// The values, each at the place of its key in [`KeyedMap::labels`].
    pub closed spec fn items(self) -> Seq<V> {
        self.values@
    }

    /// What the map holds.
    pub closed spec fn view(self) -> Map<K::V, V> {
        Map::new(
            |k: K::V| exists|i: int| 0 <= i < self.keys.len() && self.keys[i]@ == k,
            |k: K::V| self.values[choose|i: int| 0 <= i < self.keys.len() && self.keys[i]@ == k],
        )
    }

    /// How labels, items and the map hang together: the labels are the keys
    /// of the map, each once, and the item at the place of a label is the
    /// value of that key.
    pub open spec fn consistent(self) -> bool {
        &&& self.labels().len() == self.items().len()
        &&& self.labels().no_duplicates()
        &&& forall|i: int|
            0 <= i < self.labels().len() ==> self@.contains_key(#[trigger] self.labels()[i])
                && self@[self.labels()[i]] == self.items()[i]
        &&& forall|k: K::V| self@.contains_key(k) ==> self.labels().contains(k)
    }

    proof fn lemma_consistent(self)
        requires
            self.valid(),
        ensures
            self.consistent(),
    {
        assert forall|i: int| 0 <= i < self.labels().len() implies self@.contains_key(
            #[trigger] self.labels()[i],
        ) && self@[self.labels()[i]] == self.items()[i] by {
            let k = self.keys[i]@;
            let j = choose|j: int| 0 <= j < self.keys.len() && self.keys[j]@ == k;
            assert(j == i);
        }
        assert forall|k: K::V| self@.contains_key(k) implies self.labels().contains(k) by {
            let j = choose|j: int| 0 <= j < self.keys.len() && self.keys[j]@ == k;
            assert(self.labels()[j] == k);
        }
    }

    /// A map without entries.
    pub fn new() -> (r: Self)
        ensures
            r@ == Map::<K::V, V>::empty(),
            r.labels() == Seq::<K::V>::empty(),
    {
        let r = KeyedMap { keys: Vec::new(), values: Vec::new() };
        assert(r@ =~= Map::<K::V, V>::empty());
        assert(r.labels() =~= Seq::<K::V>::empty());
        r
    }

    /// The number of entries.
    pub fn len(&self) -> (n: usize)
        ensures
            n == self.labels().len(),
            self.consistent(),
    {
        proof {
            use_type_invariant(self);
            self.lemma_consistent();
        }
        self.keys.len()
    }

    /// The key at a place.
    pub fn label(&self, i: usize) -> (r: &K)
        requires
            i < self.labels().len(),
        ensures
            r@ == self.labels()[i as int],
    {
        &self.keys[i]
    }

    /// The value at a place.
    pub fn item(&self, i: usize) -> (r: &V)
        requires
            i < self.items().len(),
        ensures
            *r == self.items()[i as int],
    {
        &self.values[i]
    }

    /// The place of a key, if the map holds it.
    pub fn find(&self, key: &K) -> (r: Option<usize>)
        ensures
            match r {
                Some(i) => i < self.labels().len() && self.labels()[i as int] == key@
                    && self@.contains_key(key@) && self@[key@] == self.items()[i as int],
                None => !self@.contains_key(key@),
            },
    {
        proof {
            use_type_invariant(self);
        }
        let mut i: usize = 0;
        while i < self.keys.len()
            invariant
                i <= self.keys.len(),
                self.valid(),
                forall|j: int| 0 <= j < i ==> self.keys[j]@ != key@,
            decreases self.keys.len() - i,
        {
            if self.keys[i].same(key) {
                proof {
                    self.lemma_consistent();
                    assert(self.labels()[i as int] == key@);
                }
                return Some(i);
            }
            i += 1;
        }
        None
    }

    /// The value of a key, if the map holds it.
    pub fn get(&self, key: &K) -> (r: Option<&V>)
        ensures
            match r {
                Some(v) => self@.contains_key(key@) && *v == self@[key@],
                None => !self@.contains_key(key@),
            },
    {
        proof {
            use_type_invariant(self);
        }
        match self.find(key) {
            Some(i) => Some(&self.values[i]),
            None => None,
        }
    }

    /// Gives `key` the value `value`, whether or not the map held the key.
    /// A new key goes behind the others; a known key keeps its place.
    pub fn insert(&mut self, key: K, value: V)
        ensures
            final(self)@ == old(self)@.insert(key@, value),
            old(self)@.contains_key(key@) ==> final(self).labels() == old(self).labels(),
            !old(self)@.contains_key(key@) ==> final(self).labels() == old(self).labels().push(
                key@,
            ),
    {
        let mut held = KeyedMap::new();
        std::mem::swap(self, &mut held);
        proof {
            use_type_invariant(&held);
        }
        let found = held.find(&key);
        let KeyedMap { mut keys, mut values } = held;
        let ghost before = KeyedMap { keys, values };
        match found {
            Some(i) => {
                values.set(i, value);
                let next = KeyedMap { keys, values };
                proof {
                    assert(next.labels() =~= before.labels());
                    assert forall|k: K::V| #[trigger]
                        next@.contains_key(k) == before@.insert(key@, value).contains_key(k) by {}
                    assert forall|k: K::V| next@.contains_key(k) implies next@[k]
                        == before@.insert(key@, value)[k] by {
                        let j = choose|j: int| 0 <= j < next.keys.len() && next.keys[j]@ == k;
                        assert(next.keys[j]@ == before.keys[j]@);
                    }
                    assert(next@ =~= before@.insert(key@, value));
                }
                *self = next;
            },
            None => {
                let ghost text = key@;
                keys.push(key);
                values.push(value);
                let next = KeyedMap { keys, values };
                proof {
                    let n = before.keys.len() as int;
                    assert(next.keys[n]@ == text);
                    assert forall|i: int, j: int| 0 <= i < j < next.keys.len() implies next.keys[i]@
                        != next.keys[j]@ by {
                        if j == n {
                            assert(before.keys[i]@ == next.keys[i]@);
                            assert(before@.contains_key(before.keys[i]@));
                        } else {
                            assert(before.keys[i]@ == next.keys[i]@);
                            assert(before.keys[j]@ == next.keys[j]@);
                        }
                    }
                    assert(next.labels() =~= before.labels().push(text));
                    assert forall|k: K::V| #[trigger]
                        next@.contains_key(k) == before@.insert(text, value).contains_key(k) by {
                        if before@.contains_key(k) {
                            let j = choose|j: int| 0 <= j < before.keys.len() && before.keys[j]@ == k;
                            assert(next.keys[j]@ == k);
                        }
                        if next@.contains_key(k) && k != text {
                            let j = choose|j: int| 0 <= j < next.keys.len() && next.keys[j]@ == k;
                            assert(before.keys[j]@ == k);
                        }
                    }
                    assert forall|k: K::V| next@.contains_key(k) implies next@[k]
                        == before@.insert(text, value)[k] by {
                        let j = choose|j: int| 0 <= j < next.keys.len() && next.keys[j]@ == k;
                        if k != text {
                            assert(before.keys[j]@ == k);
                            let b = choose|b: int| 0 <= b < before.keys.len() && before.keys[b]@ == k;
                            assert(before.keys[b]@ == next.keys[b]@);
                            assert(b == j);
                        }
                    }
                    assert(next@ =~= before@.insert(text, value));
                }
                *self = next;
            },
        }
    }
}

} // verus!
