//! A small insertion-ordered map keyed by byte strings.
//!
//! Keys are kept in the order in which they were first inserted, and no key
//! occurs twice. Walking the map is therefore deterministic, which the
//! snapshot writer and the contracts over it rely on.

use vstd::prelude::*;
use crate::bytes::bytes_eq;

verus! {

/// Whether no two entries of a key sequence are equal.
pub open spec fn distinct(keys: Seq<Seq<u8>>) -> bool {
    forall|i: int, j: int| 0 <= i < j < keys.len() ==> keys[i] != keys[j]
}

/// Whether `key` occurs in `keys`.
pub open spec fn has_key(keys: Seq<Seq<u8>>, key: Seq<u8>) -> bool {
    exists|i: int| 0 <= i < keys.len() && keys[i] == key
}

/// The index of some occurrence of `key` in `keys`; with distinct keys, of
/// the occurrence.
pub open spec fn position(keys: Seq<Seq<u8>>, key: Seq<u8>) -> Option<int> {
    if has_key(keys, key) {
        Some(choose|i: int| 0 <= i < keys.len() && keys[i] == key)
    } else {
        None
    }
}

/// Among distinct keys, a key found at index `i` has position `i`.
pub proof fn lemma_position_unique(keys: Seq<Seq<u8>>, key: Seq<u8>, i: int)
    requires
        distinct(keys),
        0 <= i < keys.len(),
        keys[i] == key,
    ensures
        position(keys, key) == Some(i),
{
    let j = choose|j: int| 0 <= j < keys.len() && keys[j] == key;
    assert(j == i) by {
        if j < i {
            assert(keys[j] != keys[i]);
        } else if i < j {
            assert(keys[i] != keys[j]);
        }
    }
}

/// Appending a fresh key keeps the keys distinct and the positions of the others.
pub proof fn lemma_push_fresh(keys: Seq<Seq<u8>>, key: Seq<u8>)
    requires
        distinct(keys),
        !has_key(keys, key),
    ensures
        distinct(keys.push(key)),
        position(keys.push(key), key) == Some(keys.len() as int),
{
    let grown = keys.push(key);
    assert forall|i: int, j: int| 0 <= i < j < grown.len() implies grown[i] != grown[j] by {
        if j == keys.len() {
            assert(grown[i] == keys[i]);
        }
    }
    lemma_position_unique(grown, key, keys.len() as int);
}

/// The keys of an association list, in order.
pub open spec fn assoc_keys<T>(entries: Seq<(Seq<u8>, T)>) -> Seq<Seq<u8>> {
    Seq::new(entries.len(), |i: int| entries[i].0)
}

/// An association list after `key` is bound to `value`: the value replaces
/// the one of an entry with that key, and otherwise a new entry is added at
/// the end.
pub open spec fn assoc_put<T>(entries: Seq<(Seq<u8>, T)>, key: Seq<u8>, value: T) -> Seq<
    (Seq<u8>, T),
> {
    match position(assoc_keys(entries), key) {
        Some(i) => entries.update(i, (key, value)),
        None => entries.push((key, value)),
    }
}

/// The value bound to `key` in an association list.
pub open spec fn assoc_get<T>(entries: Seq<(Seq<u8>, T)>, key: Seq<u8>) -> Option<T> {
    match position(assoc_keys(entries), key) {
        Some(i) => Some(entries[i].1),
        None => None,
    }
}

/// An association list without its entry for `key`.
pub open spec fn assoc_remove<T>(entries: Seq<(Seq<u8>, T)>, key: Seq<u8>) -> Seq<(Seq<u8>, T)> {
    match position(assoc_keys(entries), key) {
        Some(i) => entries.remove(i),
        None => entries,
    }
}

/// Binding a key keeps the keys of an association list distinct.
pub proof fn lemma_assoc_put_distinct<T>(entries: Seq<(Seq<u8>, T)>, key: Seq<u8>, value: T)
    requires
        distinct(assoc_keys(entries)),
    ensures
        distinct(assoc_keys(assoc_put(entries, key, value))),
        assoc_get(assoc_put(entries, key, value), key) == Some(value),
{
    let keys = assoc_keys(entries);
    let after = assoc_put(entries, key, value);
    match position(keys, key) {
        Some(i) => {
            assert(assoc_keys(after) =~= keys);
            assert(position(assoc_keys(after), key) == Some(i));
        },
        None => {
            lemma_push_fresh(keys, key);
            assert(assoc_keys(after) =~= keys.push(key));
        },
    }
}

/// Binding a key that an association list does not hold appends the entry.
pub proof fn lemma_assoc_put_fresh<T>(entries: Seq<(Seq<u8>, T)>, key: Seq<u8>, value: T)
    requires
        !has_key(assoc_keys(entries), key),
    ensures
        assoc_put(entries, key, value) == entries.push((key, value)),
{
}

/// An insertion-ordered map from byte strings to values of type `V`.
#[derive(Debug, PartialEq, Eq)]
pub struct ByteMap<V> {
    pub(crate) keys: Vec<Vec<u8>>,
    pub(crate) vals: Vec<V>,
}

impl<V> ByteMap<V> {
    #[verifier::type_invariant]
    pub closed spec fn inv(&self) -> bool {
        self.wf()
    }

    /// The keys, in insertion order.
    pub closed spec fn keys(&self) -> Seq<Seq<u8>> {
        Seq::new(self.keys.len() as nat, |i: int| self.keys[i]@)
    }

    /// The values, each at the index of its key.
    pub closed spec fn vals(&self) -> Seq<V> {
        self.vals@
    }

    /// Every key has a value and no key occurs twice. This holds of every
    /// map that executable code can hold.
    pub open spec fn wf(&self) -> bool {
        self.keys().len() == self.vals().len() && distinct(self.keys())
    }

    /// Whether the map holds `key`.
    pub open spec fn contains(&self, key: Seq<u8>) -> bool {
        has_key(self.keys(), key)
    }

    /// The index at which the map holds `key`.
    pub open spec fn index_of(&self, key: Seq<u8>) -> Option<int> {
        position(self.keys(), key)
    }

    /// Whether this map is `before` with at most the value of `key`
    /// changed: the key was added at the end if `before` did not hold it,
    /// and every other key has the value it had.
    pub open spec fn differs_at(&self, before: &Self, key: Seq<u8>) -> bool {
        &&& self.keys() == if has_key(before.keys(), key) {
            before.keys()
        } else {
            before.keys().push(key)
        }
        &&& self.vals().len() == self.keys().len()
        &&& forall|j: int|
            0 <= j < before.keys().len() && before.keys()[j] != key ==> self.vals()[j]
                == before.vals()[j]
    }

    /// The value that the map binds to `key`.
    pub open spec fn value_of(&self, key: Seq<u8>) -> Option<V> {
        match position(self.keys(), key) {
            Some(i) => Some(self.vals()[i]),
            None => None,
        }
    }

    /// An empty map.
    pub fn new() -> (r: Self)
        ensures
            r.keys() == Seq::<Seq<u8>>::empty(),
            r.vals() == Seq::<V>::empty(),
            r.wf(),
    {
        let r = ByteMap { keys: Vec::new(), vals: Vec::new() };
        assert(r.keys() =~= Seq::<Seq<u8>>::empty());
        r
    }

    /// The number of entries.
    pub fn len(&self) -> (r: usize)
        ensures
            r == self.keys().len(),
            r == self.vals().len(),
            self.wf(),
    {
        proof {
            use_type_invariant(self);
        }
        self.keys.len()
    }

    /// The index of `key`, if the map holds it.
    pub fn find(&self, key: &[u8]) -> (r: Option<usize>)
        ensures
            self.wf(),
            match r {
                Some(i) => self.index_of(key@) == Some(i as int) && i < self.keys().len()
                    && self.keys()[i as int] == key@,
                None => !self.contains(key@) && self.index_of(key@) is None,
            },
    {
        proof {
            use_type_invariant(self);
        }
        let mut i: usize = 0;
        while i < self.keys.len()
            invariant
                i <= self.keys.len(),
                self.wf(),
                forall|j: int| 0 <= j < i ==> self.keys()[j] != key@,
            decreases self.keys.len() - i,
        {
            if bytes_eq(self.keys[i].as_slice(), key) {
                proof {
                    lemma_position_unique(self.keys(), key@, i as int);
                }
                return Some(i);
            }
            i += 1;
        }
        None
    }

    /// The key at index `i`.
    pub fn key_at(&self, i: usize) -> (r: &Vec<u8>)
        requires
            i < self.keys().len(),
        ensures
            r@ == self.keys()[i as int],
    {
        &self.keys[i]
    }

    /// The value at index `i`.
    pub fn value_at(&self, i: usize) -> (r: &V)
        requires
            i < self.vals().len(),
        ensures
            *r == self.vals()[i as int],
    {
        &self.vals[i]
    }

    /// The value at index `i`, for changing in place.
    pub fn value_at_mut(&mut self, i: usize) -> (r: &mut V)
        requires
            i < old(self).vals().len(),
        ensures
            *r == old(self).vals()[i as int],
            final(self).keys() == old(self).keys(),
            final(self).vals() == old(self).vals().update(i as int, *final(r)),
    {
        proof {
            use_type_invariant(&*self);
        }
        &mut self.vals[i]
    }

    /// Binds `key` to `value`: the value replaces the one that `key` had,
    /// and otherwise a new entry is added at the end.
    pub fn insert(&mut self, key: Vec<u8>, value: V)
        ensures
            old(self).wf(),
            final(self).wf(),
            match position(old(self).keys(), key@) {
                Some(i) => final(self).keys() == old(self).keys() && final(self).vals() == old(self).vals().update(i, value),
                None => final(self).keys() == old(self).keys().push(key@) && final(self).vals()
                    == old(self).vals().push(value),
            },
    {
        proof {
            use_type_invariant(&*self);
        }
        match self.find(key.as_slice()) {
            Some(i) => {
                let slot = self.value_at_mut(i);
                *slot = value;
                proof {
                    use_type_invariant(&*self);
                }
            },
            None => {
                self.push(key, value);
            },
        }
    }

    /// The index of `key`, after `fresh` was bound to it if the map did not
    /// hold the key. Where the map holds the key, `fresh` is dropped.
    pub fn index_or_insert(&mut self, key: &[u8], fresh: V) -> (r: usize)
        ensures
            old(self).wf(),
            final(self).wf(),
            r < final(self).keys().len(),
            final(self).keys()[r as int] == key@,
            final(self).index_of(key@) == Some(r as int),
            match position(old(self).keys(), key@) {
                Some(i) => r == i && final(self).keys() == old(self).keys() && final(self).vals()
                    == old(self).vals(),
                None => r == old(self).keys().len() && final(self).keys() == old(self).keys().push(key@) && final(self).vals() == old(self).vals().push(fresh),
            },
    {
        proof {
            use_type_invariant(&*self);
        }
        match self.find(key) {
            Some(i) => i,
            None => {
                let at = self.len();
                let owned = crate::bytes::copy_range(key, 0, key.len());
                assert(owned@ =~= key@);
                proof {
                    lemma_push_fresh(self.keys(), key@);
                }
                self.push(owned, fresh);
                at
            },
        }
    }

    /// Adds an entry for a key that the map does not hold yet.
    pub fn push(&mut self, key: Vec<u8>, value: V)
        requires
            !old(self).contains(key@),
        ensures
            final(self).keys() == old(self).keys().push(key@),
            final(self).vals() == old(self).vals().push(value),
            final(self).wf(),
    {
        proof {
            use_type_invariant(&*self);
            lemma_push_fresh(self.keys(), key@);
        }
        let ghost before = self.keys();
        let mut taken = ByteMap { keys: Vec::new(), vals: Vec::new() };
        core::mem::swap(self, &mut taken);
        let ByteMap { keys: mut keys, vals: mut vals } = taken;
        keys.push(key);
        vals.push(value);
        assert(Seq::new(keys.len() as nat, |i: int| keys[i]@) =~= before.push(key@));
        *self = ByteMap { keys, vals };
    }

    /// Takes the entry at index `i` out of the map; later entries move up.
    pub fn remove_at(&mut self, i: usize) -> (r: (Vec<u8>, V))
        requires
            i < old(self).keys().len(),
        ensures
            r.0@ == old(self).keys()[i as int],
            r.1 == old(self).vals()[i as int],
            final(self).keys() == old(self).keys().remove(i as int),
            final(self).vals() == old(self).vals().remove(i as int),
            final(self).wf(),
    {
        proof {
            use_type_invariant(&*self);
        }
        let ghost before = self.keys();
        let mut taken = ByteMap { keys: Vec::new(), vals: Vec::new() };
        core::mem::swap(self, &mut taken);
        let ByteMap { keys: mut keys, vals: mut vals } = taken;
        let key = keys.remove(i);
        let value = vals.remove(i);
        assert(Seq::new(keys.len() as nat, |j: int| keys[j]@) =~= before.remove(i as int));
        assert(distinct(before.remove(i as int))) by {
            let after = before.remove(i as int);
            assert forall|a: int, b: int| 0 <= a < b < after.len() implies after[a] != after[b] by {
                let a0 = if a < i { a } else { a + 1 };
                let b0 = if b < i { b } else { b + 1 };
                assert(before[a0] != before[b0]);
            }
        }
        *self = ByteMap { keys, vals };
        (key, value)
    }
}

} // verus!
