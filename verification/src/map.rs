//! The map itself: a growable vector of key-value pairs with linear-scan
//! lookup, in-place value replacement, and swap-based removal.

use vstd::prelude::*;

use crate::model::{
    as_map, distinct_keys, has_key, key_index, lemma_as_map_empty, lemma_as_map_push,
    lemma_as_map_swap_remove, lemma_as_map_update, lemma_key_index_unique,
    lemma_map_of_pairs_is_as_map, lemma_map_of_pairs_len, map_of_pairs, obeys_eq_model,
};

verus! {

/// A map backed by a vector of key-value pairs.
///
/// Every operation that looks a key up scans the pairs from the front, so
/// lookup and mutation cost a pass over the map. In exchange nothing is
/// hashed or ordered, and the entries sit in one contiguous allocation.
/// Intended for maps that stay small.
///
/// Removal swaps the last pair into the vacated slot, so the order of the
/// surviving pairs is not preserved across removals.
#[derive(Clone, Debug)]
pub struct LinearMap<K, V> {
    pub(crate) storage: Vec<(K, V)>,
}

impl<K, V> View for LinearMap<K, V> {
    type V = Map<K, V>;

    open(crate) spec fn view(&self) -> Map<K, V> {
        as_map(self.storage@)
    }
}

/// Splits a borrowed pair into a read-only handle on its key slot and a
/// mutable handle on its value slot.
pub(crate) fn pair_split_mut<'x, K, V>(pair: &'x mut (K, V)) -> (r: (&'x K, &'x mut V))
    ensures
        *r.0 == old(pair).0,
        *r.1 == old(pair).1,
        *final(pair) == (old(pair).0, *final(r.1)),
{
    (&pair.0, &mut pair.1)
}

/// Splits a borrowed pair into a read of its key slot and a handle on its
/// value slot.
pub(crate) fn pair_value_mut<'x, K, V>(pair: &'x mut (K, V)) -> (r: &'x mut V)
    ensures
        *r == old(pair).1,
        *final(pair) == (old(pair).0, *final(r)),
{
    &mut pair.1
}

impl<K, V> LinearMap<K, V> {
    /// The pairs the map holds, in storage order.
    pub open(crate) spec fn pairs(self) -> Seq<(K, V)> {
        self.storage@
    }

    /// The storage invariant: no key occurs in two pairs.
    pub open(crate) spec fn wf(self) -> bool {
        distinct_keys(self.pairs())
    }

    /// The number of pairs the map holds.
    pub open(crate) spec fn spec_len(self) -> nat {
        self.pairs().len()
    }
}

impl<K: Eq, V> LinearMap<K, V> {
    /// Creates an empty map. Does not allocate.
    pub fn new() -> (m: Self)
        ensures
            m.wf(),
            m.pairs() == Seq::<(K, V)>::empty(),
            m@ == Map::<K, V>::empty(),
    {
        proof {
            lemma_as_map_empty::<K, V>();
        }
        LinearMap { storage: Vec::new() }
    }

    /// Creates an empty map whose buffer can hold at least `capacity`
    /// pairs before reallocating.
    pub fn with_capacity(capacity: usize) -> (m: Self)
        ensures
            m.wf(),
            m.pairs() == Seq::<(K, V)>::empty(),
            m@ == Map::<K, V>::empty(),
    {
        proof {
            lemma_as_map_empty::<K, V>();
        }
        LinearMap { storage: Vec::with_capacity(capacity) }
    }

    /// Returns the number of pairs the map can hold without reallocating.
    /// Informational only: nothing but `c >= self.len()` is promised.
    pub fn capacity(&self) -> (c: usize)
        ensures
            c >= self.spec_len(),
    {
        crate::storage::vec_capacity(&self.storage)
    }

    /// Reserves capacity for at least `additional` more pairs. The
    /// contents do not change. Aborts if the new capacity overflows the
    /// platform's size type.
    pub fn reserve(&mut self, additional: usize)
        ensures
            final(self).pairs() == old(self).pairs(),
    {
        self.storage.reserve(additional);
    }

    /// Reserves the minimum capacity for exactly `additional` more pairs.
    /// The contents do not change. Aborts if the new capacity overflows
    /// the platform's size type.
    pub fn reserve_exact(&mut self, additional: usize)
        ensures
            final(self).pairs() == old(self).pairs(),
    {
        crate::storage::vec_reserve_exact(&mut self.storage, additional);
    }

    /// Releases spare capacity, best effort. The contents do not change.
    pub fn shrink_to_fit(&mut self)
        ensures
            final(self).pairs() == old(self).pairs(),
    {
        crate::storage::vec_shrink_to_fit(&mut self.storage);
    }

    /// Returns the number of pairs in the map.
    pub fn len(&self) -> (n: usize)
        ensures
            n == self.spec_len(),
            self.wf() ==> n == self@.dom().len(),
    {
        proof {
            if self.wf() {
                lemma_map_of_pairs_is_as_map(self.pairs());
                lemma_map_of_pairs_len(self.pairs());
            }
        }
        self.storage.len()
    }

    /// Returns true if the map holds no pairs.
    pub fn is_empty(&self) -> (e: bool)
        ensures
            e == (self.spec_len() == 0),
    {
        self.storage.is_empty()
    }

    /// Removes every pair. The allocated buffer is kept for reuse.
    pub fn clear(&mut self)
        ensures
            final(self).wf(),
            final(self).pairs() == Seq::<(K, V)>::empty(),
            final(self)@ == Map::<K, V>::empty(),
    {
        proof {
            lemma_as_map_empty::<K, V>();
        }
        self.storage.clear();
    }

    /// The index of the first pair whose key compares equal to `key`, or
    /// `None` when no pair's key does.
    pub(crate) fn find_index(&self, key: &K) -> (r: Option<usize>)
        requires
            obeys_eq_model::<K>(),
        ensures
            match r {
                Some(i) => i < self.spec_len() && self.pairs()[i as int].0 == *key,
                None => !has_key(self.pairs(), *key),
            },
    {
        let n = self.storage.len();
        let mut i: usize = 0;
        while i < n
            invariant
                obeys_eq_model::<K>(),
                n == self.spec_len(),
                i <= n,
                forall|j: int| 0 <= j < i ==> (#[trigger] self.pairs()[j]).0 != *key,
            decreases n - i,
        {
            if self.storage[i].0 == *key {
                return Some(i);
            }
            i += 1;
        }
        None
    }

    /// Returns a reference to the value stored under `key`, or `None` when
    /// the key is absent.
    pub fn get(&self, key: &K) -> (r: Option<&V>)
        requires
            obeys_eq_model::<K>(),
            self.wf(),
        ensures
            self@.contains_key(*key) ==> (r matches Some(v) && *v == self@[*key]),
            !self@.contains_key(*key) ==> r is None,
    {
        match self.find_index(key) {
            Some(i) => {
                proof {
                    lemma_key_index_unique(self.pairs(), i as int);
                }
                Some(&self.storage[i].1)
            },
            None => None,
        }
    }

    /// Returns a mutable reference to the value stored under `key`, or
    /// `None` when the key is absent. Writing through the reference
    /// reassociates the key; nothing else about the map changes.
    pub fn get_mut(&mut self, key: &K) -> (r: Option<&mut V>)
        requires
            obeys_eq_model::<K>(),
            old(self).wf(),
        ensures
            old(self)@.contains_key(*key) ==> (r matches Some(v) && {
                &&& *v == old(self)@[*key]
                &&& final(self).wf()
                &&& final(self).pairs() == old(self).pairs().update(
                    key_index(old(self).pairs(), *key),
                    (*key, *final(v)),
                )
                &&& final(self)@ == old(self)@.insert(*key, *final(v))
            }),
            !old(self)@.contains_key(*key) ==> r is None && *final(self) == *old(self),
    {
        match self.find_index(key) {
            Some(i) => {
                proof {
                    lemma_key_index_unique(self.pairs(), i as int);
                    assert forall|v: V| true implies as_map(
                        self.pairs().update(i as int, (self.pairs()[i as int].0, v)),
                    ) == as_map(self.pairs()).insert(*key, v) && distinct_keys(
                        self.pairs().update(i as int, (self.pairs()[i as int].0, v)),
                    ) by {
                        lemma_as_map_update(self.pairs(), i as int, v);
                    }
                }
                let slot = pair_value_mut(&mut self.storage[i]);
                Some(slot)
            },
            None => None,
        }
    }

    /// Returns true if the map stores a value under `key`.
    pub fn contains_key(&self, key: &K) -> (r: bool)
        requires
            obeys_eq_model::<K>(),
            self.wf(),
        ensures
            r == self@.contains_key(*key),
    {
        self.get(key).is_some()
    }

    /// Returns a reference to the value stored under `key`. The key must
    /// be present; absent-key access is a caller error, and an unverified
    /// caller that commits it stops with a panic.
    pub fn index(&self, key: &K) -> (r: &V)
        requires
            obeys_eq_model::<K>(),
            self.wf(),
            self@.contains_key(*key),
        ensures
            *r == self@[*key],
    {
        self.get(key).unwrap()
    }

    /// Inserts `value` under `key`. When the key is already present its
    /// value is replaced in place — the pair keeps its position — and the
    /// previous value is returned; otherwise the pair is appended and
    /// `None` is returned.
    pub fn insert(&mut self, key: K, value: V) -> (prev: Option<V>)
        requires
            obeys_eq_model::<K>(),
            old(self).wf(),
        ensures
            final(self).wf(),
            final(self)@ == old(self)@.insert(key, value),
            old(self)@.contains_key(key) ==> prev == Some(old(self)@[key]) && final(self).pairs()
                == old(self).pairs().update(key_index(old(self).pairs(), key), (key, value)),
            !old(self)@.contains_key(key) ==> prev is None && final(self).pairs() == old(self)
                .pairs().push((key, value)),
    {
        match self.find_index(&key) {
            Some(i) => {
                proof {
                    lemma_key_index_unique(self.pairs(), i as int);
                    lemma_as_map_update(self.pairs(), i as int, value);
                }
                let slot = pair_value_mut(&mut self.storage[i]);
                let mut prev = value;
                core::mem::swap(slot, &mut prev);
                Some(prev)
            },
            None => {
                proof {
                    lemma_as_map_push(self.pairs(), key, value);
                }
                self.storage.push((key, value));
                None
            },
        }
    }

    /// Removes the pair stored under `key` and returns its value, or
    /// returns `None` and leaves the map unchanged when the key is absent.
    /// The vacated slot is filled by the pair that was last, so the order
    /// of the surviving pairs may change.
    pub fn remove(&mut self, key: &K) -> (removed: Option<V>)
        requires
            obeys_eq_model::<K>(),
            old(self).wf(),
        ensures
            final(self).wf(),
            final(self)@ == old(self)@.remove(*key),
            old(self)@.contains_key(*key) ==> removed == Some(old(self)@[*key])
                && final(self).pairs() == old(self).pairs().update(
                key_index(old(self).pairs(), *key),
                old(self).pairs().last(),
            ).drop_last(),
            !old(self)@.contains_key(*key) ==> removed is None && *final(self) == *old(self),
    {
        match self.find_index(key) {
            Some(i) => {
                proof {
                    lemma_key_index_unique(self.pairs(), i as int);
                    lemma_as_map_swap_remove(self.pairs(), i as int);
                }
                let p = self.storage.swap_remove(i);
                Some(p.1)
            },
            None => {
                proof {
                    assert(old(self)@.remove(*key) =~= old(self)@);
                }
                None
            },
        }
    }
}

impl<K: Eq, V> LinearMap<K, V> {
    /// Consumes the map into the plain sequence of its pairs, in storage
    /// order.
    pub fn into_vec(self) -> (v: Vec<(K, V)>)
        ensures
            v@ == self.pairs(),
    {
        self.storage
    }

    /// Inserts every pair of `pairs`, front to back: a pair whose key is
    /// already present replaces that key's value in place, any other pair
    /// is appended.
    pub fn extend(&mut self, pairs: Vec<(K, V)>)
        requires
            obeys_eq_model::<K>(),
            old(self).wf(),
        ensures
            final(self).wf(),
            final(self)@ == map_of_pairs(old(self).pairs() + pairs@),
    {
        let ghost base = self.pairs();
        let ghost orig = pairs@;
        proof {
            lemma_map_of_pairs_is_as_map(base);
            assert(base + orig.take(0) =~= base);
        }
        let mut rest = pairs;
        while rest.len() > 0
            invariant
                obeys_eq_model::<K>(),
                self.wf(),
                rest@.len() <= orig.len(),
                rest@ == orig.skip(orig.len() - rest@.len()),
                self@ == map_of_pairs(base + orig.take(orig.len() - rest@.len())),
            decreases rest@.len(),
        {
            let ghost c = orig.len() - rest@.len();
            proof {
                assert(rest@[0] == orig.skip(c as int)[0]);
            }
            let p = rest.remove(0);
            self.insert(p.0, p.1);
            proof {
                assert(rest@ =~= orig.skip(c + 1));
                let x = base + orig.take(c as int);
                let y = base + orig.take(c + 1);
                assert(y.drop_last() =~= x);
                assert(y.last() == orig[c as int]);
                assert(map_of_pairs(y) == map_of_pairs(x).insert(orig[c as int].0, orig[c as int].1));
            }
        }
        proof {
            assert(base + orig.take(orig.len() - rest@.len()) =~= base + orig);
        }
    }

    /// Builds a map by inserting the pairs front to back into an empty
    /// map: on a repeated key the later pair wins.
    pub fn from_pairs(pairs: Vec<(K, V)>) -> (m: Self)
        requires
            obeys_eq_model::<K>(),
        ensures
            m.wf(),
            m@ == map_of_pairs(pairs@),
    {
        let mut m = Self::new();
        proof {
            assert(Seq::<(K, V)>::empty() + pairs@ =~= pairs@);
        }
        m.extend(pairs);
        m
    }
}

/// Converting a map to its pair sequence and building a map back from
/// that sequence yields the same association: the round trip preserves
/// the view, and with it equality of maps.
pub proof fn lemma_pairs_round_trip<K, V>(m: LinearMap<K, V>)
    requires
        m.wf(),
    ensures
        map_of_pairs(m.pairs()) == m@,
{
    lemma_map_of_pairs_is_as_map(m.pairs());
}

} // verus!
