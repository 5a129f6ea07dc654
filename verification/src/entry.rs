//! The two-phase entry API: one scan locates the key, and the returned
//! handle then mutates the map in place without scanning again.
//!
//! A handle borrows the map exclusively for its lifetime. Its contracts
//! relate the map's eventual contents — `final(...)` of the borrowed map —
//! to what the handle and its caller do, so a verified caller of
//! [`LinearMap::entry`] learns exactly what the map holds once the borrow
//! expires.

use vstd::prelude::*;

use crate::map::{pair_value_mut, LinearMap};
use crate::model::{
    as_map, distinct_keys, has_key, key_index, lemma_as_map_push, lemma_as_map_swap_remove,
    lemma_as_map_update, lemma_key_index_unique, obeys_eq_model,
};

verus! {

/// A view into a pair that is present: the map, and the pair's index.
pub struct OccupiedEntry<'a, K, V> {
    pub(crate) map: &'a mut LinearMap<K, V>,
    pub(crate) index: usize,
}

/// A view into a key that is absent: the map, and the pending key.
pub struct VacantEntry<'a, K, V> {
    pub(crate) map: &'a mut LinearMap<K, V>,
    pub(crate) key: K,
}

/// A view into a single location of a map, occupied or vacant.
pub enum Entry<'a, K, V> {
    /// The key is present.
    Occupied(OccupiedEntry<'a, K, V>),
    /// The key is absent.
    Vacant(VacantEntry<'a, K, V>),
}

impl<'a, K, V> OccupiedEntry<'a, K, V> {
    /// The borrow of the map that the handle holds.
    pub open(crate) spec fn map_ref(self) -> &'a mut LinearMap<K, V> {
        self.map
    }

    /// The map as the handle sees it now.
    pub open(crate) spec fn current_map(self) -> LinearMap<K, V> {
        *self.map
    }

    /// The handle is well formed: the map holds its invariant and the
    /// index lies on a pair.
    pub open(crate) spec fn wf(self) -> bool {
        &&& self.current_map().wf()
        &&& self.index < self.current_map().spec_len()
    }

    /// The index of the located pair in the map's storage.
    pub open(crate) spec fn spec_index(self) -> usize {
        self.index
    }

    /// The key of the pair the handle points at.
    pub open(crate) spec fn key(self) -> K {
        self.current_map().pairs()[self.index as int].0
    }

    /// The value of the pair the handle points at, as it stands now.
    pub open(crate) spec fn value(self) -> V {
        self.current_map().pairs()[self.index as int].1
    }
}

impl<'a, K, V> VacantEntry<'a, K, V> {
    /// The borrow of the map that the handle holds.
    pub open(crate) spec fn map_ref(self) -> &'a mut LinearMap<K, V> {
        self.map
    }

    /// The map as the handle sees it now.
    pub open(crate) spec fn current_map(self) -> LinearMap<K, V> {
        *self.map
    }

    /// The key that will be inserted if the handle is used.
    pub open(crate) spec fn spec_key(self) -> K {
        self.key
    }

    /// The handle is well formed: the map holds its invariant and does
    /// not hold the pending key.
    pub open(crate) spec fn wf(self) -> bool {
        &&& self.current_map().wf()
        &&& !has_key(self.current_map().pairs(), self.key)
    }
}

impl<'a, K, V> Entry<'a, K, V> {
    /// The handle, in either state, is well formed.
    pub open(crate) spec fn wf(self) -> bool {
        match self {
            Entry::Occupied(o) => o.wf(),
            Entry::Vacant(v) => v.wf(),
        }
    }
}

impl<K: Eq, V> LinearMap<K, V> {
    /// Scans once for `key` and returns a handle for in-place
    /// manipulation: `Occupied` with the pair's index when the key is
    /// present, `Vacant` with the key when it is absent. The map's
    /// eventual contents are whatever the handle leaves behind.
    pub fn entry<'a>(&'a mut self, key: K) -> (e: Entry<'a, K, V>)
        requires
            obeys_eq_model::<K>(),
            old(self).wf(),
        ensures
            e.wf(),
            match e {
                Entry::Occupied(o) => {
                    &&& old(self)@.contains_key(key)
                    &&& o.current_map() == *old(self)
                    &&& o.spec_index() == key_index(old(self).pairs(), key)
                    &&& o.key() == key
                    &&& o.value() == old(self)@[key]
                    &&& *final(self) == *final(o.map_ref())
                },
                Entry::Vacant(v) => {
                    &&& !old(self)@.contains_key(key)
                    &&& v.current_map() == *old(self)
                    &&& v.spec_key() == key
                    &&& *final(self) == *final(v.map_ref())
                },
            },
    {
        match self.find_index(&key) {
            Some(i) => {
                proof {
                    lemma_key_index_unique(self.pairs(), i as int);
                }
                Entry::Occupied(OccupiedEntry { map: self, index: i })
            },
            None => Entry::Vacant(VacantEntry { map: self, key }),
        }
    }
}

impl<'a, K, V> OccupiedEntry<'a, K, V> {
    /// Returns a reference to the value of the located pair.
    pub fn get(&self) -> (r: &V)
        requires
            self.wf(),
        ensures
            *r == self.value(),
    {
        &self.map.storage[self.index].1
    }

    /// Returns a mutable reference to the value of the located pair.
    /// Writing through it changes that value and nothing else.
    pub fn get_mut(&mut self) -> (r: &mut V)
        requires
            old(self).wf(),
        ensures
            *r == old(self).value(),
            final(self).wf(),
            final(self).spec_index() == old(self).spec_index(),
            final(self).current_map().pairs() == old(self).current_map().pairs().update(
                old(self).spec_index() as int,
                (old(self).key(), *final(r)),
            ),
            *final(final(self).map_ref()) == *final(old(self).map_ref()),
    {
        let i = self.index;
        pair_value_mut(&mut self.map.storage[i])
    }

    /// Consumes the handle and returns a mutable reference to the value,
    /// bound to the map's own borrow. Writing through it changes that
    /// value and nothing else.
    pub fn into_mut(self) -> (r: &'a mut V)
        requires
            self.wf(),
        ensures
            *r == self.value(),
            final(self.map_ref()).wf(),
            final(self.map_ref()).pairs() == self.current_map().pairs().update(
                self.spec_index() as int,
                (self.key(), *final(r)),
            ),
            final(self.map_ref())@ == self.current_map()@.insert(self.key(), *final(r)),
    {
        proof {
            lemma_key_index_unique(self.map.pairs(), self.index as int);
            let m = *self.map;
            let i = self.index as int;
            assert forall|v: V| true implies {
                &&& distinct_keys(m.pairs().update(i, (m.pairs()[i].0, v)))
                &&& as_map(m.pairs().update(i, (m.pairs()[i].0, v))) == m@.insert(m.pairs()[i].0, v)
            } by {
                lemma_as_map_update(m.pairs(), i, v);
            }
        }
        let OccupiedEntry { map, index } = self;
        pair_value_mut(&mut map.storage[index])
    }

    /// Replaces the value of the located pair and returns the previous
    /// value. The handle stays usable.
    pub fn insert(&mut self, value: V) -> (prev: V)
        requires
            old(self).wf(),
        ensures
            prev == old(self).value(),
            final(self).wf(),
            final(self).spec_index() == old(self).spec_index(),
            final(self).current_map().pairs() == old(self).current_map().pairs().update(
                old(self).spec_index() as int,
                (old(self).key(), value),
            ),
            *final(final(self).map_ref()) == *final(old(self).map_ref()),
    {
        let r = self.get_mut();
        let mut prev = value;
        core::mem::swap(r, &mut prev);
        prev
    }

    /// Consumes the handle, removes the located pair by swap-removal, and
    /// returns its value.
    pub fn remove(self) -> (v: V)
        requires
            self.wf(),
        ensures
            v == self.value(),
            final(self.map_ref()).wf(),
            final(self.map_ref()).pairs() == self.current_map().pairs().update(
                self.spec_index() as int,
                self.current_map().pairs().last(),
            ).drop_last(),
            final(self.map_ref())@ == self.current_map()@.remove(self.key()),
    {
        proof {
            lemma_key_index_unique(self.map.pairs(), self.index as int);
            lemma_as_map_swap_remove(self.map.pairs(), self.index as int);
        }
        let OccupiedEntry { map, index } = self;
        let p = map.storage.swap_remove(index);
        p.1
    }
}

impl<'a, K, V> VacantEntry<'a, K, V> {
    /// Consumes the handle, appends a pair carrying the pending key and
    /// `value`, and returns a mutable reference to the stored value,
    /// bound to the map's own borrow.
    pub fn insert(self, value: V) -> (r: &'a mut V)
        requires
            self.wf(),
        ensures
            *r == value,
            final(self.map_ref()).wf(),
            final(self.map_ref()).pairs() == self.current_map().pairs().push(
                (self.spec_key(), *final(r)),
            ),
            final(self.map_ref())@ == self.current_map()@.insert(self.spec_key(), *final(r)),
    {
        let ghost m = *self.map;
        let ghost k0 = self.key;
        let VacantEntry { map, key } = self;
        map.storage.push((key, value));
        let n = map.storage.len();
        let r = pair_value_mut(&mut map.storage[n - 1]);
        proof {
            lemma_as_map_push(m.pairs(), k0, *final(r));
        }
        r
    }
}

impl<'a, K, V> Entry<'a, K, V> {
    /// Returns a mutable reference to the value under the entry's key,
    /// first inserting `default` if the key was absent. The existing
    /// value wins: `default` is dropped when the key is present.
    pub fn or_insert(self, default: V) -> (r: &'a mut V)
        requires
            self.wf(),
        ensures
            match self {
                Entry::Occupied(o) => {
                    &&& *r == o.value()
                    &&& final(o.map_ref()).wf()
                    &&& final(o.map_ref()).pairs() == o.current_map().pairs().update(
                        o.spec_index() as int,
                        (o.key(), *final(r)),
                    )
                    &&& final(o.map_ref())@ == o.current_map()@.insert(o.key(), *final(r))
                },
                Entry::Vacant(v) => {
                    &&& *r == default
                    &&& final(v.map_ref()).wf()
                    &&& final(v.map_ref()).pairs() == v.current_map().pairs().push(
                        (v.spec_key(), *final(r)),
                    )
                    &&& final(v.map_ref())@ == v.current_map()@.insert(v.spec_key(), *final(r))
                },
            },
    {
        match self {
            Entry::Occupied(o) => o.into_mut(),
            Entry::Vacant(v) => v.insert(default),
        }
    }

    /// Returns a mutable reference to the value under the entry's key,
    /// first inserting the result of `default` if the key was absent.
    /// `default` is called only in the vacant case.
    pub fn or_insert_with<F: FnOnce() -> V>(self, default: F) -> (r: &'a mut V)
        requires
            self.wf(),
            self matches Entry::Vacant(_) ==> call_requires(default, ()),
        ensures
            match self {
                Entry::Occupied(o) => {
                    &&& *r == o.value()
                    &&& final(o.map_ref()).wf()
                    &&& final(o.map_ref()).pairs() == o.current_map().pairs().update(
                        o.spec_index() as int,
                        (o.key(), *final(r)),
                    )
                    &&& final(o.map_ref())@ == o.current_map()@.insert(o.key(), *final(r))
                },
                Entry::Vacant(v) => {
                    &&& call_ensures(default, (), *r)
                    &&& final(v.map_ref()).wf()
                    &&& final(v.map_ref()).pairs() == v.current_map().pairs().push(
                        (v.spec_key(), *final(r)),
                    )
                    &&& final(v.map_ref())@ == v.current_map()@.insert(v.spec_key(), *final(r))
                },
            },
    {
        match self {
            Entry::Occupied(o) => o.into_mut(),
            Entry::Vacant(v) => {
                let value = default();
                v.insert(value)
            },
        }
    }
}

} // verus!
