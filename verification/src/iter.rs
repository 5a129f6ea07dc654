//! The iterator family: borrowing, mutably borrowing, owning and draining
//! passes over the pairs, all in storage order, all drivable from either
//! end, all reporting their exact remaining count.
//!
//! None of these implement the standard iterator traits — the verifier
//! does not accept such impls — so each is driven by calling `next`,
//! `next_back` and `len` directly.

use vstd::prelude::*;

use crate::map::{pair_split_mut, LinearMap};
use crate::model::lemma_as_map_empty;

verus! {

/// A borrowing pass over the pairs of a map, in storage order.
/// Duplicable: `Clone` repeats the pass from its current position.
#[derive(Clone, Copy)]
pub struct Iter<'a, K, V> {
    pub(crate) entries: &'a Vec<(K, V)>,
    pub(crate) front: usize,
    pub(crate) back: usize,
}

/// A borrowing pass over the keys of a map, in storage order.
/// Duplicable: `Clone` repeats the pass from its current position.
#[derive(Clone, Copy)]
pub struct Keys<'a, K, V> {
    pub(crate) iter: Iter<'a, K, V>,
}

/// A borrowing pass over the values of a map, in storage order.
/// Duplicable: `Clone` repeats the pass from its current position.
#[derive(Clone, Copy)]
pub struct Values<'a, K, V> {
    pub(crate) iter: Iter<'a, K, V>,
}

/// An owning pass over the pairs of a consumed map, in storage order.
pub struct IntoIter<K, V> {
    pub(crate) entries: Vec<(K, V)>,
}

/// A draining pass over the pairs of a map. The pairs leave the map when
/// [`LinearMap::drain`] returns, so the map is already empty while this
/// iterator yields them; pairs it never yields are simply dropped with it.
pub struct Drain<K, V> {
    pub(crate) entries: Vec<(K, V)>,
}

impl<'a, K, V> Iter<'a, K, V> {
    /// The cursors lie within the pair sequence.
    pub open(crate) spec fn wf(self) -> bool {
        self.front <= self.back <= self.entries@.len()
    }

    /// The pairs not yet yielded, in storage order.
    pub open(crate) spec fn remaining(self) -> Seq<(K, V)> {
        self.entries@.subrange(self.front as int, self.back as int)
    }

    /// Yields the front remaining pair, or `None` when the pass is done.
    pub fn next(&mut self) -> (r: Option<(&'a K, &'a V)>)
        requires
            old(self).wf(),
        ensures
            final(self).wf(),
            old(self).remaining().len() == 0 ==> r is None && *final(self) == *old(self),
            old(self).remaining().len() > 0 ==> (r matches Some(p) && {
                &&& *p.0 == old(self).remaining()[0].0
                &&& *p.1 == old(self).remaining()[0].1
                &&& final(self).remaining() == old(self).remaining().drop_first()
            }),
    {
        if self.front < self.back {
            let p = &self.entries[self.front];
            self.front += 1;
            proof {
                assert(self.remaining() =~= old(self).remaining().drop_first());
            }
            Some((&p.0, &p.1))
        } else {
            None
        }
    }

    /// Yields the back remaining pair, or `None` when the pass is done.
    pub fn next_back(&mut self) -> (r: Option<(&'a K, &'a V)>)
        requires
            old(self).wf(),
        ensures
            final(self).wf(),
            old(self).remaining().len() == 0 ==> r is None && *final(self) == *old(self),
            old(self).remaining().len() > 0 ==> (r matches Some(p) && {
                &&& *p.0 == old(self).remaining().last().0
                &&& *p.1 == old(self).remaining().last().1
                &&& final(self).remaining() == old(self).remaining().drop_last()
            }),
    {
        if self.front < self.back {
            self.back -= 1;
            let p = &self.entries[self.back];
            proof {
                assert(self.remaining() =~= old(self).remaining().drop_last());
            }
            Some((&p.0, &p.1))
        } else {
            None
        }
    }

    /// The exact number of pairs not yet yielded.
    pub fn len(&self) -> (n: usize)
        requires
            self.wf(),
        ensures
            n == self.remaining().len(),
    {
        self.back - self.front
    }
}

impl<'a, K, V> Keys<'a, K, V> {
    /// The cursors lie within the pair sequence.
    pub open(crate) spec fn wf(self) -> bool {
        self.iter.wf()
    }

    /// The keys not yet yielded, in storage order.
    pub open(crate) spec fn remaining(self) -> Seq<K> {
        self.iter.remaining().map_values(|p: (K, V)| p.0)
    }

    /// Yields the front remaining key, or `None` when the pass is done.
    pub fn next(&mut self) -> (r: Option<&'a K>)
        requires
            old(self).wf(),
        ensures
            final(self).wf(),
            old(self).remaining().len() == 0 ==> r is None && *final(self) == *old(self),
            old(self).remaining().len() > 0 ==> (r matches Some(k) && {
                &&& *k == old(self).remaining()[0]
                &&& final(self).remaining() == old(self).remaining().drop_first()
            }),
    {
        let r = self.iter.next();
        proof {
            if old(self).remaining().len() > 0 {
                assert(self.remaining() =~= old(self).remaining().drop_first());
            }
        }
        match r {
            Some(p) => Some(p.0),
            None => None,
        }
    }

    /// Yields the back remaining key, or `None` when the pass is done.
    pub fn next_back(&mut self) -> (r: Option<&'a K>)
        requires
            old(self).wf(),
        ensures
            final(self).wf(),
            old(self).remaining().len() == 0 ==> r is None && *final(self) == *old(self),
            old(self).remaining().len() > 0 ==> (r matches Some(k) && {
                &&& *k == old(self).remaining().last()
                &&& final(self).remaining() == old(self).remaining().drop_last()
            }),
    {
        let r = self.iter.next_back();
        proof {
            if old(self).remaining().len() > 0 {
                assert(self.remaining() =~= old(self).remaining().drop_last());
            }
        }
        match r {
            Some(p) => Some(p.0),
            None => None,
        }
    }

    /// The exact number of keys not yet yielded.
    pub fn len(&self) -> (n: usize)
        requires
            self.wf(),
        ensures
            n == self.remaining().len(),
    {
        self.iter.len()
    }
}

impl<'a, K, V> Values<'a, K, V> {
    /// The cursors lie within the pair sequence.
    pub open(crate) spec fn wf(self) -> bool {
        self.iter.wf()
    }

    /// The values not yet yielded, in storage order.
    pub open(crate) spec fn remaining(self) -> Seq<V> {
        self.iter.remaining().map_values(|p: (K, V)| p.1)
    }

    /// Yields the front remaining value, or `None` when the pass is done.
    pub fn next(&mut self) -> (r: Option<&'a V>)
        requires
            old(self).wf(),
        ensures
            final(self).wf(),
            old(self).remaining().len() == 0 ==> r is None && *final(self) == *old(self),
            old(self).remaining().len() > 0 ==> (r matches Some(v) && {
                &&& *v == old(self).remaining()[0]
                &&& final(self).remaining() == old(self).remaining().drop_first()
            }),
    {
        let r = self.iter.next();
        proof {
            if old(self).remaining().len() > 0 {
                assert(self.remaining() =~= old(self).remaining().drop_first());
            }
        }
        match r {
            Some(p) => Some(p.1),
            None => None,
        }
    }

    /// Yields the back remaining value, or `None` when the pass is done.
    pub fn next_back(&mut self) -> (r: Option<&'a V>)
        requires
            old(self).wf(),
        ensures
            final(self).wf(),
            old(self).remaining().len() == 0 ==> r is None && *final(self) == *old(self),
            old(self).remaining().len() > 0 ==> (r matches Some(v) && {
                &&& *v == old(self).remaining().last()
                &&& final(self).remaining() == old(self).remaining().drop_last()
            }),
    {
        let r = self.iter.next_back();
        proof {
            if old(self).remaining().len() > 0 {
                assert(self.remaining() =~= old(self).remaining().drop_last());
            }
        }
        match r {
            Some(p) => Some(p.1),
            None => None,
        }
    }

    /// The exact number of values not yet yielded.
    pub fn len(&self) -> (n: usize)
        requires
            self.wf(),
        ensures
            n == self.remaining().len(),
    {
        self.iter.len()
    }
}

impl<K, V> IntoIter<K, V> {
    /// The pairs not yet yielded, in storage order.
    pub open(crate) spec fn remaining(self) -> Seq<(K, V)> {
        self.entries@
    }

    /// Yields the front remaining pair, or `None` when the pass is done.
    pub fn next(&mut self) -> (r: Option<(K, V)>)
        ensures
            old(self).remaining().len() == 0 ==> r is None && *final(self) == *old(self),
            old(self).remaining().len() > 0 ==> r == Some(old(self).remaining()[0])
                && final(self).remaining() == old(self).remaining().drop_first(),
    {
        if self.entries.is_empty() {
            None
        } else {
            let p = self.entries.remove(0);
            proof {
                assert(self.remaining() =~= old(self).remaining().drop_first());
            }
            Some(p)
        }
    }

    /// Yields the back remaining pair, or `None` when the pass is done.
    pub fn next_back(&mut self) -> (r: Option<(K, V)>)
        ensures
            old(self).remaining().len() == 0 ==> r is None && final(self).remaining() == old(
                self,
            ).remaining(),
            old(self).remaining().len() > 0 ==> r == Some(old(self).remaining().last())
                && final(self).remaining() == old(self).remaining().drop_last(),
    {
        self.entries.pop()
    }

    /// The exact number of pairs not yet yielded.
    pub fn len(&self) -> (n: usize)
        ensures
            n == self.remaining().len(),
    {
        self.entries.len()
    }
}

impl<K, V> Drain<K, V> {
    /// The pairs not yet yielded, in storage order.
    pub open(crate) spec fn remaining(self) -> Seq<(K, V)> {
        self.entries@
    }

    /// Yields the front remaining pair, or `None` when the pass is done.
    pub fn next(&mut self) -> (r: Option<(K, V)>)
        ensures
            old(self).remaining().len() == 0 ==> r is None && *final(self) == *old(self),
            old(self).remaining().len() > 0 ==> r == Some(old(self).remaining()[0])
                && final(self).remaining() == old(self).remaining().drop_first(),
    {
        if self.entries.is_empty() {
            None
        } else {
            let p = self.entries.remove(0);
            proof {
                assert(self.remaining() =~= old(self).remaining().drop_first());
            }
            Some(p)
        }
    }

    /// Yields the back remaining pair, or `None` when the pass is done.
    pub fn next_back(&mut self) -> (r: Option<(K, V)>)
        ensures
            old(self).remaining().len() == 0 ==> r is None && final(self).remaining() == old(
                self,
            ).remaining(),
            old(self).remaining().len() > 0 ==> r == Some(old(self).remaining().last())
                && final(self).remaining() == old(self).remaining().drop_last(),
    {
        self.entries.pop()
    }

    /// The exact number of pairs not yet yielded.
    pub fn len(&self) -> (n: usize)
        ensures
            n == self.remaining().len(),
    {
        self.entries.len()
    }
}

/// A mutably borrowing pass over the pairs of a map: each step yields the
/// next key together with a mutable reference to its value. A step's
/// references die before the next step, so the pass is driven one call at
/// a time.
pub struct IterMut<'a, K, V> {
    pub(crate) entries: &'a mut Vec<(K, V)>,
    pub(crate) front: usize,
    pub(crate) back: usize,
}

impl<'a, K, V> IterMut<'a, K, V> {
    /// The borrow of the pair vector that the pass holds.
    pub open(crate) spec fn entries_ref(self) -> &'a mut Vec<(K, V)> {
        self.entries
    }

    /// The pair sequence as the pass sees it now.
    pub open(crate) spec fn current_entries(self) -> Seq<(K, V)> {
        self.entries@
    }

    /// The front cursor.
    pub open(crate) spec fn spec_front(self) -> usize {
        self.front
    }

    /// The back cursor.
    pub open(crate) spec fn spec_back(self) -> usize {
        self.back
    }

    /// The cursors lie within the pair sequence.
    pub open(crate) spec fn wf(self) -> bool {
        self.front <= self.back <= self.entries@.len()
    }

    /// Yields the front remaining pair — the key read-only, the value
    /// mutably — or `None` when the pass is done. Writing through the
    /// value reference changes that value and nothing else.
    pub fn next(&mut self) -> (r: Option<(&K, &mut V)>)
        requires
            old(self).wf(),
        ensures
            final(self).wf(),
            old(self).spec_front() == old(self).spec_back() ==> r is None && *final(self) == *old(
                self,
            ),
            old(self).spec_front() < old(self).spec_back() ==> (r matches Some(p) && {
                &&& *p.0 == old(self).current_entries()[old(self).spec_front() as int].0
                &&& *p.1 == old(self).current_entries()[old(self).spec_front() as int].1
                &&& final(self).spec_front() == old(self).spec_front() + 1
                &&& final(self).spec_back() == old(self).spec_back()
                &&& final(self).current_entries() == old(self).current_entries().update(
                    old(self).spec_front() as int,
                    (*p.0, *final(p.1)),
                )
                &&& final(final(self).entries_ref())@ == final(old(self).entries_ref())@
            }),
    {
        if self.front < self.back {
            let i = self.front;
            self.front = i + 1;
            let p = pair_split_mut(&mut self.entries[i]);
            Some(p)
        } else {
            None
        }
    }

    /// Yields the back remaining pair — the key read-only, the value
    /// mutably — or `None` when the pass is done. Writing through the
    /// value reference changes that value and nothing else.
    pub fn next_back(&mut self) -> (r: Option<(&K, &mut V)>)
        requires
            old(self).wf(),
        ensures
            final(self).wf(),
            old(self).spec_front() == old(self).spec_back() ==> r is None && *final(self) == *old(
                self,
            ),
            old(self).spec_front() < old(self).spec_back() ==> (r matches Some(p) && {
                &&& *p.0 == old(self).current_entries()[old(self).spec_back() - 1].0
                &&& *p.1 == old(self).current_entries()[old(self).spec_back() - 1].1
                &&& final(self).spec_front() == old(self).spec_front()
                &&& final(self).spec_back() == old(self).spec_back() - 1
                &&& final(self).current_entries() == old(self).current_entries().update(
                    old(self).spec_back() - 1,
                    (*p.0, *final(p.1)),
                )
                &&& final(final(self).entries_ref())@ == final(old(self).entries_ref())@
            }),
    {
        if self.front < self.back {
            let i = self.back - 1;
            self.back = i;
            let p = pair_split_mut(&mut self.entries[i]);
            Some(p)
        } else {
            None
        }
    }

    /// The exact number of pairs not yet yielded.
    pub fn len(&self) -> (n: usize)
        requires
            self.wf(),
        ensures
            n == self.spec_back() - self.spec_front(),
    {
        self.back - self.front
    }
}

impl<K: Eq, V> LinearMap<K, V> {
    /// A borrowing pass over every pair, in storage order.
    pub fn iter<'a>(&'a self) -> (it: Iter<'a, K, V>)
        ensures
            it.wf(),
            it.remaining() == self.pairs(),
    {
        let n = self.storage.len();
        proof {
            assert(self.pairs().subrange(0, n as int) =~= self.pairs());
        }
        Iter { entries: &self.storage, front: 0, back: n }
    }

    /// A borrowing pass over every key, in storage order.
    pub fn keys<'a>(&'a self) -> (it: Keys<'a, K, V>)
        ensures
            it.wf(),
            it.remaining() == self.pairs().map_values(|p: (K, V)| p.0),
    {
        Keys { iter: self.iter() }
    }

    /// A borrowing pass over every value, in storage order.
    pub fn values<'a>(&'a self) -> (it: Values<'a, K, V>)
        ensures
            it.wf(),
            it.remaining() == self.pairs().map_values(|p: (K, V)| p.1),
    {
        Values { iter: self.iter() }
    }

    /// A mutably borrowing pass over every pair, in storage order. The
    /// map's eventual pairs are whatever the pass leaves behind; the pass
    /// itself only ever changes values, never keys.
    pub fn iter_mut<'a>(&'a mut self) -> (it: IterMut<'a, K, V>)
        ensures
            it.wf(),
            it.current_entries() == old(self).pairs(),
            it.spec_front() == 0,
            it.spec_back() == old(self).pairs().len(),
            final(self).pairs() == final(it.entries_ref())@,
    {
        let n = self.storage.len();
        IterMut { entries: &mut self.storage, front: 0, back: n }
    }

    /// Consumes the map into an owning pass over every pair, in storage
    /// order.
    pub fn into_iter(self) -> (it: IntoIter<K, V>)
        ensures
            it.remaining() == self.pairs(),
    {
        IntoIter { entries: self.storage }
    }

    /// Removes every pair and returns an owning pass that yields them in
    /// storage order. The map is empty as soon as this returns: pairs the
    /// iterator never yields are dropped with it, not put back.
    pub fn drain(&mut self) -> (d: Drain<K, V>)
        ensures
            d.remaining() == old(self).pairs(),
            final(self).wf(),
            final(self).pairs() == Seq::<(K, V)>::empty(),
            final(self)@ == Map::<K, V>::empty(),
    {
        proof {
            lemma_as_map_empty::<K, V>();
        }
        let mut drained: Vec<(K, V)> = Vec::new();
        core::mem::swap(&mut self.storage, &mut drained);
        Drain { entries: drained }
    }
}

} // verus!
