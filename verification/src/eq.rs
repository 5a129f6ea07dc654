//! Structural equality of maps, independent of insertion order: two maps
//! are equal exactly when they are the same length and every key of one
//! maps to an equal value in the other.

use vstd::prelude::*;
use vstd::std_specs::cmp::PartialEqSpec;

use crate::map::LinearMap;
use crate::model::{
    first_value, key_index, lemma_first_value_absent, lemma_first_value_found,
    lemma_first_value_is_map_value, lemma_key_index_unique, lemma_map_of_pairs_is_as_map,
    lemma_map_of_pairs_len, obeys_eq_model,
};

verus! {

/// What the pairwise comparison computes: the two maps hold as many pairs
/// each, and the first pair of `b` that carries a key of `a` carries the
/// same value. On well-formed maps this is exactly view equality; see
/// [`lemma_eq_is_map_eq`].
pub open(crate) spec fn map_eq_spec<K, V>(a: LinearMap<K, V>, b: LinearMap<K, V>) -> bool {
    &&& a.pairs().len() == b.pairs().len()
    &&& forall|i: int|
        0 <= i < a.pairs().len() ==> first_value(b.pairs(), (#[trigger] a.pairs()[i]).0) == Some(
            a.pairs()[i].1,
        )
}

/// The first value of the scan of `entries` for `key`, computed with the
/// executable `==` of the key type.
fn scan_value<'x, K: Eq, V>(entries: &'x Vec<(K, V)>, key: &K) -> (r: Option<&'x V>)
    ensures
        obeys_eq_model::<K>() ==> match r {
            Some(v) => first_value(entries@, *key) == Some(*v),
            None => first_value(entries@, *key) is None,
        },
{
    let n = entries.len();
    let mut j: usize = 0;
    while j < n
        invariant
            n == entries@.len(),
            j <= n,
            obeys_eq_model::<K>() ==> forall|l: int|
                0 <= l < j ==> (#[trigger] entries@[l]).0 != *key,
        decreases n - j,
    {
        if entries[j].0 == *key {
            proof {
                if obeys_eq_model::<K>() {
                    lemma_first_value_found(entries@, *key, j as int);
                }
            }
            return Some(&entries[j].1);
        }
        j += 1;
    }
    proof {
        if obeys_eq_model::<K>() {
            lemma_first_value_absent(entries@, *key);
        }
    }
    None
}

impl<K: Eq, V: PartialEq> PartialEq for LinearMap<K, V> {
    fn eq(&self, other: &Self) -> (r: bool) {
        let n = self.storage.len();
        if n != other.storage.len() {
            return false;
        }
        let mut i: usize = 0;
        while i < n
            invariant
                n == self.pairs().len(),
                n == other.pairs().len(),
                i <= n,
                obeys_eq_model::<K>() && obeys_eq_model::<V>() ==> forall|j: int|
                    0 <= j < i ==> first_value(other.pairs(), (#[trigger] self.pairs()[j]).0)
                        == Some(self.pairs()[j].1),
            decreases n - i,
        {
            match scan_value(&other.storage, &self.storage[i].0) {
                Some(v) => {
                    if !(*v == self.storage[i].1) {
                        return false;
                    }
                },
                None => {
                    return false;
                },
            }
            i += 1;
        }
        true
    }
}

impl<K: Eq, V: PartialEq> vstd::std_specs::cmp::PartialEqSpecImpl for LinearMap<K, V> {
    open spec fn obeys_eq_spec() -> bool {
        obeys_eq_model::<K>() && obeys_eq_model::<V>()
    }

    open spec fn eq_spec(&self, other: &Self) -> bool {
        map_eq_spec(*self, *other)
    }
}

impl<K: Eq, V: Eq> Eq for LinearMap<K, V> {}

/// On well-formed maps the pairwise comparison that `==` computes holds
/// exactly when the two maps associate the same values to the same keys:
/// equality does not depend on the order the pairs were inserted in.
pub proof fn lemma_eq_is_map_eq<K, V>(a: LinearMap<K, V>, b: LinearMap<K, V>)
    requires
        a.wf(),
        b.wf(),
    ensures
        map_eq_spec(a, b) <==> a@ == b@,
{
    lemma_map_of_pairs_is_as_map(a.pairs());
    lemma_map_of_pairs_len(a.pairs());
    lemma_map_of_pairs_is_as_map(b.pairs());
    lemma_map_of_pairs_len(b.pairs());
    if map_eq_spec(a, b) {
        assert forall|q: K| #[trigger] a@.contains_key(q) implies b@.contains_key(q) && a@[q]
            == b@[q] by {
            let i = key_index(a.pairs(), q);
            assert(0 <= i < a.pairs().len() && a.pairs()[i].0 == q);
            lemma_key_index_unique(a.pairs(), i);
            assert(first_value(b.pairs(), q) == Some(a.pairs()[i].1));
            lemma_first_value_is_map_value(b.pairs(), q);
        }
        assert(a@.dom().subset_of(b@.dom()));
        vstd::set_lib::lemma_subset_equality(a@.dom(), b@.dom());
        assert(a@ =~= b@);
    }
    if a@ == b@ {
        assert forall|i: int| 0 <= i < a.pairs().len() implies first_value(
            b.pairs(),
            (#[trigger] a.pairs()[i]).0,
        ) == Some(a.pairs()[i].1) by {
            let q = a.pairs()[i].0;
            lemma_key_index_unique(a.pairs(), i);
            assert(a@.contains_key(q) && a@[q] == a.pairs()[i].1);
            lemma_first_value_is_map_value(b.pairs(), q);
        }
    }
}

impl<K: Eq, V> Default for LinearMap<K, V> {
    /// The empty map.
    fn default() -> (m: Self)
        ensures
            m.wf(),
            m.pairs() == Seq::<(K, V)>::empty(),
            m@ == Map::<K, V>::empty(),
    {
        Self::new()
    }
}

} // verus!
