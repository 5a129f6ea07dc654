//! The mathematical model of the map: spec functions over the pair sequence
//! that backs a `LinearMap`, and the lemmas that relate them.

use vstd::prelude::*;
use vstd::std_specs::cmp::PartialEqSpec;

verus! {

/// Executable `==` on `T` agrees with mathematical equality.
///
/// The contracts of this crate speak of mathematical equality of keys and
/// values; the executable code compares with `==`. The two coincide exactly
/// for types whose `PartialEq` satisfies this predicate, such as the
/// primitive integers, `bool`, `char`, and types that derive `PartialEq`
/// structurally from such fields.
pub open spec fn obeys_eq_model<T: PartialEq>() -> bool {
    &&& T::obeys_eq_spec()
    &&& forall|x: T, y: T| #[trigger] x.eq_spec(&y) <==> x == y
}

/// No two pairs of the sequence carry the same key: the storage invariant
/// of a `LinearMap`.
pub open spec fn distinct_keys<K, V>(s: Seq<(K, V)>) -> bool {
    forall|i: int, j: int| 0 <= i < j < s.len() ==> (#[trigger] s[i]).0 != (#[trigger] s[j]).0
}

/// Some pair of the sequence carries the key `k`.
pub open spec fn has_key<K, V>(s: Seq<(K, V)>, k: K) -> bool {
    exists|i: int| 0 <= i < s.len() && (#[trigger] s[i]).0 == k
}

/// An index whose pair carries the key `k`; under `distinct_keys` it is the
/// only one.
pub open spec fn key_index<K, V>(s: Seq<(K, V)>, k: K) -> int {
    choose|i: int| 0 <= i < s.len() && (#[trigger] s[i]).0 == k
}

/// The value of the first pair that carries the key `k`, as the linear scan
/// finds it; `None` when no pair does.
pub open spec fn first_value<K, V>(s: Seq<(K, V)>, k: K) -> Option<V>
    decreases s.len(),
{
    if s.len() == 0 {
        None
    } else if s[0].0 == k {
        Some(s[0].1)
    } else {
        first_value(s.drop_first(), k)
    }
}

/// The association that the sequence holds, read as a mathematical map.
pub open spec fn as_map<K, V>(s: Seq<(K, V)>) -> Map<K, V> {
    Map::new(|k: K| has_key(s, k), |k: K| s[key_index(s, k)].1)
}

/// The map that inserting the pairs of `s` in order into an empty map
/// builds: on a repeated key the later pair wins.
pub open spec fn map_of_pairs<K, V>(s: Seq<(K, V)>) -> Map<K, V>
    decreases s.len(),
{
    if s.len() == 0 {
        Map::<K, V>::empty()
    } else {
        map_of_pairs(s.drop_last()).insert(s.last().0, s.last().1)
    }
}

/// Under `distinct_keys`, the index of a key is unique, so `key_index`
/// returns exactly the index of any pair that carries it.
pub proof fn lemma_key_index_unique<K, V>(s: Seq<(K, V)>, i: int)
    requires
        distinct_keys(s),
        0 <= i < s.len(),
    ensures
        has_key(s, s[i].0),
        key_index(s, s[i].0) == i,
{
    assert(has_key(s, s[i].0));
    let j = key_index(s, s[i].0);
    if i < j {
        assert(s[i].0 != s[j].0);
    } else if j < i {
        assert(s[j].0 != s[i].0);
    }
}

/// The empty sequence models the empty map.
pub proof fn lemma_as_map_empty<K, V>()
    ensures
        as_map(Seq::<(K, V)>::empty()) == Map::<K, V>::empty(),
{
    assert(as_map(Seq::<(K, V)>::empty()) =~= Map::<K, V>::empty());
}

/// Appending a pair with a fresh key inserts it into the modelled map and
/// keeps the keys distinct.
pub proof fn lemma_as_map_push<K, V>(s: Seq<(K, V)>, k: K, v: V)
    requires
        distinct_keys(s),
        !has_key(s, k),
    ensures
        distinct_keys(s.push((k, v))),
        as_map(s.push((k, v))) == as_map(s).insert(k, v),
{
    let t = s.push((k, v));
    assert forall|i: int, j: int| 0 <= i < j < t.len() implies (#[trigger] t[i]).0 != (
    #[trigger] t[j]).0 by {
        if j < s.len() {
            assert(s[i].0 != s[j].0);
        } else {
            assert(t[j] == (k, v));
            assert(t[i] == s[i]);
            if t[i].0 == k {
                assert(has_key(s, k));
            }
        }
    }
    assert forall|q: K| #[trigger] has_key(t, q) implies as_map(t)[q] == as_map(s).insert(k, v)[q]
        && as_map(s).insert(k, v).contains_key(q) by {
        let i = key_index(t, q);
        assert(0 <= i < t.len() && t[i].0 == q);
        if q == k {
            lemma_key_index_unique(t, s.len() as int);
        } else {
            assert(t[i] == s[i]);
            assert(has_key(s, q));
            let j = key_index(s, q);
            assert(t[j] == s[j]);
            lemma_key_index_unique(t, j);
        }
    }
    assert forall|q: K| as_map(s).insert(k, v).contains_key(q) implies has_key(t, q) by {
        if q == k {
            assert(t[s.len() as int].0 == k);
        } else {
            let j = key_index(s, q);
            assert(t[j] == s[j]);
        }
    }
    assert(as_map(t) =~= as_map(s).insert(k, v));
}

/// Replacing the value at an index reassociates that pair's key and keeps
/// the keys distinct.
pub proof fn lemma_as_map_update<K, V>(s: Seq<(K, V)>, i: int, v: V)
    requires
        distinct_keys(s),
        0 <= i < s.len(),
    ensures
        distinct_keys(s.update(i, (s[i].0, v))),
        as_map(s.update(i, (s[i].0, v))) == as_map(s).insert(s[i].0, v),
{
    let k = s[i].0;
    let t = s.update(i, (k, v));
    assert forall|p: int, q: int| 0 <= p < q < t.len() implies (#[trigger] t[p]).0 != (
    #[trigger] t[q]).0 by {
        assert(t[p].0 == s[p].0 && t[q].0 == s[q].0);
        assert(s[p].0 != s[q].0);
    }
    assert forall|q: K| #[trigger] has_key(t, q) implies as_map(s).insert(k, v).contains_key(q)
        && as_map(t)[q] == as_map(s).insert(k, v)[q] by {
        let a = key_index(t, q);
        assert(0 <= a < t.len() && t[a].0 == q);
        assert(s[a].0 == q);
        assert(has_key(s, q));
        lemma_key_index_unique(s, a);
        lemma_key_index_unique(t, a);
        if q == k {
            lemma_key_index_unique(t, i);
            assert(t[i] == (k, v));
            assert(as_map(t)[q] == t[i].1);
        } else {
            assert(a != i);
            assert(t[a] == s[a]);
            assert(as_map(t)[q] == t[a].1);
            assert(as_map(s)[q] == s[a].1);
        }
    }
    assert forall|q: K| as_map(s).insert(k, v).contains_key(q) implies has_key(t, q) by {
        assert(has_key(s, q));
        let a = key_index(s, q);
        assert(t[a].0 == s[a].0 && s[a].0 == q);
    }
    assert(as_map(t) =~= as_map(s).insert(k, v));
}

/// Swap-removal at an index — moving the last pair into the slot and
/// dropping the last slot — removes exactly that pair's key from the
/// modelled map and keeps the keys distinct.
pub proof fn lemma_as_map_swap_remove<K, V>(s: Seq<(K, V)>, i: int)
    requires
        distinct_keys(s),
        0 <= i < s.len(),
    ensures
        distinct_keys(s.update(i, s.last()).drop_last()),
        as_map(s.update(i, s.last()).drop_last()) == as_map(s).remove(s[i].0),
{
    let k = s[i].0;
    let n = s.len() as int;
    let t = s.update(i, s.last()).drop_last();
    assert(t.len() == n - 1);
    assert forall|p: int| 0 <= p < t.len() implies #[trigger] t[p] == (if p == i && i < n - 1 {
        s[n - 1]
    } else {
        s[p]
    }) by {
    }
    assert forall|p: int, q: int| 0 <= p < q < t.len() implies (#[trigger] t[p]).0 != (
    #[trigger] t[q]).0 by {
        let sp: int = if p == i && i < n - 1 { n - 1 } else { p };
        let sq: int = if q == i && i < n - 1 { n - 1 } else { q };
        assert(t[p] == s[sp] && t[q] == s[sq]);
        assert(sp != sq);
        if sp < sq {
            assert(s[sp].0 != s[sq].0);
        } else {
            assert(s[sq].0 != s[sp].0);
        }
    }
    assert forall|q: K| #[trigger] has_key(t, q) implies q != k && has_key(s, q) && as_map(t)[q]
        == as_map(s)[q] by {
        let a = key_index(t, q);
        let sa: int = if a == i && i < n - 1 { n - 1 } else { a };
        assert(t[a] == s[sa]);
        assert(s[sa].0 == q);
        lemma_key_index_unique(s, sa);
        lemma_key_index_unique(s, i);
        lemma_key_index_unique(t, a);
    }
    assert forall|q: K| #[trigger] has_key(s, q) && q != k implies has_key(t, q) by {
        let a = key_index(s, q);
        lemma_key_index_unique(s, a);
        lemma_key_index_unique(s, i);
        if a == n - 1 {
            if i < n - 1 {
                assert(t[i] == s[n - 1]);
            } else {
                assert(a == i);
            }
        } else {
            assert(t[a] == s[a]);
        }
    }
    assert(as_map(t) =~= as_map(s).remove(k));
}

/// The linear scan's first match agrees with the modelled map wherever the
/// keys are distinct.
pub proof fn lemma_first_value_is_map_value<K, V>(s: Seq<(K, V)>, k: K)
    requires
        distinct_keys(s),
    ensures
        has_key(s, k) ==> first_value(s, k) == Some(as_map(s)[k]),
        !has_key(s, k) ==> first_value(s, k) is None,
    decreases s.len(),
{
    if s.len() == 0 {
    } else if s[0].0 == k {
        lemma_key_index_unique(s, 0);
    } else {
        let r = s.drop_first();
        assert forall|p: int, q: int| 0 <= p < q < r.len() implies (#[trigger] r[p]).0 != (
        #[trigger] r[q]).0 by {
            assert(s[p + 1].0 != s[q + 1].0);
        }
        lemma_first_value_is_map_value(r, k);
        if has_key(r, k) {
            let a = key_index(r, k);
            assert(s[a + 1] == r[a]);
            lemma_key_index_unique(s, a + 1);
            lemma_key_index_unique(r, a);
            assert(has_key(s, k));
        }
        if has_key(s, k) {
            let a = key_index(s, k);
            assert(a != 0);
            assert(r[a - 1] == s[a]);
            assert(has_key(r, k));
        }
    }
}

/// Building a map by inserting distinct-keyed pairs in order gives exactly
/// the association the sequence models.
pub proof fn lemma_map_of_pairs_is_as_map<K, V>(s: Seq<(K, V)>)
    requires
        distinct_keys(s),
    ensures
        map_of_pairs(s) == as_map(s),
    decreases s.len(),
{
    if s.len() == 0 {
        lemma_as_map_empty::<K, V>();
    } else {
        let d = s.drop_last();
        assert(distinct_keys(d)) by {
            assert forall|p: int, q: int| 0 <= p < q < d.len() implies (#[trigger] d[p]).0 != (
            #[trigger] d[q]).0 by {
                assert(s[p].0 != s[q].0);
            }
        }
        lemma_map_of_pairs_is_as_map(d);
        assert(!has_key(d, s.last().0)) by {
            if has_key(d, s.last().0) {
                let a = key_index(d, s.last().0);
                assert(s[a].0 == s[s.len() - 1].0);
            }
        }
        lemma_as_map_push(d, s.last().0, s.last().1);
        assert(d.push(s.last()) =~= s);
    }
}

/// A map built from distinct-keyed pairs has exactly one entry per pair.
pub proof fn lemma_map_of_pairs_len<K, V>(s: Seq<(K, V)>)
    requires
        distinct_keys(s),
    ensures
        map_of_pairs(s).dom().finite(),
        map_of_pairs(s).dom().len() == s.len(),
        forall|i: int|
            0 <= i < s.len() ==> map_of_pairs(s).contains_key((#[trigger] s[i]).0)
                && map_of_pairs(s)[s[i].0] == s[i].1,
    decreases s.len(),
{
    lemma_map_of_pairs_is_as_map(s);
    if s.len() == 0 {
        lemma_as_map_empty::<K, V>();
    } else {
        let d = s.drop_last();
        assert(distinct_keys(d)) by {
            assert forall|p: int, q: int| 0 <= p < q < d.len() implies (#[trigger] d[p]).0 != (
            #[trigger] d[q]).0 by {
                assert(s[p].0 != s[q].0);
            }
        }
        lemma_map_of_pairs_len(d);
        assert(!map_of_pairs(d).contains_key(s.last().0)) by {
            lemma_map_of_pairs_is_as_map(d);
            if has_key(d, s.last().0) {
                let a = key_index(d, s.last().0);
                assert(s[a].0 == s[s.len() - 1].0);
            }
        }
        assert(map_of_pairs(s).dom() =~= map_of_pairs(d).dom().insert(s.last().0));
    }
    assert forall|i: int| 0 <= i < s.len() implies map_of_pairs(s).contains_key(
        (#[trigger] s[i]).0,
    ) && map_of_pairs(s)[s[i].0] == s[i].1 by {
        lemma_key_index_unique(s, i);
    }
}

/// The linear scan returns the value at the first index that carries the
/// key.
pub proof fn lemma_first_value_found<K, V>(s: Seq<(K, V)>, k: K, j: int)
    requires
        0 <= j < s.len(),
        s[j].0 == k,
        forall|l: int| 0 <= l < j ==> (#[trigger] s[l]).0 != k,
    ensures
        first_value(s, k) == Some(s[j].1),
    decreases s.len(),
{
    if s[0].0 == k {
        assert(j == 0);
    } else {
        let r = s.drop_first();
        assert(forall|l: int| 0 <= l < j - 1 ==> (#[trigger] r[l]).0 != k);
        lemma_first_value_found(r, k, j - 1);
    }
}

/// The linear scan finds nothing when no pair carries the key.
pub proof fn lemma_first_value_absent<K, V>(s: Seq<(K, V)>, k: K)
    requires
        forall|l: int| 0 <= l < s.len() ==> (#[trigger] s[l]).0 != k,
    ensures
        first_value(s, k) is None,
    decreases s.len(),
{
    if s.len() > 0 {
        let r = s.drop_first();
        assert(forall|l: int| 0 <= l < r.len() ==> (#[trigger] r[l]).0 != k);
        lemma_first_value_absent(r, k);
    }
}

/// Building a map from distinct-keyed pairs does not depend on their
/// order: the reversed sequence builds the same map.
pub proof fn lemma_map_of_pairs_reverse<K, V>(s: Seq<(K, V)>)
    requires
        distinct_keys(s),
    ensures
        map_of_pairs(s.reverse()) == map_of_pairs(s),
{
    let t = s.reverse();
    let n = s.len() as int;
    assert(distinct_keys(t)) by {
        assert forall|p: int, q: int| 0 <= p < q < t.len() implies (#[trigger] t[p]).0 != (
        #[trigger] t[q]).0 by {
            assert(t[p] == s[n - 1 - p] && t[q] == s[n - 1 - q]);
            assert(s[n - 1 - q].0 != s[n - 1 - p].0);
        }
    }
    lemma_map_of_pairs_is_as_map(s);
    lemma_map_of_pairs_is_as_map(t);
    assert forall|q: K| #[trigger] has_key(t, q) implies has_key(s, q) && as_map(t)[q] == as_map(
        s,
    )[q] by {
        let a = key_index(t, q);
        assert(t[a] == s[n - 1 - a]);
        lemma_key_index_unique(s, n - 1 - a);
        lemma_key_index_unique(t, a);
    }
    assert forall|q: K| #[trigger] has_key(s, q) implies has_key(t, q) by {
        let a = key_index(s, q);
        assert(t[n - 1 - a] == s[a]);
    }
    assert(as_map(t) =~= as_map(s));
}

} // verus!
