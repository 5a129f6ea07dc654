use linear_map::LinearMap;
use linear_map::Entry;

#[test]
fn test_distinct_inserts_len_and_get() {
    let mut map = LinearMap::new();
    let pairs = [(3, 30), (1, 10), (4, 40), (1500, 15), (9, 90)];
    for (i, &(k, v)) in pairs.iter().enumerate() {
        assert!(map.insert(k, v).is_none());
        assert_eq!(map.len(), i + 1);
    }
    assert_eq!(map.len(), pairs.len());
    for &(k, v) in pairs.iter() {
        assert_eq!(map.get(&k), Some(&v));
    }
}

#[test]
fn test_insert_existing_key() {
    let mut map = LinearMap::new();
    assert!(map.insert("k", 1).is_none());
    assert!(map.insert("other", 7).is_none());
    let before = map.len();
    assert_eq!(map.insert("k", 2), Some(1));
    assert_eq!(map.len(), before);
    assert_eq!(map.get(&"k"), Some(&2));
}

#[test]
fn test_remove_present_and_absent() {
    let mut map = LinearMap::new();
    map.insert(1, 100);
    map.insert(2, 200);
    map.insert(3, 300);
    assert_eq!(map.remove(&2), Some(200));
    assert_eq!(map.len(), 2);
    assert_eq!(map.get(&2), None);
    assert!(!map.contains_key(&2));
    assert_eq!(map.remove(&2), None);
    assert_eq!(map.len(), 2);
    assert_eq!(map.remove(&999), None);
    assert_eq!(map.len(), 2);
}

#[test]
fn test_eq_order_independence() {
    let forward = vec![('a', 1), ('b', 2), ('c', 3)];
    let backward = vec![('c', 3), ('b', 2), ('a', 1)];
    let m1 = LinearMap::from_pairs(forward);
    let m2 = LinearMap::from_pairs(backward);
    assert_eq!(m1, m2);
    assert_eq!(m2, m1);
}

#[test]
fn test_pairs_round_trip() {
    let mut map = LinearMap::new();
    map.insert("x", 1);
    map.insert("y", 2);
    map.insert("z", 3);
    map.remove(&"y");
    let copy = map.clone();
    let rebuilt = LinearMap::from_pairs(map.into_vec());
    assert_eq!(rebuilt, copy);
}

#[test]
fn test_drain_yields_all_and_empties() {
    let mut map = LinearMap::new();
    map.insert(1, 10);
    map.insert(2, 20);
    map.insert(3, 30);
    let mut drained: Vec<(i32, i32)> = Vec::new();
    let mut d = map.drain();
    assert_eq!(d.len(), 3);
    while let Some(p) = d.next() {
        drained.push(p);
    }
    assert_eq!(map.len(), 0);
    assert!(map.is_empty());
    drained.sort();
    assert_eq!(drained, vec![(1, 10), (2, 20), (3, 30)]);
}

#[test]
fn test_drain_abandoned_still_empties() {
    let mut map = LinearMap::new();
    map.insert(1, 10);
    map.insert(2, 20);
    {
        let mut d = map.drain();
        let _ = d.next();
        // The rest of the pairs are dropped with the iterator.
    }
    assert_eq!(map.len(), 0);
    assert_eq!(map.get(&2), None);
}

#[test]
fn test_scenario_insert_get_remove() {
    let mut map = LinearMap::new();
    map.insert("a", 1);
    map.insert("b", 2);
    map.insert("c", 3);
    map.insert("d", 4);
    assert_eq!(map.get(&"e"), None);
    assert_eq!(map.remove(&"b"), Some(2));
    assert_eq!(map.len(), 3);
    assert_eq!(map.get(&"b"), None);
    assert_eq!(map.get(&"c"), Some(&3));
    assert_eq!(map.get(&"d"), Some(&4));
    assert_eq!(map.get(&"a"), Some(&1));
}

#[test]
fn test_entry_or_insert_scenario() {
    let mut map = LinearMap::new();
    {
        let v = map.entry("x").or_insert(10);
        assert_eq!(*v, 10);
    }
    assert_eq!(map.len(), 1);
    {
        let v = map.entry("x").or_insert(99);
        assert_eq!(*v, 10);
    }
    assert_eq!(map.len(), 1);
    assert_eq!(map.get(&"x"), Some(&10));
}

#[test]
fn test_entry_or_insert_with() {
    let mut map = LinearMap::new();
    {
        let v = map.entry(5).or_insert_with(|| 50);
        assert_eq!(*v, 50);
        *v += 1;
    }
    assert_eq!(map.get(&5), Some(&51));
    {
        let v = map.entry(5).or_insert_with(|| 1000);
        assert_eq!(*v, 51);
    }
    assert_eq!(map.len(), 1);
}

#[test]
fn test_entry_into_mut() {
    let mut map = LinearMap::new();
    map.insert(7, 70);
    match map.entry(7) {
        Entry::Vacant(_) => unreachable!(),
        Entry::Occupied(view) => {
            let v = view.into_mut();
            *v = 77;
        }
    }
    assert_eq!(map.get(&7), Some(&77));
}

#[test]
fn test_iterators_from_back() {
    let mut map = LinearMap::new();
    map.insert(1, 10);
    map.insert(2, 20);
    map.insert(3, 30);

    let mut it = map.iter();
    assert_eq!(it.len(), 3);
    assert_eq!(it.next_back(), Some((&3, &30)));
    assert_eq!(it.next(), Some((&1, &10)));
    assert_eq!(it.len(), 1);
    assert_eq!(it.next_back(), Some((&2, &20)));
    assert_eq!(it.next(), None);
    assert_eq!(it.next_back(), None);
    assert_eq!(it.len(), 0);

    let mut keys = map.keys();
    assert_eq!(keys.next_back(), Some(&3));
    assert_eq!(keys.next(), Some(&1));
    assert_eq!(keys.next(), Some(&2));
    assert_eq!(keys.next(), None);

    let mut values = map.values();
    assert_eq!(values.next_back(), Some(&30));
    assert_eq!(values.next(), Some(&10));
    assert_eq!(values.next(), Some(&20));
    assert_eq!(values.next(), None);
}

#[test]
fn test_iter_duplicable() {
    let mut map = LinearMap::new();
    map.insert(1, 10);
    map.insert(2, 20);
    let mut it = map.iter();
    assert_eq!(it.next(), Some((&1, &10)));
    let mut copy = it.clone();
    assert_eq!(it.next(), Some((&2, &20)));
    assert_eq!(copy.next(), Some((&2, &20)));
    assert_eq!(it.next(), None);
    assert_eq!(copy.next(), None);
}

#[test]
fn test_into_iter_owning() {
    let mut map = LinearMap::new();
    map.insert("a", 1);
    map.insert("b", 2);
    let mut it = map.into_iter();
    assert_eq!(it.len(), 2);
    assert_eq!(it.next(), Some(("a", 1)));
    assert_eq!(it.next_back(), Some(("b", 2)));
    assert_eq!(it.next(), None);
    assert_eq!(it.next_back(), None);
}

#[test]
fn test_iter_mut_updates_values() {
    let mut map = LinearMap::new();
    map.insert(1, 10);
    map.insert(2, 20);
    map.insert(3, 30);
    {
        let mut it = map.iter_mut();
        while let Some((k, v)) = it.next() {
            *v += *k;
        }
    }
    assert_eq!(map.get(&1), Some(&11));
    assert_eq!(map.get(&2), Some(&22));
    assert_eq!(map.get(&3), Some(&33));
    {
        let mut it = map.iter_mut();
        assert_eq!(it.len(), 3);
        if let Some((k, v)) = it.next_back() {
            assert_eq!((*k, *v), (3, 33));
            *v = 0;
        }
    }
    assert_eq!(map.get(&3), Some(&0));
}

#[test]
fn test_extend_inserts_in_order() {
    let mut map = LinearMap::new();
    map.insert(1, 100);
    map.extend(vec![(2, 200), (1, 111), (3, 300)]);
    assert_eq!(map.len(), 3);
    assert_eq!(map.get(&1), Some(&111));
    assert_eq!(map.get(&2), Some(&200));
    assert_eq!(map.get(&3), Some(&300));
}

#[test]
fn test_from_pairs_later_pair_wins() {
    let map = LinearMap::from_pairs(vec![("k", 1), ("k", 2), ("j", 5)]);
    assert_eq!(map.len(), 2);
    assert_eq!(map.get(&"k"), Some(&2));
    assert_eq!(map.get(&"j"), Some(&5));
}

#[test]
fn test_reserve_exact_keeps_contents() {
    let mut map = LinearMap::new();
    map.insert(1, 2);
    map.reserve_exact(50);
    assert!(map.capacity() >= 51);
    assert_eq!(map.len(), 1);
    assert_eq!(map.get(&1), Some(&2));
}

#[test]
fn test_default_is_empty() {
    let map: LinearMap<u8, u8> = Default::default();
    assert_eq!(map.len(), 0);
    assert!(map.is_empty());
}

#[test]
fn test_get_mut_writes_back() {
    let mut map = LinearMap::new();
    map.insert("n", 1);
    if let Some(v) = map.get_mut(&"n") {
        *v = 9;
    }
    assert_eq!(map.get(&"n"), Some(&9));
    assert_eq!(map.get_mut(&"missing"), None);
}

#[test]
fn test_entry_insert_and_remove() {
    let mut map = LinearMap::new();
    map.insert(1, 10);
    match map.entry(1) {
        Entry::Vacant(_) => unreachable!(),
        Entry::Occupied(mut view) => {
            assert_eq!(view.insert(11), 10);
            assert_eq!(view.get(), &11);
            assert_eq!(view.remove(), 11);
        }
    }
    assert_eq!(map.len(), 0);
    match map.entry(2) {
        Entry::Occupied(_) => unreachable!(),
        Entry::Vacant(view) => {
            let v = view.insert(20);
            assert_eq!(*v, 20);
        }
    }
    assert_eq!(map.get(&2), Some(&20));
}
