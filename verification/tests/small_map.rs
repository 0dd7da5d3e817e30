use starlark::collections::hash::{BorrowHashed, Hashed, StarlarkHashValue};
use starlark::collections::hasher::StarlarkHasher;
use starlark::collections::small_map::{Entry, SmallMap};
use starlark::collections::symbol_map::{Symbol, SymbolMap};

fn map_of<V>(entries: Vec<(i32, V)>) -> SmallMap<i32, V> {
    let mut map = SmallMap::with_capacity(entries.len());
    for (k, v) in entries {
        map.insert(k, v);
    }
    map
}

#[test]
fn empty_map() {
    let m = SmallMap::<i32, &str>::new();
    assert_eq!(m.is_empty(), true);
    assert_eq!(m.len(), 0);
    assert_eq!(m.iter().into_iter().next(), None);
}

#[test]
fn few_entries() {
    let entries1 = vec![(0, 'a'), (1, 'b')];
    let m1 = SmallMap::from_iter(entries1.clone());

    let entries2 = vec![(1, 'b'), (0, 'a')];
    let m2 = SmallMap::from_iter(entries2.clone());
    assert_eq!(m1.is_empty(), false);
    assert_eq!(m1.len(), 2);
    assert_eq!(m2.is_empty(), false);
    assert_eq!(m2.len(), 2);

    assert_eq!(
        m1.iter().into_iter().eq(entries1.iter().map(|(k, v)| (k, v))),
        true
    );
    assert_eq!(
        m2.iter().into_iter().eq(entries2.iter().map(|(k, v)| (k, v))),
        true
    );
    assert_eq!(m1.iter().into_iter().eq(m2.iter().into_iter()), false);
    assert_eq!(m1.eq(&m1), true);
    assert_eq!(m2.eq(&m2), true);
    assert!(m1.eq(&m2));

    assert_eq!(m1.get(&0), Some(&'a'));
    assert_eq!(m1.get(&3), None);
    assert_eq!(m2.get(&1), Some(&'b'));
    assert_eq!(m2.get(&3), None);

    assert_eq!(m1.get_index(0), Some((&0, &'a')));
    assert_eq!(m1.get_index(1), Some((&1, &'b')));
    assert_eq!(m1.get_index(2), None);

    assert!(!m1.eq(&map_of(vec![(0, 'a'), (1, 'c')])));

    let iter = m1.iter();
    let (values1, values2): (Vec<_>, Vec<_>) = (iter.clone(), iter);
    assert_eq!(values1, values2);
}

#[test]
fn many_entries() {
    let numbers = 0..26;
    let letters = 'a'..='z';

    let entries1 = numbers.zip(letters);
    let m1 = SmallMap::from_iter(entries1.clone().collect());

    let numbers = (0..26).rev();
    let letters = ('a'..='z').rev();
    let entries2 = numbers.zip(letters);
    let m2 = SmallMap::from_iter(entries2.clone().collect());
    assert_eq!(m1.is_empty(), false);
    assert_eq!(m1.len(), 26);
    assert_eq!(m2.is_empty(), false);
    assert_eq!(m2.len(), 26);

    assert_eq!(m1.clone().into_iter().into_iter().eq(entries1), true);
    assert_eq!(m2.clone().into_iter().into_iter().eq(entries2), true);
    assert_eq!(m1.iter().into_iter().eq(m2.iter().into_iter()), false);
    assert_eq!(m1.eq(&m1), true);
    assert_eq!(m2.eq(&m2), true);
    assert!(m1.eq(&m2));

    assert_eq!(m1.get(&1), Some(&'b'));
    assert_eq!(m1.get(&30), None);
    assert_eq!(m2.get(&0), Some(&'a'));
    assert_eq!(m2.get(&30), None);
    assert_eq!(m2.get_full(&0), Some((25, &0, &'a')));
    assert_eq!(m2.get_full(&25), Some((0, &25, &'z')));
    assert_eq!(m2.get_full(&29), None);

    let not_m1 = {
        let mut m = m1.clone();
        m.remove(&1);
        m
    };
    assert!(!m1.eq(&not_m1));

    let iter = m1.iter();
    let (values1, values2): (Vec<_>, Vec<_>) = (iter.clone(), iter);
    assert_eq!(values1, values2);
}

#[test]
fn test_smallmap_macro() {
    let map = map_of(vec![(1, "a"), (3, "b")]);
    let mut i = map.into_iter().into_iter();
    assert_eq!(i.next(), Some((1, "a")));
    assert_eq!(i.next(), Some((3, "b")));
    assert_eq!(i.next(), None);
}

#[test]
fn test_clone() {
    let map = map_of(vec![(1, "a"), (3, "b")]);
    let iter = map.iter();
    let values1: Vec<_> = iter.clone();
    let values2: Vec<_> = iter;
    assert_eq!(vec![(&1, &"a"), (&3, &"b")], values1);
    assert_eq!(values1, values2);

    let iter = map.keys();
    let values1: Vec<_> = iter.clone();
    let values2: Vec<_> = iter;
    assert_eq!(vec![&1, &3], values1);
    assert_eq!(values1, values2);

    let iter = map.values();
    let values1: Vec<_> = iter.clone();
    let values2: Vec<_> = iter;
    assert_eq!(vec![&"a", &"b"], values1);
    assert_eq!(values1, values2);
}

#[test]
fn entry() {
    let mut map = SmallMap::new();
    for i in 0..100 {
        match map.entry(i) {
            Entry::Vacant(e) => e.insert(i * 2),
            Entry::Occupied(..) => panic!(),
        }
        match map.entry(i) {
            Entry::Occupied(..) => {}
            Entry::Vacant(..) => panic!(),
        }
    }
}

#[test]
fn test_pop_small() {
    let mut map = SmallMap::new();
    for i in 0..=5 {
        map.insert(i, i * 10);
    }
    for i in (0..=5).rev() {
        assert_eq!((i, i * 10), map.pop().unwrap());
        assert!(map.state_check());
    }
    assert!(map.is_empty());
}

#[test]
fn test_pop_large() {
    let mut map = SmallMap::new();
    for i in 0..=500 {
        map.insert(i, i * 10);
    }
    for i in (0..=500).rev() {
        assert_eq!((i, i * 10), map.pop().unwrap());
        if i % 100 == 0 {
            assert!(map.state_check());
        }
    }
    assert!(map.is_empty());
}

#[test]
fn remove_from_indexed_map_keeps_order() {
    let mut map = SmallMap::new();
    for i in 0..20 {
        map.insert(i, i * 100);
    }
    assert!(map.state_check());
    assert_eq!(map.remove(&5), Some(500));
    assert!(map.state_check());
    assert_eq!(map.len(), 19);
    assert_eq!(map.get(&5), None);
    assert_eq!(map.get(&6), Some(&600));
    let keys: Vec<i32> = map.keys().into_iter().copied().collect();
    let expected: Vec<i32> = (0..5).chain(6..20).collect();
    assert_eq!(keys, expected);
    for i in 6..20 {
        assert_eq!(map.get_index_of(&i), Some((i - 1) as usize));
    }
    assert_eq!(map.remove(&5), None);
    assert_eq!(map.remove_entry(&19), Some((19, 1900)));
    assert_eq!(map.len(), 18);
}

#[test]
fn insert_keeps_insertion_order_and_replace_keeps_position() {
    let mut map = SmallMap::new();
    for k in [7, 3, 9, 1] {
        assert_eq!(map.insert(k, k * 2), None);
    }
    assert_eq!(map.keys(), vec![&7, &3, &9, &1]);
    assert_eq!(map.insert(3, 100), Some(6));
    assert_eq!(map.keys(), vec![&7, &3, &9, &1]);
    assert_eq!(map.values(), vec![&14, &100, &18, &2]);
    assert_eq!(map.get_index_of(&3), Some(1));
    // The same holds once the map has an index.
    for k in 20..40 {
        map.insert(k, 0);
    }
    assert_eq!(map.insert(9, -1), Some(18));
    assert_eq!(map.get_index_of(&9), Some(2));
    assert_eq!(map.get_index(2), Some((&9, &-1)));
    assert_eq!(map.len(), 24);
}

#[test]
fn index_follows_the_size_while_entries_are_only_added() {
    let mut map = SmallMap::new();
    assert!(!map.is_indexed());
    for i in 0..12 {
        map.insert(i, ());
        assert!(map.state_check());
        assert!(!map.is_indexed());
    }
    // Twelve entries need no index; the thirteenth builds it.
    assert_eq!(map.len(), 12);
    map.insert(12, ());
    assert!(map.is_indexed());
    assert!(map.state_check());
    for i in 0..13 {
        assert_eq!(map.get_index_of(&i), Some(i as usize));
    }
    assert!(map.contains_key(&12));
    assert!(!map.contains_key(&13));
    // The index is kept when the map shrinks, and can be dropped.
    for i in 5..13 {
        map.remove(&i);
    }
    assert!(map.is_indexed());
    assert!(map.state_check());
    map.maybe_drop_index();
    assert!(!map.is_indexed());
    assert!(map.state_check());
    for i in 0..5 {
        assert_eq!(map.get_index_of(&i), Some(i as usize));
    }
    assert_eq!(map.get(&7), None);
}

#[test]
fn with_capacity_and_reserve_keep_the_entries() {
    let mut small: SmallMap<i32, i32> = SmallMap::with_capacity(4);
    small.insert(1, 10);
    small.reserve(100);
    assert!(small.state_check());
    assert_eq!(small.get(&1), Some(&10));
    assert!(small.capacity() >= 1);
    assert!(small.is_indexed());
    let mut large: SmallMap<i32, i32> = SmallMap::with_capacity(100);
    assert!(large.is_indexed());
    assert!(!SmallMap::<i32, i32>::with_capacity(12).is_indexed());
    assert!(large.is_empty());
    large.insert(1, 10);
    assert_eq!(large.get(&1), Some(&10));
    large.clear();
    assert!(large.is_empty());
    assert!(large.state_check());
    assert_eq!(large.get(&1), None);
    large.insert(2, 20);
    assert_eq!(large.keys(), vec![&2]);
}

#[test]
fn get_mut_and_entries_change_values_in_place() {
    let mut map = map_of(vec![(1, 10), (2, 20)]);
    *map.get_mut(&2).unwrap() += 1;
    assert_eq!(map.get(&2), Some(&21));
    assert!(map.get_mut(&3).is_none());
    match map.entry(1) {
        Entry::Occupied(mut e) => {
            assert_eq!(*e.key(), 1);
            assert_eq!(*e.get(), 10);
            *e.get_mut() = 11;
        }
        Entry::Vacant(_) => panic!(),
    }
    assert_eq!(map.get(&1), Some(&11));
    let entry = map.entry(5);
    assert_eq!(*entry.key(), 5);
    match entry {
        Entry::Vacant(e) => e.insert(50),
        Entry::Occupied(_) => panic!(),
    }
    assert_eq!(map.keys(), vec![&1, &2, &5]);
    let h = Hashed::new(2);
    assert_eq!(map.get_mut_hashed(h.borrow()).copied(), Some(21));
}

#[test]
fn hashed_operations_agree_with_the_plain_ones() {
    let mut map = SmallMap::new();
    for i in 0..30 {
        map.insert_hashed(Hashed::new(i), i + 1);
    }
    let k = 17;
    assert_eq!(map.get_hashed(BorrowHashed::new(&k)), Some(&18));
    assert_eq!(map.get_index_of_hashed(BorrowHashed::new(&k)), Some(17));
    assert!(map.contains_key_hashed(BorrowHashed::new(&k)));
    assert_eq!(map.remove_hashed(BorrowHashed::new(&k)), Some(18));
    assert_eq!(map.remove_hashed_entry(BorrowHashed::new(&k)), None);
    let hashed = map.iter_hashed();
    assert_eq!(hashed.len(), 29);
    assert_eq!(hashed[3].0.hash(), StarlarkHashValue::new(&3));
    assert_eq!(*hashed[3].0.key(), 3);
    let owned = map.into_iter_hashed();
    assert_eq!(owned[28].0.hash(), StarlarkHashValue::new(&29));
    assert_eq!(owned[28].1, 30);
}

#[test]
fn equal_maps_have_equal_hashes() {
    let a = map_of(vec![(1, 'x'), (2, 'y'), (3, 'z')]);
    let b = map_of(vec![(3, 'z'), (1, 'x'), (2, 'y')]);
    assert!(a.eq(&b));
    let mut ha = StarlarkHasher::new();
    a.hash(&mut ha);
    let mut hb = StarlarkHasher::new();
    b.hash(&mut hb);
    assert_eq!(ha.finish(), hb.finish());
    let c = map_of(vec![(1, 'x'), (2, 'y'), (3, 'w')]);
    assert!(!a.eq(&c));
    let d = map_of(vec![(1, 'x'), (2, 'y')]);
    assert!(!a.eq(&d));
    assert!(!d.eq(&a));
}

#[test]
fn symbol_map_starts_with_an_index_when_asked_for_much_room() {
    assert!(!SymbolMap::<usize>::new().is_indexed());
    assert!(!SymbolMap::<usize>::with_capacity(12).is_indexed());
    assert!(SymbolMap::<usize>::with_capacity(13).is_indexed());
    // More than any map has room for: nothing is set aside.
    assert!(!SymbolMap::<usize>::with_capacity(usize::MAX).is_indexed());
    let mut names = SymbolMap::with_capacity(13);
    assert_eq!(names.len(), 0);
    assert_eq!(names.insert("a", 0usize), None);
    assert_eq!(names.insert("b", 1usize), None);
    assert_eq!(names.insert("a", 2usize), Some(0));
    assert!(names.is_indexed());
    assert_eq!(names.get(&Symbol::new("a")), Some(&2));
    assert_eq!(names.get_str("b"), Some(&1));
    assert_eq!(names.get_str("c"), None);
    assert_eq!(names.keys(), vec!["a", "b"]);
    let mut small = SymbolMap::new();
    for i in 0..13usize {
        assert_eq!(small.is_indexed(), false);
        small.insert(&i.to_string(), i);
    }
    assert!(small.is_indexed());
}

#[test]
fn values_are_changed_in_place_through_values_mut() {
    // Without an index, and with one.
    for n in [3, 40] {
        let mut map = map_of((0..n).map(|i| (i, i * 10)).collect());
        let indexed = map.is_indexed();
        {
            let values = map.values_mut();
            assert_eq!(values.len(), n as usize);
            for (i, v) in values.into_iter().enumerate() {
                assert_eq!(*v, i as i32 * 10);
                *v += 1;
            }
        }
        assert_eq!(map.len(), n as usize);
        assert_eq!(map.is_indexed(), indexed);
        assert!(map.state_check());
        for i in 0..n {
            assert_eq!(map.get(&i), Some(&(i * 10 + 1)));
            assert_eq!(map.get_index_of(&i), Some(i as usize));
        }
    }
}

#[test]
fn values_are_changed_in_place_through_iter_mut() {
    let mut map = SmallMap::new();
    map.insert("b".to_owned(), 2);
    map.insert("a".to_owned(), 1);
    map.insert("c".to_owned(), 3);
    {
        let entries = map.iter_mut();
        let keys: Vec<&str> = entries.iter().map(|e| e.0.as_str()).collect();
        assert_eq!(keys, vec!["b", "a", "c"]);
        for (k, v) in entries {
            if k == "a" {
                *v = 100;
            } else {
                *v *= 2;
            }
        }
    }
    let entries: Vec<(String, i32)> = map.into_iter();
    assert_eq!(
        entries,
        vec![("b".to_owned(), 4), ("a".to_owned(), 100), ("c".to_owned(), 6)]
    );
    // An empty map hands out nothing.
    let mut empty: SmallMap<i32, i32> = SmallMap::new();
    assert!(empty.values_mut().is_empty());
    assert!(empty.iter_mut().is_empty());
}

#[test]
fn the_sum_of_the_entry_hashes_is_what_the_map_feeds() {
    let a = map_of(vec![(1, 10), (2, 20), (3, 30)]);
    let b = map_of(vec![(3, 30), (1, 10), (2, 20)]);
    let c = map_of(vec![(1, 10), (2, 20), (3, 31)]);
    assert_eq!(a.entries_hash(), b.entries_hash());
    assert_ne!(a.entries_hash(), c.entries_hash());
    assert_eq!(map_of::<i32>(vec![]).entries_hash(), 0);
    let mut fed = StarlarkHasher::new();
    a.hash(&mut fed);
    let mut direct = StarlarkHasher::new();
    direct.write_u64(a.entries_hash());
    assert_eq!(fed.finish(), direct.finish());
}
