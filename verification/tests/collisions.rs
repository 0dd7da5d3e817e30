use starlark::collections::hasher::{Hashable, StarlarkHasher};
use starlark::collections::small_map::SmallMap;
use vstd::seq::Seq;
use vstd::view::View;

// A type which always gives hash collisions: it feeds nothing to the
// hasher.
#[derive(PartialEq, Eq, Debug)]
struct K(i32);

impl View for K {
    type V = i32;

    fn view(&self) -> i32 {
        self.0
    }
}

impl Hashable for K {
    fn fed(writes: Seq<Seq<u8>>, _value: i32) -> Seq<Seq<u8>> {
        writes
    }

    fn feed(&self, _state: &mut StarlarkHasher) {}

    fn same(&self, other: &Self) -> bool {
        self.0 == other.0
    }
}

#[test]
fn test_duplicate_hashes() {
    let mut map = SmallMap::with_capacity(2);
    map.insert(K(1), "test");
    map.insert(K(3), "more");
    assert_eq!(map.get(&K(1)), Some(&"test"));
    assert_eq!(map.get(&K(2)), None);
    assert_eq!(map.get(&K(3)), Some(&"more"));

    assert_eq!(map.insert(K(2), "magic"), None);
    assert_eq!(map.get(&K(2)), Some(&"magic"));

    assert_eq!(map.remove(&K(1)), Some("test"));
    assert_eq!(map.get(&K(1)), None);
    assert_eq!(map.keys(), vec![&K(3), &K(2)]);
}

#[test]
fn colliding_keys_in_an_indexed_map() {
    let mut map = SmallMap::new();
    for i in 0..40 {
        assert_eq!(map.insert(K(i), i * 3), None);
    }
    assert!(map.state_check());
    for i in 0..40 {
        assert_eq!(map.get(&K(i)), Some(&(i * 3)));
        assert_eq!(map.get_index_of(&K(i)), Some(i as usize));
    }
    assert_eq!(map.get(&K(40)), None);
    assert_eq!(map.remove(&K(0)), Some(0));
    assert_eq!(map.remove(&K(20)), Some(60));
    assert!(map.state_check());
    assert_eq!(map.get_index_of(&K(1)), Some(0));
    assert_eq!(map.get_index_of(&K(39)), Some(37));
    assert_eq!(map.pop(), Some((K(39), 117)));
    assert_eq!(map.len(), 37);
}
