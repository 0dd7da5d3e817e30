use starlark::collections::hash::{BorrowHashed, Hashed, StarlarkHashValue};
use starlark::collections::hasher::{Hashable, StarlarkHasher};
use starlark::collections::small_map::SmallMap;

#[test]
fn borrow_and_hashed_equivalent() {
    let mut m = SmallMap::new();
    m.insert_hashed(Hashed::new(1), 'b');

    assert_eq!(m.get_hashed(BorrowHashed::new(&1)), Some(&'b'));
    assert!(BorrowHashed::new(&1).equivalent(&Hashed::new(1)));
    assert!(!BorrowHashed::new(&2).equivalent(&Hashed::new(1)));
}

#[test]
fn hashed_key_carries_the_canonical_hash() {
    for k in [-3i32, 0, 1, 7, i32::MAX, i32::MIN] {
        let owned = Hashed::new(k);
        let borrowed = BorrowHashed::new(&k);
        assert_eq!(owned.hash(), StarlarkHashValue::new(&k));
        assert_eq!(borrowed.hash(), StarlarkHashValue::new(&k));
        assert_eq!(*owned.key(), k);
        assert_eq!(owned.borrow().hash(), owned.hash());
        assert_eq!(borrowed.unborrow_copy().hash(), owned.hash());
    }
    let s = "name".to_owned();
    assert_eq!(Hashed::new(s.clone()).hash(), StarlarkHashValue::new(&s));
}

#[test]
fn canonical_hash_is_the_low_half_of_the_digest() {
    let mut hasher = StarlarkHasher::new();
    17i32.feed(&mut hasher);
    let digest = hasher.finish();
    assert_eq!(StarlarkHashValue::new(&17i32).get(), digest as u32);
    let mut again = StarlarkHasher::new();
    again.write_u32(17);
    assert_eq!(again.finish(), digest);
}

#[test]
fn equal_strings_hash_equal_and_apart_from_their_parts() {
    let a = "ab".to_owned();
    let b = "ab".to_owned();
    assert!(a.same(&b));
    assert_eq!(StarlarkHashValue::new(&a), StarlarkHashValue::new(&b));
    let mut one = StarlarkHasher::new();
    "ab".to_owned().feed(&mut one);
    "c".to_owned().feed(&mut one);
    let mut other = StarlarkHasher::new();
    "a".to_owned().feed(&mut other);
    "bc".to_owned().feed(&mut other);
    assert_ne!(one.finish(), other.finish());
}

#[test]
fn hash_64_is_the_murmur_finalizer() {
    assert_eq!(StarlarkHashValue::hash_64(0).get(), 0);
    // fmix64(1) = 0xb456bcfc34c2cb2c
    assert_eq!(StarlarkHashValue::hash_64(1).get(), 0x34c2cb2c);
}

#[test]
fn promote_multiplies_by_the_golden_ratio() {
    assert_eq!(StarlarkHashValue::new_unchecked(0).promote(), 0);
    assert_eq!(StarlarkHashValue::new_unchecked(1).promote(), 0x9e3779b97f4a7c15);
    assert_eq!(
        StarlarkHashValue::new_unchecked(2).promote(),
        0x9e3779b97f4a7c15u64.wrapping_mul(2)
    );
    assert_eq!(StarlarkHashValue::new_unchecked(5).get(), 5);
}

#[test]
fn key_mut_changes_the_key_in_place() {
    let mut h = Hashed::new_unchecked(StarlarkHashValue::new_unchecked(9), 4i32);
    *h.key_mut() = 5;
    assert_eq!(*h.key(), 5);
    assert_eq!(h.hash().get(), 9);
    assert_eq!(h.into_key(), 5);
}
