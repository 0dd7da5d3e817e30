use starlark::values::pointer::{tag_int, untag_int, Either, FrozenPointer, Pointer};

#[test]
fn test_int_tag() {
    fn check(x: i32) {
        assert_eq!(x, untag_int(tag_int(x)))
    }

    for x in -10..10 {
        check(x)
    }
    check(i32::MAX);
    check(i32::MIN);
}

#[test]
fn int_unpacks_to_right() {
    let v = FrozenPointer::new_int(-1).to_pointer();
    assert_eq!(v.unpack(), Either::Right(-1));
    assert_eq!(v.is_str(), false);
    assert_eq!(v.is_unfrozen(), false);
    assert_eq!(v.unpack_int(), Some(-1));
    assert_eq!(v.unpack_ptr(), None);
}

#[test]
fn unfrozen_pointer_tags() {
    let p = Pointer::new_unfrozen_usize(0x1000, true);
    assert_eq!(p.ptr_value(), 0x1005);
    assert!(p.is_str());
    assert!(p.is_unfrozen());
    assert_eq!(p.unpack(), Either::Left(0x1000));
    assert_eq!(p.unpack_int(), None);
}

#[test]
fn integer_words_have_the_integer_above_the_tags() {
    assert_eq!(tag_int(0), 0b010);
    assert_eq!(tag_int(1), 0b1010);
    assert_eq!(tag_int(-1), 0x7_ffff_fffa);
    assert_eq!(tag_int(i32::MIN), 0x4_0000_0002);
    assert_eq!(untag_int(0b1010), 1);
    assert_eq!(untag_int(0x7_ffff_fffa), -1);
}

#[test]
fn frozen_pointers_widen_and_narrow() {
    let f = FrozenPointer::new_frozen_usize(0x2000, false);
    assert_eq!(f.ptr_value(), 0x2000);
    assert_eq!(f.unpack(), Either::Left(0x2000));
    assert_eq!(f.unpack_int(), None);
    assert_eq!(f.unpack_ptr_no_int_unchecked(), 0x2000);
    assert_eq!(f.unpack_ptr_no_int_no_str_unchecked(), 0x2000);
    let p = f.to_pointer();
    assert_eq!(p.ptr_value(), f.ptr_value());
    assert_eq!(p.unpack(), f.unpack());
    assert!(!p.is_unfrozen());
    assert!(p.ptr_eq(p.cast_lifetime()));
    assert_eq!(p.to_frozen_pointer(), f);
    let s = FrozenPointer::new_frozen_usize(0, true);
    assert_eq!(s.ptr_value(), 4);
    assert!(s.to_pointer().is_str());
    assert_eq!(FrozenPointer::new_frozen_usize_with_str_tag(0x2004).unpack(), Either::Left(0x2000));
    assert_eq!(
        Pointer::new_unfrozen_usize_with_str_tag(0x2004).ptr_value(),
        0x2005
    );
    let i = FrozenPointer::new_int(7);
    assert_eq!(i.unpack_int_unchecked(), 7);
    assert_eq!(i.to_pointer().unpack_int_unchecked(), 7);
    assert_eq!(Pointer::new_unfrozen_usize(0x10, false).unpack_ptr_no_int_unchecked(), 0x10);
}
