use starlark::collections::hash::StarlarkHashValue;
use starlark::collections::hasher::Hashable;
use starlark::values::dict::{Dict, DictKey};
use starlark::values::heap::{Heap, Object};
use starlark::values::pointer::Either;
use starlark::values::value::{FrozenValue, Value, ValueLike};

#[test]
fn int_value_round_trips() {
    for i in [0, 1, -1, 42, i32::MAX, i32::MIN] {
        let v = Value::new_int(i);
        assert_eq!(v.unpack_int(), Some(i));
        assert_eq!(v.unpack(), Either::Right(i));
        assert!(!v.is_str());
        assert!(!v.is_unfrozen());
        assert!(!v.is_none());
        assert_eq!(v.unpack_bool(), None);
        assert_ne!(v.ptr_value(), 0);
    }
}

#[test]
fn widening_a_frozen_value_keeps_it() {
    for f in [
        FrozenValue::new_int(-7),
        FrozenValue::new_none(),
        FrozenValue::new_bool(true),
        FrozenValue::new_bool(false),
    ] {
        let v = f.to_value();
        assert_eq!(v.ptr_value(), f.ptr_value());
        assert_eq!(v.unpack(), f.unpack());
        assert_eq!(v.unpack_int(), f.unpack_int());
        assert_eq!(f.widen(), v);
        assert_eq!(v.unpack_frozen(), Some(f));
    }
}

#[test]
fn constants_are_told_apart() {
    assert!(Value::new_none().is_none());
    assert_eq!(Value::new_bool(true).unpack_bool(), Some(true));
    assert_eq!(Value::new_bool(false).unpack_bool(), Some(false));
    assert!(!Value::new_none().ptr_eq(Value::new_bool(false)));
    assert!(Value::new_none().ptr_eq(Value::new_none()));
    assert_eq!(Value::new_none().unpack_int(), None);
}

#[test]
fn heap_values_point_to_their_objects() {
    let mut heap = Heap::new();
    assert!(heap.has_room_for(2));
    let s = heap.alloc_str("hello");
    let t = heap.alloc_tuple(&[Value::new_int(1), s]);
    let l = heap.alloc_list(&[]);
    let d = heap.alloc_dict(Dict::empty());
    assert_eq!(heap.allocated(), 4);
    assert!(s.is_str());
    assert!(s.is_unfrozen());
    assert!(!t.is_str());
    assert_eq!(s.unpack_frozen(), None);
    assert_eq!(heap.unpack_str(s), Some("hello"));
    assert_eq!(heap.unpack_str(t), None);
    assert_eq!(heap.iterate(t), Some(&vec![Value::new_int(1), s]));
    assert_eq!(heap.iterate(l), Some(&vec![]));
    assert_eq!(heap.iterate(s), None);
    assert!(heap.unpack_dict(d).is_some());
    assert!(heap.unpack_dict(l).is_none());
    assert!(matches!(heap.get(s), Some(Object::Str(_))));
    assert!(heap.get(Value::new_int(8)).is_none());
    assert!(heap.get(Value::new_none()).is_none());
    assert!(heap.get(Value::new_ptr_usize(8 * 100, false)).is_none());
    assert!(heap.get(Value::new_ptr_usize(0, false)).is_none());
    // The first object is at address 8, the second at 16.
    assert_eq!(s.unpack(), Either::Left(8));
    assert_eq!(t.unpack(), Either::Left(16));
    assert_eq!(s.ptr_value(), 8 | 4 | 1);
    for (v, name) in [
        (s, "string"),
        (t, "tuple"),
        (l, "list"),
        (d, "dict"),
        (Value::new_int(1), "int"),
        (Value::new_none(), "NoneType"),
        (Value::new_bool(true), "bool"),
    ] {
        assert_eq!(heap.get_type(v), name);
    }
}

#[test]
fn dict_keys_are_compared_by_what_they_hold() {
    let a = DictKey::Str("k".to_owned());
    let b = DictKey::Str("k".to_owned());
    assert!(a.same(&b));
    assert!(a.same(&a.duplicate()));
    assert!(!a.same(&DictKey::Int(1)));
    assert!(DictKey::Null.same(&DictKey::Null));
    assert!(!DictKey::Bool(true).same(&DictKey::Bool(false)));
    // A string key has the hash of the string, an integer key that of the
    // integer.
    assert_eq!(
        StarlarkHashValue::new(&a),
        StarlarkHashValue::new(&"k".to_owned())
    );
    assert_eq!(
        StarlarkHashValue::new(&DictKey::Int(5)),
        StarlarkHashValue::new(&5i32)
    );
    assert_eq!(a.unpack_str(), Some("k"));
    assert_eq!(DictKey::Int(5).unpack_str(), None);
}
