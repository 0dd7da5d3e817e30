use starlark::collections::small_map::SmallMap;
use starlark::eval::context::{EvaluationContext, Globals, LocalSlots, Module};
use starlark::eval::frame::{alloca_frame, LocalSlotId};
use starlark::values::dict::{Dict, DictKey};
use starlark::values::frozen::{FrozenHeap, FrozenHeapRef, FrozenObject};
use starlark::values::heap::{CallEvent, Heap, Object};
use starlark::values::value::{FrozenValue, Value};

type Context = EvaluationContext<(), ()>;

/// A heap with a string that nothing points to, and a list of a tuple of
/// an integer and a string.
fn sample() -> (Heap, Value) {
    let mut heap = Heap::new();
    heap.alloc_str("garbage");
    let b = heap.alloc_str("b");
    let t = heap.alloc_tuple(&[Value::new_int(1), b]);
    let l = heap.alloc_list(&[t]);
    (heap, l)
}

#[test]
fn tracing_finds_what_the_roots_point_to() {
    let (heap, l) = sample();
    let reached = heap.trace(&[l, Value::new_int(3), Value::new_none()]);
    assert_eq!(reached.len(), 3);
    assert_eq!(reached.heap_len(), 4);
    // In the order found: the list, its tuple, the tuple's string.
    assert_eq!((reached.place(0), reached.place(1), reached.place(2)), (3, 2, 1));
    assert_eq!(reached.number_of(0), None);
    assert_eq!(reached.number_of(1), Some(2));
    assert_eq!(reached.number_of(3), Some(0));
    let nothing = heap.trace(&[]);
    assert_eq!(nothing.len(), 0);
    // An object is found once, however many values point to it.
    let twice = heap.trace(&[l, l]);
    assert_eq!(twice.len(), 3);
}

#[test]
fn collecting_keeps_the_objects_in_use() {
    let (mut heap, l) = sample();
    let reached = heap.trace(&[l]);
    heap.collect(&reached);
    assert_eq!(heap.allocated(), 3);
    let l = reached.relocate(l);
    let items = heap.iterate(l).unwrap().clone();
    assert_eq!(items.len(), 1);
    let inner = heap.iterate(items[0]).unwrap().clone();
    assert_eq!(inner[0], Value::new_int(1));
    assert_eq!(heap.unpack_str(inner[1]), Some("b"));
    assert!(inner[1].is_str());
    // Values that point to no object of the heap stay as they are.
    assert_eq!(reached.relocate(Value::new_int(7)), Value::new_int(7));
    assert_eq!(reached.relocate(Value::new_none()), Value::new_none());
    // Collecting again changes nothing.
    let again = heap.trace(&[l]);
    heap.collect(&again);
    assert_eq!(heap.allocated(), 3);
    assert_eq!(again.relocate(l), l);
}

#[test]
fn collecting_moves_the_values_of_a_dict() {
    let mut heap = Heap::new();
    heap.alloc_str("garbage");
    let s = heap.alloc_str("kept");
    let mut sm = SmallMap::new();
    sm.insert(DictKey::Str("k".to_owned()), s);
    sm.insert(DictKey::Int(2), Value::new_bool(true));
    let d = heap.alloc_dict(Dict::new(sm));
    let reached = heap.trace(&[d]);
    heap.collect(&reached);
    assert_eq!(heap.allocated(), 2);
    let d = reached.relocate(d);
    let dict = heap.unpack_dict(d).unwrap();
    let entries = dict.iter_hashed();
    assert_eq!(entries.len(), 2);
    assert_eq!(entries[0].0.key().unpack_str(), Some("k"));
    assert_eq!(heap.unpack_str(entries[0].1), Some("kept"));
    assert_eq!(entries[1].1, Value::new_bool(true));
    assert_eq!(heap.children_at(0), vec![entries[0].1, Value::new_bool(true)]);
}

#[test]
fn the_evaluator_collects_its_heap() {
    let mut eval: Context =
        EvaluationContext::new(Module::new("m".to_owned()), Globals::new(), ());
    let (kept, local) = {
        let heap = eval.heap_mut();
        let garbage = heap.alloc_str("garbage");
        let kept = heap.alloc_str("kept");
        let local = heap.alloc_tuple(&[kept]);
        heap.alloc_list(&[garbage]);
        (kept, local)
    };
    assert!(eval.set_module_variable_at_some_point("x", kept).is_ok());
    assert!(!eval.should_collect(4));
    assert!(eval.should_collect(3));
    let moved = alloca_frame(&mut eval, 2, 0, |eval: &mut Context| {
        let frame = eval.frame_ptr();
        frame.set_slot(eval, LocalSlotId(1), local);
        let reached = eval.with_function_context(None, LocalSlots::new(1), (), |eval: &mut Context| {
            eval.set_slot_local(0, kept);
            eval.garbage_collect()
        });
        // The local of the frame points to the copy of the tuple.
        let tuple = frame.get_slot(eval, LocalSlotId(1)).unwrap();
        assert_eq!(tuple, reached.relocate(local));
        let items = eval.heap().iterate(tuple).unwrap().clone();
        assert_eq!(eval.heap().unpack_str(items[0]), Some("kept"));
        assert_eq!(frame.get_slot(eval, LocalSlotId(0)), None);
        reached.relocate(kept)
    });
    assert_eq!(eval.heap().allocated(), 2);
    assert_eq!(eval.get_slot_module(0, "x").unwrap(), moved);
    assert_eq!(eval.heap().unpack_str(moved), Some("kept"));
    assert!(!eval.should_collect(0));
    eval.heap_mut().alloc_str("more");
    assert!(eval.should_collect(0));
    eval.disable_gc();
    assert!(!eval.should_collect(0));
}

#[test]
fn freezing_a_module_copies_what_is_in_use() {
    let (mut heap, l) = sample();
    let mut module = Module::new("lib".to_owned());
    module.set("l", l);
    module.set("n", Value::new_int(5));
    module.set("none", Value::new_none());
    let frozen = module.freeze(&heap).unwrap();
    assert_eq!(frozen.name(), "lib");
    assert_eq!(frozen.get_slot(1), Some(FrozenValue::new_int(5)));
    assert_eq!(frozen.get_slot(2), Some(FrozenValue::new_none()));
    assert_eq!(frozen.get_slot(3), None);
    let fheap = frozen.frozen_heap();
    assert_eq!(fheap.allocated(), 3);
    let fl = frozen.get_slot(0).unwrap();
    assert!(!fl.widen().is_unfrozen());
    // The first frozen object stands behind `None`, `False` and `True`.
    assert_eq!(fl.ptr_value(), 4 * 8);
    let items = match fheap.get(fl) {
        Some(FrozenObject::List(items)) => items.clone(),
        _ => panic!(),
    };
    let inner = match fheap.get(items[0]) {
        Some(FrozenObject::Tuple(inner)) => inner.clone(),
        _ => panic!(),
    };
    assert_eq!(inner[0], FrozenValue::new_int(1));
    assert!(inner[1].is_str());
    match fheap.get(inner[1]) {
        Some(FrozenObject::Str(s)) => assert_eq!(s, "b"),
        _ => panic!(),
    }
    assert!(fheap.get(FrozenValue::new_int(1)).is_none());
    assert!(fheap.get(FrozenValue::new_none()).is_none());
    // The heap of the evaluation is as it was.
    assert_eq!(heap.allocated(), 4);
    assert!(matches!(heap.get(l), Some(Object::List(_))));
    // A value that points to no object of the heap and is not frozen
    // cannot be frozen.
    module.set("stray", Value::new_ptr_usize(8 * 1000, false));
    assert!(module.freeze(&heap).is_none());
    heap.alloc_str("later");
    assert!(module.freeze(&heap).is_none());
}

#[test]
fn a_frozen_heap_refers_to_the_heaps_added() {
    let (heap, l) = sample();
    let reached = heap.trace(&[l]);
    let shared = FrozenHeapRef::new(heap.freeze(&reached).unwrap());
    assert_eq!(shared.get().allocated(), 3);
    let mut frozen = FrozenHeap::new();
    assert_eq!(frozen.reference_count(), 0);
    frozen.add_reference(&shared);
    frozen.add_reference(&FrozenHeapRef::new(FrozenHeap::new()));
    // The objects of the heap itself stay as they are.
    assert_eq!(frozen.allocated(), 0);
    assert_eq!(frozen.reference_count(), 2);
    assert_eq!(frozen.reference(0).allocated(), 3);
    assert_eq!(frozen.reference(1).allocated(), 0);
    // What one heap refers to, another can be made to refer to.
    let mut other = FrozenHeap::new();
    other.add_reference(&shared.dupe());
    other.add_references_of(&frozen);
    assert_eq!(other.reference_count(), 3);
    assert_eq!(other.reference(2).allocated(), 0);
}

#[test]
fn an_evaluation_refers_to_the_heap_of_the_globals() {
    let (heap, l) = sample();
    let reached = heap.trace(&[l]);
    let mut globals = Globals::with_heap(FrozenHeapRef::new(heap.freeze(&reached).unwrap()));
    globals.set("l", reached.freeze_value(l).unwrap());
    assert_eq!(globals.heap().get().allocated(), 3);
    let module = Module::new("m".to_owned());
    assert_eq!(module.frozen_heap().reference_count(), 0);
    let mut eval = Context::new(module, globals, ());
    assert_eq!(eval.frozen_heap().allocated(), 0);
    assert_eq!(eval.frozen_heap().reference_count(), 1);
    assert_eq!(eval.frozen_heap().reference(0).allocated(), 3);
    // More can be added while the module is evaluated, and all of them are
    // carried over when the module is frozen.
    eval.add_reference(&FrozenHeapRef::new(FrozenHeap::new()));
    assert_eq!(eval.frozen_heap().reference_count(), 2);
    let x = eval.heap_mut().alloc_str("x");
    assert!(eval.set_module_variable_at_some_point("x", x).is_ok());
    let frozen = eval.module().freeze(eval.heap()).unwrap();
    assert_eq!(frozen.frozen_heap().allocated(), 1);
    assert_eq!(frozen.frozen_heap().reference_count(), 2);
    assert_eq!(frozen.frozen_heap().reference(0).allocated(), 3);
}

#[test]
fn a_profiled_evaluation_records_its_calls() {
    let mut eval = Context::new(Module::new("m".to_owned()), Globals::new(), ());
    let f = eval.heap_mut().alloc_str("f");
    let g = eval.heap_mut().alloc_str("g");
    // Nothing is recorded until profiling is switched on.
    assert!(!eval.profiling());
    let r = eval.with_call_stack(f, None, |_: &mut Context| 1);
    assert_eq!(r, Ok(1));
    assert!(eval.heap().call_events().is_empty());
    eval.enable_profiling();
    assert!(eval.profiling());
    let r = eval.with_call_stack(f, None, |eval: &mut Context| {
        assert_eq!(eval.heap().call_events(), &vec![CallEvent::Enter(f)]);
        eval.with_call_stack(g, None, |_: &mut Context| 2)
    });
    assert_eq!(r, Ok(Ok(2)));
    assert_eq!(
        eval.heap().call_events(),
        &vec![
            CallEvent::Enter(f),
            CallEvent::Enter(g),
            CallEvent::Exit,
            CallEvent::Exit
        ]
    );
    assert_eq!(eval.call_stack().len(), 0);
    // Recording adds no object to the heap.
    assert_eq!(eval.heap().allocated(), 2);
}

#[test]
fn collecting_keeps_the_functions_that_were_recorded() {
    let mut eval = Context::new(Module::new("m".to_owned()), Globals::new(), ());
    eval.heap_mut().alloc_str("garbage");
    let f = eval.heap_mut().alloc_str("f");
    eval.enable_profiling();
    assert_eq!(eval.with_call_stack(f, None, |_: &mut Context| ()), Ok(()));
    let reached = eval.garbage_collect();
    assert_eq!(eval.heap().allocated(), 1);
    let moved = reached.relocate(f);
    assert_ne!(moved, f);
    assert_eq!(eval.heap().unpack_str(moved), Some("f"));
    assert_eq!(
        eval.heap().call_events(),
        &vec![CallEvent::Enter(moved), CallEvent::Exit]
    );
}

#[test]
fn a_heap_has_room_up_to_its_limit() {
    let heap = Heap::new();
    assert!(heap.has_room_for(0));
    assert!(heap.has_room_for(0x0fff_ffff_ffff_ffff));
    assert!(!heap.has_room_for(0x1000_0000_0000_0000));
    assert!(!heap.has_room_for(usize::MAX));
    let (heap, _) = sample();
    assert!(heap.has_room_for(0x0fff_ffff_ffff_ffff - 4));
    assert!(!heap.has_room_for(0x0fff_ffff_ffff_ffff - 3));
}
