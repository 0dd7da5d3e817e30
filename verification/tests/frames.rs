use starlark::eval::context::{
    ControlError, EnvironmentError, EvaluationContext, FrozenModule, Globals, LocalSlots, Module,
    MAX_CALLSTACK_RECURSION,
};
use starlark::eval::frame::{alloca_frame, alloca_raw, BcFrame, BcFramePtr, LocalSlotId};
use starlark::values::frozen::FrozenHeap;
use starlark::values::value::{FrozenValue, Value};

type Context = EvaluationContext<&'static str, u32>;

fn context() -> Context {
    EvaluationContext::new(Module::new("main".to_owned()), Globals::new(), "main.star")
}

#[test]
fn frame_pointer_is_restored_after_alloca_frame() {
    let mut eval = context();
    assert!(!BcFramePtr::null().is_inititalized());
    assert_eq!(eval.frame_ptr(), BcFramePtr::null());
    alloca_frame(&mut eval, 1, 0, |eval: &mut Context| {
        // Inside, the new frame is current; nested frames come and go,
        // whether the continuation succeeds or fails.
        let outer = eval.frame_ptr();
        assert!(outer.is_inititalized());
        assert!(outer.is_valid_in(eval));
        let ok: Result<BcFramePtr, ()> =
            alloca_frame(eval, 2, 3, |eval: &mut Context| Ok(eval.frame_ptr()));
        assert_ne!(ok, Ok(outer));
        assert_eq!(eval.frame_ptr(), outer);
        let err: Result<u32, ()> = alloca_frame(eval, 2, 3, |_: &mut Context| Err(()));
        assert_eq!(err, Err(()));
        assert_eq!(eval.frame_ptr(), outer);
        assert_eq!(eval.depth(), 1);
    });
    assert_eq!(eval.frame_ptr(), BcFramePtr::null());
    assert_eq!(eval.depth(), 0);
}

#[test]
fn locals_start_empty_and_hold_what_is_set() {
    let mut eval = context();
    alloca_raw(&mut eval, 3, 2, |eval: &mut Context, frame: BcFramePtr| {
        assert!(frame.is_inititalized());
        assert_eq!(frame.locals(eval), &[None, None, None]);
        assert_eq!(frame.max_stack_size(eval), 2);
        assert_eq!(frame.get_slot(eval, LocalSlotId(1)), None);
        frame.set_slot(eval, LocalSlotId(1), Value::new_int(5));
        assert_eq!(frame.get_slot(eval, LocalSlotId(1)), Some(Value::new_int(5)));
        assert_eq!(frame.get_slot(eval, LocalSlotId(0)), None);
        // The operand stack starts behind the locals.
        let bottom = frame.stack_bottom_ptr(eval);
        assert_eq!(bottom.ptr(), 3);
        frame.set_stack_ptr_if_debug(eval, &bottom);
        assert_eq!(frame.trace(eval), vec![Value::new_int(5)]);
    });
    assert_eq!(eval.depth(), 0);
}

#[test]
fn a_frame_on_its_own() {
    let mut frame = BcFrame::new(2, 4);
    assert_eq!(frame.locals(), &[None, None]);
    frame.set_slot(LocalSlotId(0), Value::new_none());
    assert_eq!(frame.get_slot(LocalSlotId(0)), Some(Value::new_none()));
    assert_eq!(frame.stack_bottom_ptr().ptr(), 2);
    frame.debug_assert_stack_size_if_zero();
    assert_eq!(frame.trace(), vec![Value::new_none()]);
}

#[test]
fn call_stack_is_popped_on_every_path() {
    let mut eval = context();
    let f = Value::new_int(1);
    let r: Result<Result<u32, ()>, ControlError> =
        eval.with_call_stack(f, Some(7), |eval: &mut Context| {
            assert_eq!(eval.call_stack().len(), 1);
            Err(())
        });
    assert_eq!(r, Ok(Err(())));
    assert_eq!(eval.call_stack().len(), 0);
    let r = eval.with_call_stack(f, None, |eval: &mut Context| eval.call_stack().len());
    assert_eq!(r, Ok(1));
    assert_eq!(eval.call_stack().len(), 0);
}

fn nest(eval: &mut Context, depth: usize) -> Result<usize, ControlError> {
    match eval.with_call_stack(Value::new_none(), None, |eval: &mut Context| {
        nest(eval, depth + 1)
    }) {
        Ok(inner) => inner,
        Err(_) => {
            // The call that does not fit is not entered.
            assert_eq!(eval.call_stack().len(), MAX_CALLSTACK_RECURSION);
            Ok(depth)
        }
    }
}

#[test]
fn calls_nest_up_to_the_limit() {
    let mut eval = context();
    assert_eq!(nest(&mut eval, 0), Ok(MAX_CALLSTACK_RECURSION));
    assert_eq!(eval.call_stack().len(), 0);
}

#[test]
fn function_context_is_swapped_and_restored() {
    let mut eval = context();
    assert!(eval.set_module_variable_at_some_point("x", Value::new_int(1)).is_ok());
    assert_eq!(eval.current_module_name(), "main");
    assert_eq!(eval.get_slot_module(0, "x").unwrap(), Value::new_int(1));
    let frozen = FrozenModule::new(
        "lib".to_owned(),
        vec![Some(FrozenValue::new_int(9)), None],
        FrozenHeap::new(),
    );
    let r = eval.with_function_context(
        Some(frozen),
        LocalSlots::new(2),
        "lib.star",
        |eval: &mut Context| {
            assert_eq!(eval.current_module_name(), "lib");
            assert_eq!(eval.get_slot_module(0, "y").unwrap(), Value::new_int(9));
            match eval.get_slot_module(1, "z") {
                Err(EnvironmentError::LocalVariableReferencedBeforeAssignment(n)) => {
                    assert_eq!(n, "z")
                }
                _ => panic!(),
            }
            // Inside a function the module cannot be assigned to.
            match eval.set_module_variable_at_some_point("x", Value::new_int(2)) {
                Err(EnvironmentError::CannotSetVariable(n)) => assert_eq!(n, "x"),
                _ => panic!(),
            }
            assert!(eval.get_slot_local(0, "a").is_err());
            eval.set_slot_local(0, Value::new_int(3));
            assert_eq!(eval.get_slot_local(0, "a").unwrap(), Value::new_int(3));
            assert_eq!(eval.walk(), vec![Value::new_int(1), Value::new_int(3)]);
            "done"
        },
    );
    assert_eq!(r, "done");
    assert_eq!(eval.current_module_name(), "main");
    assert_eq!(eval.get_slot_module(0, "x").unwrap(), Value::new_int(1));
    assert_eq!(eval.assert_module_env().name(), "main");
    eval.set_slot_module(0, Value::new_int(5));
    assert_eq!(eval.assert_module_env().get("x"), Some(Value::new_int(5)));
    assert_eq!(eval.assert_module_env().get("nope"), None);
    assert_eq!(eval.walk(), vec![Value::new_int(5)]);
    eval.disable_gc();
    assert_eq!(eval.heap().allocated(), 0);
}

#[test]
fn globals_map_names_to_frozen_values() {
    let mut g = Globals::new();
    g.set("len", FrozenValue::new_int(1));
    g.set("type", FrozenValue::new_int(2));
    assert_eq!(g.get_frozen("len"), Some(FrozenValue::new_int(1)));
    assert_eq!(g.get_frozen("type"), Some(FrozenValue::new_int(2)));
    assert_eq!(g.get_frozen("none"), None);
}
