//! The frame of one call: its local variables and its operand stack, in a
//! single allocation.

use vstd::prelude::*;

use crate::eval::context::EvaluationContext;
use crate::values::collect::moved_slots;
use crate::values::heap::HEAP_LIMIT;
use crate::values::trace::{numbered, Reached};
use crate::values::value::Value;

verus! {

/// The place of a local variable in its frame.
#[derive(Clone, Copy, Debug, PartialEq, Eq, Structural)]
pub struct LocalSlotId(pub u32);

/// The frame of one call of a function written in the language.
///
/// The slots of the local variables come first, those of the operand stack
/// behind them. A local slot is empty until it is first written.
pub struct BcFrame {
    /// The number of local slots.
    local_count: u32,
    /// The number of stack slots.
    max_stack_size: u32,
    /// Where the top of the operand stack is, counted in slots from the
    /// first local. It is kept so that the stack can be checked to be empty
    /// where it has to be.
    stack_ptr_if_debug: usize,
    /// `local_count` local slots followed by `max_stack_size` stack slots.
    slots: Vec<Option<Value>>,
}

/// A pointer to a frame: to its slots, as that is what is read most.
#[derive(Clone, Copy, Debug, PartialEq, Eq, Structural)]
pub struct BcFramePtr {
    /// Zero for no frame; otherwise the place of the frame in the
    /// evaluator's scratch stack, counted from one.
    slots_ptr: usize,
}

/// A pointer into the operand stack of a frame.
#[derive(Clone, Copy, Debug, PartialEq, Eq, Structural)]
pub struct BcStackPtr {
    /// The slot pointed to, counted from the first local of the frame.
    ptr: usize,
}

impl BcStackPtr {
    /// The slot pointed to, counted from the first local of the frame.
    pub closed spec fn spec_ptr(self) -> usize {
        self.ptr
    }

    /// The slot pointed to, counted from the first local of the frame.
    pub fn ptr(&self) -> (p: usize)
        ensures
            p == self.spec_ptr(),
    {
        self.ptr
    }
}

impl BcFrame {
    /// The local slots, in order.
    pub closed spec fn locals_view(&self) -> Seq<Option<Value>> {
        self.slots@.subrange(0, self.local_count as int)
    }

    /// The number of stack slots.
    pub closed spec fn stack_capacity(&self) -> u32 {
        self.max_stack_size
    }

    /// Where the operand stack starts, counted in slots from the first
    /// local: behind the last local.
    pub closed spec fn stack_bottom(&self) -> usize {
        self.local_count as usize
    }

    /// Where the top of the operand stack was last recorded to be.
    pub closed spec fn recorded_stack_ptr(&self) -> usize {
        self.stack_ptr_if_debug
    }

    /// The frame has one slot for each local and each stack slot, and the
    /// recorded top of the stack lies within the stack.
    pub closed spec fn wf(&self) -> bool {
        &&& self.slots@.len() == self.local_count + self.max_stack_size
        &&& self.local_count <= self.stack_ptr_if_debug <= self.slots@.len()
    }

    /// In a well-formed frame there are as many locals as it was made
    /// for.
    pub proof fn lemma_wf(&self)
        requires
            self.wf(),
        ensures
            self.stack_bottom() == self.locals_view().len(),
            self.stack_bottom() <= self.recorded_stack_ptr() <= self.stack_bottom()
                + self.stack_capacity(),
    {
    }

    /// Is the operand stack empty, as far as recorded?
    pub open spec fn stack_is_empty(&self) -> bool {
        self.recorded_stack_ptr() == self.stack_bottom()
    }

    /// Is the operand stack empty, as far as recorded?
    pub fn has_empty_stack(&self) -> (b: bool)
        ensures
            b == self.stack_is_empty(),
    {
        self.stack_ptr_if_debug == self.local_count as usize
    }

    /// A frame with `local_count` empty locals and an empty stack of
    /// `max_stack_size` slots.
    pub fn new(local_count: u32, max_stack_size: u32) -> (frame: BcFrame)
        ensures
            frame.wf(),
            frame.locals_view() == Seq::new(local_count as nat, |i: int| None::<Value>),
            frame.stack_capacity() == max_stack_size,
            frame.stack_is_empty(),
    {
        let total: u64 = local_count as u64 + max_stack_size as u64;
        let mut slots: Vec<Option<Value>> = Vec::new();
        let mut i: u64 = 0;
        while i < total
            invariant
                i <= total,
                slots@.len() == i,
                forall|j: int| 0 <= j < i ==> slots@[j] is None,
            decreases total - i,
        {
            slots.push(None);
            i += 1;
        }
        let frame = BcFrame {
            local_count,
            max_stack_size,
            stack_ptr_if_debug: local_count as usize,
            slots,
        };
        assert(frame.locals_view() =~= Seq::new(local_count as nat, |i: int| None::<Value>));
        frame
    }

    /// The number of local slots.
    pub fn local_count(&self) -> (n: u32)
        requires
            self.wf(),
        ensures
            n == self.locals_view().len(),
    {
        self.local_count
    }

    /// The local slots.
    pub fn locals(&self) -> (r: &[Option<Value>])
        requires
            self.wf(),
        ensures
            r@ == self.locals_view(),
    {
        vstd::slice::slice_subrange(self.slots.as_slice(), 0, self.local_count as usize)
    }

    /// The local slots, to be written.
    pub fn locals_mut(&mut self) -> (r: &mut [Option<Value>])
        requires
            old(self).wf(),
        ensures
            r@ == old(self).locals_view(),
            final(r)@.len() == r@.len() ==> {
                &&& final(self).wf()
                &&& final(self).locals_view() == final(r)@
                &&& final(self).stack_capacity() == old(self).stack_capacity()
                &&& final(self).recorded_stack_ptr() == old(self).recorded_stack_ptr()
            },
    {
        let n = self.local_count as usize;
        let (locals, _stack) = self.slots.as_mut_slice().split_at_mut(n);
        locals
    }

    /// A pointer to the bottom of the operand stack.
    pub fn stack_bottom_ptr(&self) -> (p: BcStackPtr)
        ensures
            p.spec_ptr() == self.stack_bottom(),
    {
        BcStackPtr { ptr: self.local_count as usize }
    }

    /// Records where the top of the operand stack is.
    pub fn set_stack_ptr_if_debug(&mut self, ptr: &BcStackPtr)
        requires
            old(self).wf(),
            old(self).stack_bottom() <= ptr.spec_ptr() <= old(self).stack_bottom() + old(
                self,
            ).stack_capacity(),
        ensures
            final(self).wf(),
            final(self).recorded_stack_ptr() == ptr.spec_ptr(),
            final(self).locals_view() == old(self).locals_view(),
            final(self).stack_capacity() == old(self).stack_capacity(),
    {
        self.stack_ptr_if_debug = ptr.ptr;
    }

    /// Checks that there is no value on the operand stack. The stack is
    /// not traced, so the heap may be collected only where this holds.
    pub fn debug_assert_stack_size_if_zero(&self)
        requires
            self.stack_is_empty(),
    {
        let bottom = self.stack_bottom_ptr();
        assert(self.stack_ptr_if_debug == bottom.ptr);
    }

    /// The value of a local variable, or nothing if it has not been
    /// assigned yet.
    pub fn get_slot(&self, slot: LocalSlotId) -> (r: Option<Value>)
        requires
            self.wf(),
            slot.0 < self.locals_view().len(),
        ensures
            r == self.locals_view()[slot.0 as int],
    {
        self.slots[slot.0 as usize]
    }

    /// Assigns a local variable.
    pub fn set_slot(&mut self, slot: LocalSlotId, value: Value)
        requires
            old(self).wf(),
            slot.0 < old(self).locals_view().len(),
        ensures
            final(self).wf(),
            final(self).locals_view() == old(self).locals_view().update(slot.0 as int, Some(value)),
            final(self).stack_capacity() == old(self).stack_capacity(),
            final(self).recorded_stack_ptr() == old(self).recorded_stack_ptr(),
    {
        self.slots[slot.0 as usize] = Some(value);
        assert(self.locals_view() =~= old(self).locals_view().update(slot.0 as int, Some(value)));
    }

    /// Moves the values of the locals after a collection of the heap. The
    /// operand stack is left alone: it is empty.
    pub fn relocate(&mut self, reached: &Reached)
        requires
            old(self).wf(),
            numbered(reached.order(), reached.forward()),
            reached.forward().len() <= HEAP_LIMIT,
        ensures
            final(self).wf(),
            final(self).locals_view() == moved_slots(reached.forward(), old(self).locals_view()),
            final(self).stack_capacity() == old(self).stack_capacity(),
            final(self).recorded_stack_ptr() == old(self).recorded_stack_ptr(),
    {
        let locals = self.locals_mut();
        reached.relocate_slots(locals);
    }

    /// The values that a collection of the heap starts from: the locals
    /// that are assigned. The operand stack is not among them, and must be
    /// empty.
    pub fn trace(&self) -> (roots: Vec<Value>)
        requires
            self.wf(),
            self.stack_is_empty(),
        ensures
            roots@ == assigned(self.locals_view()),
    {
        let mut roots: Vec<Value> = Vec::new();
        let locals = self.locals();
        let n = locals.len();
        let mut i: usize = 0;
        while i < n
            invariant
                n == locals@.len(),
                i <= n,
                roots@ == assigned(locals@.take(i as int)),
            decreases n - i,
        {
            assert(locals@.take(i as int + 1).drop_last() =~= locals@.take(i as int));
            match locals[i] {
                Some(v) => roots.push(v),
                None => {},
            }
            i += 1;
        }
        assert(locals@.take(n as int) =~= locals@);
        // The stack is not traced: it has to be empty here.
        self.debug_assert_stack_size_if_zero();
        roots
    }
}

/// The values in the slots that are assigned, in the order of the slots.
pub open spec fn assigned(slots: Seq<Option<Value>>) -> Seq<Value>
    decreases slots.len(),
{
    if slots.len() == 0 {
        Seq::empty()
    } else {
        match slots.last() {
            Some(v) => assigned(slots.drop_last()).push(v),
            None => assigned(slots.drop_last()),
        }
    }
}

impl BcFramePtr {
    /// The place of the frame pointed to in the scratch stack, counted
    /// from zero.
    pub closed spec fn index(self) -> int {
        self.slots_ptr - 1
    }

    /// Does the pointer point to a frame?
    pub closed spec fn spec_is_initialized(self) -> bool {
        self.slots_ptr != 0
    }

    /// The pointer points to no frame, or to one of the lowest `depth`
    /// frames of the scratch stack.
    pub open spec fn null_or_below(self, depth: int) -> bool {
        !self.spec_is_initialized() || 0 <= self.index() < depth
    }

    /// The pointer to the frame at place `index` of the scratch stack.
    pub closed spec fn at(index: int) -> BcFramePtr {
        BcFramePtr { slots_ptr: (index + 1) as usize }
    }

    /// The pointer to a place of the scratch stack points to that place.
    pub proof fn lemma_at(index: int)
        requires
            0 <= index < usize::MAX,
        ensures
            Self::at(index).index() == index,
            Self::at(index).spec_is_initialized(),
    {
    }

    /// The pointer to no frame.
    pub fn null() -> (p: BcFramePtr)
        ensures
            !p.spec_is_initialized(),
    {
        BcFramePtr { slots_ptr: 0 }
    }

    /// Does the pointer point to a frame, or was it made empty?
    pub fn is_inititalized(self) -> (b: bool)
        ensures
            b == self.spec_is_initialized(),
    {
        self.slots_ptr != 0
    }

    /// Does the pointer point to a frame of this evaluator?
    pub open spec fn valid_in<C, L>(self, eval: &EvaluationContext<C, L>) -> bool {
        self.spec_is_initialized() && 0 <= self.index() < eval.frames().len()
    }

    /// Does the pointer point to a frame of this evaluator?
    pub fn is_valid_in<C, L>(self, eval: &EvaluationContext<C, L>) -> (b: bool)
        ensures
            b == self.valid_in(eval),
    {
        self.slots_ptr != 0 && self.slots_ptr - 1 < eval.depth()
    }

    /// The frame pointed to.
    pub open spec fn frame_in<C, L>(self, eval: &EvaluationContext<C, L>) -> BcFrame {
        eval.frames()[self.index()]
    }

    /// The value of a local variable of the frame, or nothing if it has
    /// not been assigned yet.
    pub fn get_slot<C, L>(self, eval: &EvaluationContext<C, L>, slot: LocalSlotId) -> (r: Option<Value>)
        requires
            eval.wf(),
            self.valid_in(eval),
            slot.0 < self.frame_in(eval).locals_view().len(),
        ensures
            r == self.frame_in(eval).locals_view()[slot.0 as int],
    {
        eval.frame(self).get_slot(slot)
    }

    /// Assigns a local variable of the frame. No other frame changes.
    pub fn set_slot<C, L>(self, eval: &mut EvaluationContext<C, L>, slot: LocalSlotId, value: Value)
        requires
            old(eval).wf(),
            self.valid_in(old(eval)),
            slot.0 < self.frame_in(old(eval)).locals_view().len(),
        ensures
            final(eval).wf(),
            final(eval).current_frame() == old(eval).current_frame(),
            final(eval).frames().len() == old(eval).frames().len(),
            forall|i: int|
                0 <= i < old(eval).frames().len() && i != self.index() ==> final(eval).frames()[i]
                    == old(eval).frames()[i],
            self.frame_in(final(eval)).locals_view() == self.frame_in(old(eval)).locals_view().update(
                slot.0 as int,
                Some(value),
            ),
            self.frame_in(final(eval)).stack_capacity() == self.frame_in(old(eval)).stack_capacity(),
            self.frame_in(final(eval)).recorded_stack_ptr() == self.frame_in(
                old(eval),
            ).recorded_stack_ptr(),
            final(eval).same_scope(old(eval)),
    {
        eval.set_frame_slot(self, slot, value)
    }

    /// The number of slots of the frame's operand stack.
    pub fn max_stack_size<C, L>(self, eval: &EvaluationContext<C, L>) -> (n: u32)
        requires
            eval.wf(),
            self.valid_in(eval),
        ensures
            n == self.frame_in(eval).stack_capacity(),
    {
        eval.frame(self).max_stack_size
    }

    /// A pointer to the bottom of the frame's operand stack.
    pub fn stack_bottom_ptr<C, L>(self, eval: &EvaluationContext<C, L>) -> (p: BcStackPtr)
        requires
            eval.wf(),
            self.valid_in(eval),
        ensures
            p.spec_ptr() == self.frame_in(eval).stack_bottom(),
    {
        eval.frame(self).stack_bottom_ptr()
    }

    /// Records where the top of the frame's operand stack is.
    pub fn set_stack_ptr_if_debug<C, L>(self, eval: &mut EvaluationContext<C, L>, ptr: &BcStackPtr)
        requires
            old(eval).wf(),
            self.valid_in(old(eval)),
            self.frame_in(old(eval)).stack_bottom() <= ptr.spec_ptr() <= self.frame_in(
                old(eval),
            ).stack_bottom() + self.frame_in(old(eval)).stack_capacity(),
        ensures
            final(eval).wf(),
            final(eval).current_frame() == old(eval).current_frame(),
            final(eval).frames().len() == old(eval).frames().len(),
            forall|i: int|
                0 <= i < old(eval).frames().len() && i != self.index() ==> final(eval).frames()[i]
                    == old(eval).frames()[i],
            self.frame_in(final(eval)).locals_view() == self.frame_in(old(eval)).locals_view(),
            self.frame_in(final(eval)).stack_capacity() == self.frame_in(old(eval)).stack_capacity(),
            self.frame_in(final(eval)).recorded_stack_ptr() == ptr.spec_ptr(),
            final(eval).same_scope(old(eval)),
    {
        eval.set_frame_stack_ptr(self, ptr)
    }

    /// The local slots of the frame.
    pub fn locals<C, L>(self, eval: &EvaluationContext<C, L>) -> (r: &[Option<Value>])
        requires
            eval.wf(),
            self.valid_in(eval),
        ensures
            r@ == self.frame_in(eval).locals_view(),
    {
        eval.frame(self).locals()
    }

    /// The values that a collection of the heap starts from in the frame.
    pub fn trace<C, L>(self, eval: &EvaluationContext<C, L>) -> (roots: Vec<Value>)
        requires
            eval.wf(),
            self.valid_in(eval),
            self.frame_in(eval).stack_is_empty(),
        ensures
            roots@ == assigned(self.frame_in(eval).locals_view()),
    {
        eval.frame(self).trace()
    }

    /// The pointer to the frame at place `index` of the scratch stack.
    pub(crate) fn from_index(index: usize) -> (p: BcFramePtr)
        requires
            index < usize::MAX,
        ensures
            p == Self::at(index as int),
            p.index() == index,
            p.spec_is_initialized(),
    {
        BcFramePtr { slots_ptr: index + 1 }
    }

    /// The place of the frame pointed to in the scratch stack.
    pub(crate) fn to_index(self) -> (index: usize)
        requires
            self.spec_is_initialized(),
        ensures
            index == self.index(),
    {
        self.slots_ptr - 1
    }
}

/// The evaluator as a continuation finds it when it is called in a new
/// frame: one frame deeper than `before`, the new frame current, with
/// `local_count` empty locals and an empty stack of `max_stack_size` slots.
pub open spec fn entered<C, L>(
    before: EvaluationContext<C, L>,
    now: EvaluationContext<C, L>,
    local_count: u32,
    max_stack_size: u32,
) -> bool {
    &&& now.wf()
    &&& now.frames().len() == before.frames().len() + 1
    &&& now.frames().drop_last() == before.frames()
    &&& now.current_frame() == BcFramePtr::at(before.frames().len() as int)
    &&& now.frames().last().locals_view() == Seq::new(local_count as nat, |i: int| None::<Value>)
    &&& now.frames().last().stack_capacity() == max_stack_size
    &&& now.frames().last().stack_is_empty()
    &&& now.same_scope(&before)
}

/// Allocates a frame, makes it the current frame of the evaluator and runs
/// `k`. When `k` is done, whatever it returns, the frame is released and
/// the frame that was current before is current again.
///
/// `k` leaves the evaluator well formed, with no fewer frames than there
/// were before the call.
pub fn alloca_frame<C, L, R, F: FnOnce(&mut EvaluationContext<C, L>) -> R>(
    eval: &mut EvaluationContext<C, L>,
    local_count: u32,
    max_stack_size: u32,
    k: F,
) -> (r: R)
    requires
        old(eval).wf(),
        forall|e: &mut EvaluationContext<C, L>|
            entered(*old(eval), *e, local_count, max_stack_size) ==> #[trigger] k.requires((e,)),
        forall|e: &mut EvaluationContext<C, L>, r: R|
            entered(*old(eval), *e, local_count, max_stack_size) && #[trigger] k.ensures((e,), r)
                ==> final(e).wf() && final(e).frames().len() >= old(eval).frames().len(),
    ensures
        final(eval).wf(),
        final(eval).current_frame() == old(eval).current_frame(),
        exists|e: &mut EvaluationContext<C, L>|
            {
                &&& entered(*old(eval), *e, local_count, max_stack_size)
                &&& #[trigger] k.ensures((e,), r)
                &&& final(eval).same_scope(final(e))
                &&& final(eval).frames() == final(e).frames().subrange(
                    0,
                    old(eval).frames().len() as int,
                )
            },
{
    proof {
        eval.lemma_wf();
    }
    let saved = eval.depth();
    let frame = eval.push_frame(local_count, max_stack_size);
    let ghost pushed = *eval;
    let old_frame = eval.replace_current_frame(frame);
    proof {
        EvaluationContext::lemma_same_scope(&*eval, &pushed, &*old(eval));
    }
    let r = k(eval);
    let ghost left = *eval;
    eval.replace_current_frame(old_frame);
    let ghost restored = *eval;
    eval.release_frames(saved);
    proof {
        EvaluationContext::lemma_same_scope(&*eval, &restored, &left);
    }
    r
}

/// The evaluator as a continuation finds it when it is handed a new
/// frame: one frame deeper than `before`, with `local_count` empty locals
/// and an empty stack of `max_stack_size` slots in the new frame, and the
/// current frame as it was.
pub open spec fn allocated<C, L>(
    before: EvaluationContext<C, L>,
    now: EvaluationContext<C, L>,
    local_count: u32,
    max_stack_size: u32,
) -> bool {
    &&& now.wf()
    &&& now.frames().len() == before.frames().len() + 1
    &&& now.frames().drop_last() == before.frames()
    &&& now.current_frame() == before.current_frame()
    &&& now.frames().last().locals_view() == Seq::new(local_count as nat, |i: int| None::<Value>)
    &&& now.frames().last().stack_capacity() == max_stack_size
    &&& now.frames().last().stack_is_empty()
    &&& now.same_scope(&before)
}

/// Allocates a frame on the evaluator's scratch stack and hands a pointer
/// to it to `k`. When `k` is done, the frame is released, with every frame
/// that may be left above it.
///
/// `k` leaves the evaluator well formed, with no fewer frames than there
/// were before the call, and with a current frame that is not the new
/// frame or one above it: those are released.
pub fn alloca_raw<C, L, R, F: FnOnce(&mut EvaluationContext<C, L>, BcFramePtr) -> R>(
    eval: &mut EvaluationContext<C, L>,
    local_count: u32,
    max_stack_size: u32,
    k: F,
) -> (r: R)
    requires
        old(eval).wf(),
        forall|e: &mut EvaluationContext<C, L>|
            allocated(*old(eval), *e, local_count, max_stack_size) ==> #[trigger] k.requires(
                (e, BcFramePtr::at(old(eval).frames().len() as int)),
            ),
        forall|e: &mut EvaluationContext<C, L>, r: R|
            allocated(*old(eval), *e, local_count, max_stack_size) && #[trigger] k.ensures(
                (e, BcFramePtr::at(old(eval).frames().len() as int)),
                r,
            ) ==> final(e).wf() && final(e).frames().len() >= old(eval).frames().len()
                && final(e).current_frame().null_or_below(old(eval).frames().len() as int),
    ensures
        final(eval).wf(),
        exists|e: &mut EvaluationContext<C, L>|
            {
                &&& allocated(*old(eval), *e, local_count, max_stack_size)
                &&& #[trigger] k.ensures((e, BcFramePtr::at(old(eval).frames().len() as int)), r)
                &&& final(eval).current_frame() == final(e).current_frame()
                &&& final(eval).same_scope(final(e))
                &&& final(eval).frames() == final(e).frames().subrange(
                    0,
                    old(eval).frames().len() as int,
                )
            },
{
    let saved = eval.depth();
    let frame = eval.push_frame(local_count, max_stack_size);
    let r = k(eval, frame);
    eval.release_frames(saved);
    r
}

} // verus!
