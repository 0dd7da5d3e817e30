//! The state of one evaluation: the module being evaluated, the variables
//! in scope, the calls under way, and the heap.

use vstd::prelude::*;

use crate::collections::symbol_map::SymbolMap;
use crate::collections::vec_map::lookup;
use crate::eval::frame::{BcFrame, BcFramePtr, BcStackPtr, LocalSlotId};
use crate::values::collect::{collected, moved, moved_slots};
use crate::values::frozen::{
    all_objects_freeze, frozen_objects, frozen_slots, slots_freeze, FrozenHeap, FrozenHeapRef,
    FrozenObjectView,
};
use crate::values::collect::moved_events;
use crate::values::heap::{entered_functions, CallEvent, Heap, ObjectView, HEAP_LIMIT};
use crate::values::trace::{numbered, Reached};
use crate::values::value::{FrozenValue, Value, ValueLike};

verus! {

/// The deepest that calls may nest.
pub const MAX_CALLSTACK_RECURSION: usize = 50;

/// What can go wrong with a variable.
#[derive(Debug)]
pub enum EnvironmentError {
    /// A variable was read before it was assigned.
    LocalVariableReferencedBeforeAssignment(String),
    /// A variable of the module was assigned from within a function.
    CannotSetVariable(String),
}

/// What an error holds.
pub enum EnvironmentErrorView {
    LocalVariableReferencedBeforeAssignment(Seq<char>),
    CannotSetVariable(Seq<char>),
}

impl View for EnvironmentError {
    type V = EnvironmentErrorView;

    open spec fn view(&self) -> EnvironmentErrorView {
        match self {
            EnvironmentError::LocalVariableReferencedBeforeAssignment(
                name,
            ) => EnvironmentErrorView::LocalVariableReferencedBeforeAssignment(name@),
            EnvironmentError::CannotSetVariable(name) => EnvironmentErrorView::CannotSetVariable(
                name@,
            ),
        }
    }
}

/// What can go wrong with the flow of control.
#[derive(Debug, Clone, Copy, PartialEq, Eq, Structural)]
pub enum ControlError {
    /// Calls nest deeper than `MAX_CALLSTACK_RECURSION`.
    TooManyRecursionLevel,
}

/// The variables of a function under evaluation, by slot.
pub struct LocalSlots {
    slots: Vec<Option<Value>>,
}

impl View for LocalSlots {
    type V = Seq<Option<Value>>;

    closed spec fn view(&self) -> Seq<Option<Value>> {
        self.slots@
    }
}

impl LocalSlots {
    /// `n` variables, none assigned.
    pub fn new(n: usize) -> (r: LocalSlots)
        ensures
            r@ == Seq::new(n as nat, |i: int| None::<Value>),
    {
        let mut slots: Vec<Option<Value>> = Vec::new();
        let mut i: usize = 0;
        while i < n
            invariant
                i <= n,
                slots@.len() == i,
                forall|j: int| 0 <= j < i ==> slots@[j] is None,
            decreases n - i,
        {
            slots.push(None);
            i += 1;
        }
        assert(slots@ =~= Seq::new(n as nat, |i: int| None::<Value>));
        LocalSlots { slots }
    }

    /// No variable.
    pub fn default() -> (r: LocalSlots)
        ensures
            r@ == Seq::<Option<Value>>::empty(),
    {
        LocalSlots { slots: Vec::new() }
    }

    /// The number of variables.
    pub fn len(&self) -> (n: usize)
        ensures
            n == self@.len(),
    {
        self.slots.len()
    }

    /// The value of the variable in `slot`, if it is assigned.
    pub fn get_slot(&self, slot: usize) -> (r: Option<Value>)
        requires
            slot < self@.len(),
        ensures
            r == self@[slot as int],
    {
        self.slots[slot]
    }

    /// Assigns the variable in `slot`.
    pub fn set_slot(&mut self, slot: usize, value: Value)
        requires
            slot < old(self)@.len(),
        ensures
            final(self)@ == old(self)@.update(slot as int, Some(value)),
    {
        self.slots[slot] = Some(value);
    }

    /// Moves the values of the variables after a collection of the heap.
    pub fn relocate(&mut self, reached: &Reached)
        requires
            numbered(reached.order(), reached.forward()),
            reached.forward().len() <= HEAP_LIMIT,
        ensures
            final(self)@ == moved_slots(reached.forward(), old(self)@),
    {
        reached.relocate_slots(self.slots.as_mut_slice());
    }

    /// The values of the variables that are assigned, added to `roots`.
    pub fn walk(&self, roots: &mut Vec<Value>)
        ensures
            final(roots)@ == old(roots)@ + crate::eval::frame::assigned(self@),
    {
        let n = self.slots.len();
        let mut i: usize = 0;
        assert(self@.take(0) =~= Seq::<Option<Value>>::empty());
        assert(roots@ =~= old(roots)@ + crate::eval::frame::assigned(self@.take(0)));
        while i < n
            invariant
                n == self@.len(),
                i <= n,
                roots@ == old(roots)@ + crate::eval::frame::assigned(self@.take(i as int)),
            decreases n - i,
        {
            assert(self@.take(i as int + 1).drop_last() =~= self@.take(i as int));
            match self.slots[i] {
                Some(v) => {
                    roots.push(v);
                    assert(roots@ =~= old(roots)@ + crate::eval::frame::assigned(
                        self@.take(i as int + 1),
                    ));
                },
                None => {},
            }
            i += 1;
        }
        assert(self@.take(n as int) =~= self@);
    }
}

/// A module under evaluation: its name, the variables at its top level,
/// each with a slot, and a frozen heap, which refers to the frozen heaps
/// that the values of the module may point into.
pub struct Module {
    name: String,
    names: SymbolMap<usize>,
    slots: Vec<Option<Value>>,
    frozen_heap: FrozenHeap,
}

impl Module {
    /// The name of the module.
    pub closed spec fn spec_name(&self) -> Seq<char> {
        self.name@
    }

    /// The slot of each variable, by name, in the order in which the
    /// names came.
    pub closed spec fn names(&self) -> Seq<(Seq<char>, usize)> {
        self.names@
    }

    /// The value in each slot.
    pub closed spec fn slots(&self) -> Seq<Option<Value>> {
        self.slots@
    }

    /// The frozen heap of the module.
    pub closed spec fn spec_frozen_heap(&self) -> FrozenHeap {
        self.frozen_heap
    }

    /// Every name has a slot, and the frozen heap is well formed.
    pub closed spec fn wf(&self) -> bool {
        &&& self.names.wf()
        &&& forall|i: int| 0 <= i < self.names@.len() ==> (#[trigger] self.names@[i]).1 < self.slots@.len()
        &&& self.frozen_heap.wf()
    }

    /// This is the module `before`, with a frozen heap that refers to
    /// `heap` besides.
    pub open spec fn refers(&self, before: &Module, heap: FrozenHeap) -> bool {
        &&& self.spec_name() == before.spec_name()
        &&& self.names() == before.names()
        &&& self.slots() == before.slots()
        &&& self.spec_frozen_heap()@ == before.spec_frozen_heap()@
        &&& self.spec_frozen_heap().references() == before.spec_frozen_heap().references().push(
            heap,
        )
    }

    /// The value of the variable `name`, if the module has it and it is
    /// assigned.
    pub open spec fn value_of(&self, name: Seq<char>) -> Option<Value> {
        match lookup(self.names(), name) {
            Some(slot) => self.slots()[slot as int],
            None => None,
        }
    }

    /// This is the module `before` with the variable `name` assigned the
    /// value `value`: a variable that the module had keeps its slot; a new
    /// one gets a new slot, behind the others.
    pub open spec fn is_set(&self, before: &Module, name: Seq<char>, value: Value) -> bool {
        &&& self.spec_name() == before.spec_name()
        &&& self.spec_frozen_heap() == before.spec_frozen_heap()
        &&& match lookup(before.names(), name) {
            Some(slot) => {
                &&& self.names() == before.names()
                &&& self.slots() == before.slots().update(slot as int, Some(value))
            },
            None => {
                &&& self.names() == before.names().push((name, before.slots().len() as usize))
                &&& self.slots() == before.slots().push(Some(value))
            },
        }
    }

    /// A module without variables.
    pub fn new(name: String) -> (m: Module)
        ensures
            m.wf(),
            m.spec_name() == name@,
            m.names() == Seq::<(Seq<char>, usize)>::empty(),
            m.slots() == Seq::<Option<Value>>::empty(),
            m.spec_frozen_heap()@ == Seq::<FrozenObjectView>::empty(),
            m.spec_frozen_heap().references() == Seq::<FrozenHeap>::empty(),
    {
        Module { name, names: SymbolMap::new(), slots: Vec::new(), frozen_heap: FrozenHeap::new() }
    }

    /// The frozen heap of the module.
    pub fn frozen_heap(&self) -> (heap: &FrozenHeap)
        ensures
            *heap == self.spec_frozen_heap(),
    {
        &self.frozen_heap
    }

    /// Makes the frozen heap of the module refer to `heap`.
    pub fn add_reference(&mut self, heap: &FrozenHeapRef)
        requires
            old(self).wf(),
        ensures
            final(self).wf(),
            final(self).refers(old(self), heap.heap()),
    {
        self.frozen_heap.add_reference(heap);
    }

    /// The name of the module.
    pub fn name(&self) -> (r: &str)
        ensures
            r@ == self.spec_name(),
    {
        self.name.as_str()
    }

    /// The number of slots.
    pub fn slot_count(&self) -> (n: usize)
        ensures
            n == self.slots().len(),
    {
        self.slots.len()
    }

    /// The value in `slot`, if there is such a slot and it is assigned.
    pub fn get_slot(&self, slot: usize) -> (r: Option<Value>)
        ensures
            r == (if slot < self.slots().len() {
                self.slots()[slot as int]
            } else {
                None
            }),
    {
        if slot < self.slots.len() {
            self.slots[slot]
        } else {
            None
        }
    }

    /// Assigns the variable in `slot`.
    pub fn set_slot(&mut self, slot: usize, value: Value)
        requires
            old(self).wf(),
            slot < old(self).slots().len(),
        ensures
            final(self).wf(),
            final(self).spec_name() == old(self).spec_name(),
            final(self).names() == old(self).names(),
            final(self).slots() == old(self).slots().update(slot as int, Some(value)),
            final(self).spec_frozen_heap() == old(self).spec_frozen_heap(),
    {
        self.slots[slot] = Some(value);
    }

    /// The value of the variable `name`, if the module has it and it is
    /// assigned.
    pub fn get(&self, name: &str) -> (r: Option<Value>)
        requires
            self.wf(),
        ensures
            r == self.value_of(name@),
    {
        proof {
            crate::collections::vec_map::lemma_index_of_key_some(self.names@, name@);
        }
        match self.names.get_str(name) {
            Some(slot) => self.slots[*slot],
            None => None,
        }
    }

    /// Assigns the variable `name`. A name that the module does not have
    /// yet gets a new slot, behind the others.
    pub fn set(&mut self, name: &str, value: Value)
        requires
            old(self).wf(),
        ensures
            final(self).wf(),
            final(self).is_set(old(self), name@, value),
    {
        proof {
            crate::collections::vec_map::lemma_index_of_key_some(self.names@, name@);
        }
        let known = match self.names.get_str(name) {
            Some(slot) => Some(*slot),
            None => None,
        };
        match known {
            Some(slot) => {
                self.slots[slot] = Some(value);
            },
            None => {
                let slot = self.slots.len();
                self.slots.push(Some(value));
                self.names.insert(name, slot);
                proof {
                    assert forall|i: int| 0 <= i < self.names@.len() implies (
                    #[trigger] self.names@[i]).1 < self.slots@.len() by {
                        if i < old(self).names@.len() {
                            assert(self.names@[i] == old(self).names@[i]);
                        }
                    }
                }
            },
        }
    }

    /// Freezes the module: the objects of `heap` that are in use from the
    /// variables of the module are copied to a frozen heap, and the
    /// variables take the frozen values that stand for theirs. The objects
    /// that are not in use are left behind. The frozen heap refers to the
    /// frozen heaps that the frozen heap of the module refers to.
    ///
    /// There is no frozen module if a value in use points into a heap
    /// other than `heap` that is not frozen.
    pub fn freeze(&self, heap: &Heap) -> (r: Option<FrozenModule>)
        requires
            self.wf(),
            heap.wf(),
        ensures
            exists|reached: Reached|
                {
                    &&& #[trigger] reached.traces(heap@, crate::eval::frame::assigned(self.slots()))
                    &&& r is Some == (all_objects_freeze(
                        heap@,
                        reached.order(),
                        reached.forward(),
                        reached.order().len() as int,
                    ) && slots_freeze(reached.forward(), self.slots(), self.slots().len() as int))
                    &&& r matches Some(f) ==> {
                        &&& f.spec_name() == self.spec_name()
                        &&& f.slots() == frozen_slots(reached.forward(), self.slots())
                        &&& f.heap_view() == frozen_objects(
                            heap@,
                            reached.order(),
                            reached.forward(),
                        )
                        &&& f.heap_references() == self.spec_frozen_heap().references()
                    }
                },
    {
        let mut roots: Vec<Value> = Vec::new();
        self.walk(&mut roots);
        assert(roots@ =~= crate::eval::frame::assigned(self.slots()));
        let reached = heap.trace(roots.as_slice());
        proof {
            heap.lemma_wf();
        }
        let mut frozen_heap = match heap.freeze(&reached) {
            Some(frozen_heap) => frozen_heap,
            None => {
                return None;
            },
        };
        let slots = match reached.freeze_slots(self.slots.as_slice()) {
            Some(slots) => slots,
            None => {
                return None;
            },
        };
        frozen_heap.add_references_of(&self.frozen_heap);
        assert(frozen_heap.references() =~= self.frozen_heap.references());
        Some(FrozenModule { name: self.name.clone(), slots, heap: frozen_heap })
    }

    /// Moves the values of the variables after a collection of the heap.
    pub fn relocate(&mut self, reached: &Reached)
        requires
            old(self).wf(),
            numbered(reached.order(), reached.forward()),
            reached.forward().len() <= HEAP_LIMIT,
        ensures
            final(self).wf(),
            final(self).spec_name() == old(self).spec_name(),
            final(self).names() == old(self).names(),
            final(self).slots() == moved_slots(reached.forward(), old(self).slots()),
            final(self).spec_frozen_heap() == old(self).spec_frozen_heap(),
    {
        reached.relocate_slots(self.slots.as_mut_slice());
    }

    /// The values of the variables that are assigned, added to `roots`.
    pub fn walk(&self, roots: &mut Vec<Value>)
        ensures
            final(roots)@ == old(roots)@ + crate::eval::frame::assigned(self.slots()),
    {
        let n = self.slots.len();
        let mut i: usize = 0;
        assert(self.slots@.take(0) =~= Seq::<Option<Value>>::empty());
        assert(roots@ =~= old(roots)@ + crate::eval::frame::assigned(self.slots@.take(0)));
        while i < n
            invariant
                n == self.slots@.len(),
                i <= n,
                roots@ == old(roots)@ + crate::eval::frame::assigned(self.slots@.take(i as int)),
            decreases n - i,
        {
            assert(self.slots@.take(i as int + 1).drop_last() =~= self.slots@.take(i as int));
            match self.slots[i] {
                Some(v) => {
                    roots.push(v);
                    assert(roots@ =~= old(roots)@ + crate::eval::frame::assigned(
                        self.slots@.take(i as int + 1),
                    ));
                },
                None => {},
            }
            i += 1;
        }
        assert(self.slots@.take(n as int) =~= self.slots@);
    }
}

/// A module that has been frozen: its name, the values in its slots, and
/// the frozen heap that holds the objects they point to. Nothing in it
/// changes any more.
pub struct FrozenModule {
    name: String,
    slots: Vec<Option<FrozenValue>>,
    heap: FrozenHeap,
}

impl FrozenModule {
    /// The name of the module.
    pub closed spec fn spec_name(&self) -> Seq<char> {
        self.name@
    }

    /// The value in each slot.
    pub closed spec fn slots(&self) -> Seq<Option<FrozenValue>> {
        self.slots@
    }

    /// The objects of the module's frozen heap.
    pub closed spec fn heap_view(&self) -> Seq<FrozenObjectView> {
        self.heap@
    }

    /// The frozen heaps that the module's frozen heap refers to.
    pub closed spec fn heap_references(&self) -> Seq<FrozenHeap> {
        self.heap.references()
    }

    /// A frozen module with these slots, over this frozen heap.
    pub fn new(name: String, slots: Vec<Option<FrozenValue>>, heap: FrozenHeap) -> (m: FrozenModule)
        ensures
            m.spec_name() == name@,
            m.slots() == slots@,
            m.heap_view() == heap@,
            m.heap_references() == heap.references(),
    {
        FrozenModule { name, slots, heap }
    }

    /// The frozen heap that holds the objects of the module.
    pub fn frozen_heap(&self) -> (heap: &FrozenHeap)
        ensures
            heap@ == self.heap_view(),
            heap.references() == self.heap_references(),
    {
        &self.heap
    }

    /// The name of the module.
    pub fn name(&self) -> (r: &str)
        ensures
            r@ == self.spec_name(),
    {
        self.name.as_str()
    }

    /// The value in `slot`, if there is such a slot and it is assigned.
    pub fn get_slot(&self, slot: usize) -> (r: Option<FrozenValue>)
        ensures
            r == (if slot < self.slots().len() {
                self.slots()[slot as int]
            } else {
                None
            }),
    {
        if slot < self.slots.len() {
            self.slots[slot]
        } else {
            None
        }
    }
}

/// The names that the host gives to every module: a mapping from names to
/// frozen values that is only read, and the frozen heap that holds the
/// objects of those values.
pub struct Globals {
    names: SymbolMap<FrozenValue>,
    heap: FrozenHeapRef,
}

impl Globals {
    /// The value of each name.
    pub closed spec fn names(&self) -> Seq<(Seq<char>, FrozenValue)> {
        self.names@
    }

    /// The frozen heap of the values.
    pub closed spec fn spec_heap(&self) -> FrozenHeap {
        self.heap.heap()
    }

    /// The map of the names is well formed.
    pub closed spec fn wf(&self) -> bool {
        self.names.wf()
    }

    /// No name, over a frozen heap without objects.
    pub fn new() -> (g: Globals)
        ensures
            g.wf(),
            g.names() == Seq::<(Seq<char>, FrozenValue)>::empty(),
            g.spec_heap()@ == Seq::<FrozenObjectView>::empty(),
            g.spec_heap().references() == Seq::<FrozenHeap>::empty(),
    {
        Globals { names: SymbolMap::new(), heap: FrozenHeapRef::new(FrozenHeap::new()) }
    }

    /// No name, over the frozen heap `heap`.
    pub fn with_heap(heap: FrozenHeapRef) -> (g: Globals)
        ensures
            g.wf(),
            g.names() == Seq::<(Seq<char>, FrozenValue)>::empty(),
            g.spec_heap() == heap.heap(),
    {
        Globals { names: SymbolMap::new(), heap }
    }

    /// The frozen heap of the values.
    pub fn heap(&self) -> (heap: &FrozenHeapRef)
        ensures
            heap.heap() == self.spec_heap(),
    {
        &self.heap
    }

    /// Gives `name` the value `value`.
    pub fn set(&mut self, name: &str, value: FrozenValue)
        requires
            old(self).wf(),
        ensures
            final(self).wf(),
            final(self).names() == crate::collections::vec_map::inserted(
                old(self).names(),
                name@,
                value,
            ),
            final(self).spec_heap() == old(self).spec_heap(),
    {
        self.names.insert(name, value);
    }

    /// The value of `name`.
    pub fn get_frozen(&self, name: &str) -> (r: Option<FrozenValue>)
        requires
            self.wf(),
        ensures
            r == lookup(self.names(), name@),
    {
        match self.names.get_str(name) {
            Some(v) => Some(*v),
            None => None,
        }
    }
}

/// One call under way: the function called, and where the call stands in
/// the source. The location is the host's: it is kept for diagnostics and
/// never looked into.
pub struct CallFrame<L> {
    pub function: Value,
    pub location: Option<L>,
}

/// The calls under way, the innermost last.
pub struct CallStack<L> {
    stack: Vec<CallFrame<L>>,
}

impl<L> View for CallStack<L> {
    type V = Seq<CallFrame<L>>;

    closed spec fn view(&self) -> Seq<CallFrame<L>> {
        self.stack@
    }
}

impl<L> CallStack<L> {
    /// No call.
    pub fn default() -> (r: Self)
        ensures
            r@ == Seq::<CallFrame<L>>::empty(),
    {
        CallStack { stack: Vec::new() }
    }

    /// The number of calls under way.
    pub fn len(&self) -> (n: usize)
        ensures
            n == self@.len(),
    {
        self.stack.len()
    }

    /// Enters a call. Calls that nest too deep are an error, and the stack
    /// stays as it is.
    pub fn push(&mut self, function: Value, location: Option<L>) -> (r: Result<(), ControlError>)
        ensures
            old(self)@.len() >= MAX_CALLSTACK_RECURSION ==> r is Err && final(self)@ == old(self)@,
            old(self)@.len() < MAX_CALLSTACK_RECURSION ==> r is Ok && final(self)@ == old(self)@.push(
                CallFrame { function, location },
            ),
    {
        if self.stack.len() >= MAX_CALLSTACK_RECURSION {
            return Err(ControlError::TooManyRecursionLevel);
        }
        self.stack.push(CallFrame { function, location });
        Ok(())
    }

    /// Leaves the innermost call, if there is one.
    pub fn pop(&mut self)
        ensures
            final(self)@ == (if old(self)@.len() > 0 {
                old(self)@.drop_last()
            } else {
                old(self)@
            }),
    {
        let _ = self.stack.pop();
    }

    /// Moves the functions of the calls under way after a collection of
    /// the heap. The locations stay.
    pub fn relocate(&mut self, reached: &Reached)
        requires
            numbered(reached.order(), reached.forward()),
            reached.forward().len() <= HEAP_LIMIT,
        ensures
            final(self)@.len() == old(self)@.len(),
            forall|i: int|
                0 <= i < old(self)@.len() ==> (#[trigger] final(self)@[i]).function == moved(
                    reached.forward(),
                    old(self)@[i].function,
                ) && final(self)@[i].location == old(self)@[i].location,
    {
        let n = self.stack.len();
        let mut i: usize = 0;
        while i < n
            invariant
                numbered(reached.order(), reached.forward()),
                reached.forward().len() <= HEAP_LIMIT,
                n == self.stack@.len(),
                n == old(self).stack@.len(),
                i <= n,
                forall|j: int|
                    0 <= j < i ==> (#[trigger] self.stack@[j]).function == moved(
                        reached.forward(),
                        old(self).stack@[j].function,
                    ) && self.stack@[j].location == old(self).stack@[j].location,
                forall|j: int| i <= j < n ==> self.stack@[j] == old(self).stack@[j],
            decreases n - i,
        {
            let function = reached.relocate(self.stack[i].function);
            self.stack[i].function = function;
            i += 1;
        }
    }

    /// The functions of the calls under way, added to `roots`.
    pub fn walk(&self, roots: &mut Vec<Value>)
        ensures
            final(roots)@ == old(roots)@ + Seq::new(self@.len(), |i: int| self@[i].function),
    {
        let n = self.stack.len();
        let mut i: usize = 0;
        while i < n
            invariant
                n == self@.len(),
                i <= n,
                roots@ == old(roots)@ + Seq::new(i as nat, |j: int| self@[j].function),
            decreases n - i,
        {
            roots.push(self.stack[i].function);
            i += 1;
            assert(roots@ =~= old(roots)@ + Seq::new(i as nat, |j: int| self@[j].function));
        }
    }
}

/// A part of what an evaluation holds.
pub enum Part {
    /// The module being evaluated.
    Module,
    /// The variables of the function being evaluated.
    Locals,
    /// Whether collection of the heap is switched off.
    GcFlag,
    /// Whether the evaluation is profiled.
    Profiling,
    /// The heap.
    Heap,
}

/// Everything an evaluation holds. `C` is the host's map of the source
/// code and `L` its locations in the source; both are kept for
/// diagnostics and never looked into.
pub struct EvaluationContext<C, L> {
    /// At the top level of the module? True until a function is called.
    pub(crate) is_module_scope: bool,
    /// The module that is being evaluated.
    pub(crate) module_env: Module,
    /// The variables of the module in scope: none at the top level of the
    /// module being evaluated, whose own variables are used then; those of
    /// a frozen module inside a function that was loaded from it.
    pub(crate) module_variables: Option<FrozenModule>,
    /// The variables of the function being evaluated.
    pub(crate) local_variables: LocalSlots,
    /// The variables of the functions that called it, the innermost last.
    /// They are kept so that every value in use can be found.
    pub(crate) local_variables_stack: Vec<LocalSlots>,
    /// The names that every module can use.
    pub(crate) globals: Globals,
    /// The calls under way.
    pub(crate) call_stack: CallStack<L>,
    /// The map of the source code of the current module.
    pub(crate) codemap: C,
    /// Is the evaluation being profiled?
    pub(crate) profiling: bool,
    /// Has collection of the heap been switched off?
    pub(crate) disable_gc: bool,
    /// The size of the heap when it was last collected.
    pub(crate) last_heap_size: usize,
    /// The heap where values are made.
    pub(crate) heap: Heap,
    /// Are types checked while the program runs?
    pub(crate) check_types: bool,
    /// The frames of the calls under way, the innermost last: the
    /// evaluator's scratch stack.
    pub(crate) frames: Vec<BcFrame>,
    /// The frame of the call being evaluated.
    pub(crate) current_frame: BcFramePtr,
}

impl<C, L> EvaluationContext<C, L> {
    /// At the top level of the module?
    pub closed spec fn is_module_scope(&self) -> bool {
        self.is_module_scope
    }

    /// The module that is being evaluated.
    pub closed spec fn module_env(&self) -> Module {
        self.module_env
    }

    /// The frozen module whose variables are in scope, if any.
    pub closed spec fn module_variables(&self) -> Option<FrozenModule> {
        self.module_variables
    }

    /// The variables of the function being evaluated.
    pub closed spec fn local_variables(&self) -> LocalSlots {
        self.local_variables
    }

    /// The variables of the functions that called it, the innermost last.
    pub closed spec fn local_variables_stack(&self) -> Seq<LocalSlots> {
        self.local_variables_stack@
    }

    /// The calls under way.
    pub closed spec fn call_stack_view(&self) -> Seq<CallFrame<L>> {
        self.call_stack@
    }

    /// The map of the source code of the current module.
    pub closed spec fn codemap(&self) -> C {
        self.codemap
    }

    /// Has collection of the heap been switched off?
    pub closed spec fn gc_disabled(&self) -> bool {
        self.disable_gc
    }

    /// The objects of the heap.
    pub closed spec fn heap_view(&self) -> Seq<crate::values::heap::ObjectView> {
        self.heap@
    }

    /// What profiling recorded of the calls.
    pub open spec fn heap_profile(&self) -> Seq<CallEvent> {
        self.spec_heap().profile()
    }

    /// The frames of the calls under way, the innermost last.
    pub closed spec fn frames(&self) -> Seq<BcFrame> {
        self.frames@
    }

    /// The frame of the call being evaluated.
    pub closed spec fn current_frame(&self) -> BcFramePtr {
        self.current_frame
    }

    /// Everything but the part `part` is as it is in `other`.
    pub closed spec fn same_but(&self, other: &Self, part: Part) -> bool {
        &&& part is Module || self.module_env == other.module_env
        &&& part is Locals || self.local_variables == other.local_variables
        &&& part is GcFlag || self.disable_gc == other.disable_gc
        &&& part is Heap || self.heap == other.heap
        &&& self.is_module_scope == other.is_module_scope
        &&& self.module_variables == other.module_variables
        &&& self.local_variables_stack == other.local_variables_stack
        &&& self.globals == other.globals
        &&& self.call_stack == other.call_stack
        &&& self.codemap == other.codemap
        &&& part is Profiling || self.profiling == other.profiling
        &&& self.last_heap_size == other.last_heap_size
        &&& self.check_types == other.check_types
        &&& self.frames == other.frames
        &&& self.current_frame == other.current_frame
    }

    /// What `same_but` says of each part.
    pub proof fn lemma_same_but(&self, other: &Self, part: Part)
        requires
            self.same_but(other, part),
        ensures
            !(part is Module) ==> self.module_env() == other.module_env(),
            !(part is Locals) ==> self.local_variables() == other.local_variables(),
            !(part is GcFlag) ==> self.gc_disabled() == other.gc_disabled(),
            !(part is Heap) ==> self.spec_heap() == other.spec_heap() && self.heap_view()
                == other.heap_view(),
            self.is_module_scope() == other.is_module_scope(),
            self.module_variables() == other.module_variables(),
            self.local_variables_stack() == other.local_variables_stack(),
            self.spec_globals() == other.spec_globals(),
            self.call_stack_view() == other.call_stack_view(),
            self.codemap() == other.codemap(),
            !(part is Profiling) ==> self.is_profiling() == other.is_profiling(),
            self.last_heap_size() == other.last_heap_size(),
            self.checks_types() == other.checks_types(),
            self.frames() == other.frames(),
            self.current_frame() == other.current_frame(),
            (part is Heap && other.wf() && self.spec_heap().wf()) ==> self.wf(),
    {
    }

    /// Every frame is well formed, the current frame is no frame or one of
    /// them, and the module, the names of the host and the heap are well
    /// formed.
    pub closed spec fn wf(&self) -> bool {
        &&& forall|i: int| 0 <= i < self.frames@.len() ==> (#[trigger] self.frames@[i]).wf()
        &&& self.current_frame.null_or_below(self.frames@.len() as int)
        &&& self.heap.wf()
        &&& self.module_env.wf()
        &&& self.globals.wf()
    }

    /// What a well-formed evaluator promises to everyone: every frame is
    /// well formed, and the current frame is no frame or one of them.
    pub proof fn lemma_wf(&self)
        requires
            self.wf(),
        ensures
            forall|i: int| 0 <= i < self.frames().len() ==> (#[trigger] self.frames()[i]).wf(),
            self.current_frame().null_or_below(self.frames().len() as int),
            self.spec_heap().wf(),
            self.module_env().wf(),
            self.spec_globals().wf(),
    {
    }

    /// The state in which an evaluation starts: at the top level of the
    /// module `env`, with no call under way, no frame, and a new heap. The
    /// frozen heap of the module is made to refer to the frozen heap of
    /// `globals`, whose values the module may take.
    pub fn new(env: Module, globals: Globals, codemap: C) -> (r: Self)
        requires
            env.wf(),
            globals.wf(),
        ensures
            r.wf(),
            r.is_module_scope(),
            r.module_env().refers(&env, globals.spec_heap()),
            r.module_env().spec_frozen_heap().refers_to(globals.spec_heap()),
            r.module_variables() is None,
            r.local_variables()@ == Seq::<Option<Value>>::empty(),
            r.local_variables_stack() == Seq::<LocalSlots>::empty(),
            r.call_stack_view() == Seq::<CallFrame<L>>::empty(),
            r.codemap() == codemap,
            !r.gc_disabled(),
            !r.is_profiling(),
            r.checks_types(),
            r.spec_globals() == globals,
            r.last_heap_size() == 0,
            r.heap_view() == Seq::<crate::values::heap::ObjectView>::empty(),
            r.heap_profile() == Seq::<CallEvent>::empty(),
            r.frames() == Seq::<BcFrame>::empty(),
            !r.current_frame().spec_is_initialized(),
    {
        let mut env = env;
        env.add_reference(globals.heap());
        assert(env.spec_frozen_heap().references().last() == globals.spec_heap());
        EvaluationContext {
            call_stack: CallStack::default(),
            is_module_scope: true,
            module_env: env,
            module_variables: None,
            local_variables: LocalSlots::default(),
            local_variables_stack: Vec::new(),
            globals,
            codemap,
            last_heap_size: 0,
            disable_gc: false,
            profiling: false,
            check_types: true,
            heap: Heap::new(),
            frames: Vec::new(),
            current_frame: BcFramePtr::null(),
        }
    }

    /// Switches collection of the heap off, for good. This is for a host
    /// that holds values where a collection does not find them.
    pub fn disable_gc(&mut self)
        requires
            old(self).wf(),
        ensures
            final(self).gc_disabled(),
            final(self).wf(),
            final(self).same_but(old(self), Part::GcFlag),
    {
        self.disable_gc = true;
    }

    /// Switches profiling on: from now on the heap records every call
    /// that is entered and left.
    pub fn enable_profiling(&mut self)
        requires
            old(self).wf(),
        ensures
            final(self).is_profiling(),
            final(self).wf(),
            final(self).same_but(old(self), Part::Profiling),
    {
        self.profiling = true;
    }

    /// Is the evaluation being profiled?
    pub closed spec fn is_profiling(&self) -> bool {
        self.profiling
    }

    /// Are types checked while the program runs?
    pub closed spec fn checks_types(&self) -> bool {
        self.check_types
    }

    /// The names that every module can use.
    pub closed spec fn spec_globals(&self) -> Globals {
        self.globals
    }

    /// Is the evaluation being profiled?
    pub fn profiling(&self) -> (b: bool)
        ensures
            b == self.is_profiling(),
    {
        self.profiling
    }

    /// Are types checked while the program runs?
    pub fn check_types(&self) -> (b: bool)
        ensures
            b == self.checks_types(),
    {
        self.check_types
    }

    /// The names that every module can use.
    pub fn globals(&self) -> (r: &Globals)
        ensures
            *r == self.spec_globals(),
            self.wf() ==> r.wf(),
    {
        &self.globals
    }

    /// At the top level of the module?
    pub fn at_module_scope(&self) -> (b: bool)
        ensures
            b == self.is_module_scope(),
    {
        self.is_module_scope
    }

    /// The module that is being evaluated.
    pub fn module(&self) -> (r: &Module)
        ensures
            *r == self.module_env(),
    {
        &self.module_env
    }

    /// The variables of the function being evaluated.
    pub fn locals(&self) -> (r: &LocalSlots)
        ensures
            *r == self.local_variables(),
    {
        &self.local_variables
    }

    /// The frame of the call being evaluated.
    pub fn frame_ptr(&self) -> (r: BcFramePtr)
        ensures
            r == self.current_frame(),
    {
        self.current_frame
    }

    /// The map of the source code of the current module.
    pub fn code_map(&self) -> (r: &C)
        ensures
            *r == self.codemap(),
    {
        &self.codemap
    }

    /// The calls under way.
    pub fn call_stack(&self) -> (r: &CallStack<L>)
        ensures
            r@ == self.call_stack_view(),
    {
        &self.call_stack
    }

    /// The name of the module whose variables are in scope.
    pub fn current_module_name(&self) -> (r: &str)
        ensures
            r@ == (match self.module_variables() {
                None => self.module_env().spec_name(),
                Some(v) => v.spec_name(),
            }),
    {
        match &self.module_variables {
            None => self.module_env.name(),
            Some(v) => v.name(),
        }
    }

    /// The heap where values are made.
    pub closed spec fn spec_heap(&self) -> Heap {
        self.heap
    }

    /// The heap where values are made, to make values.
    pub fn heap_mut(&mut self) -> (r: &mut Heap)
        ensures
            *r == old(self).spec_heap(),
            r@ == old(self).heap_view(),
            old(self).wf() ==> r.wf(),
            final(self).spec_heap() == *final(r),
            final(self).same_but(old(self), Part::Heap),
    {
        &mut self.heap
    }

    /// The heap where values are made.
    pub fn heap(&self) -> (r: &Heap)
        ensures
            r@ == self.heap_view(),
            self.wf() ==> r.wf(),
    {
        &self.heap
    }

    /// The variable in `slot` of the module in scope. `name` is its name,
    /// for the error that it has not been assigned yet.
    pub fn get_slot_module(&self, slot: usize, name: &str) -> (r: Result<Value, EnvironmentError>)
        ensures
            ({
                let found = match self.module_variables() {
                    None => if slot < self.module_env().slots().len() {
                        self.module_env().slots()[slot as int]
                    } else {
                        None
                    },
                    Some(e) => if slot < e.slots().len() {
                        match e.slots()[slot as int] {
                            Some(f) => Some(f.spec_to_value()),
                            None => None,
                        }
                    } else {
                        None
                    },
                };
                match found {
                    Some(v) => r == Ok::<Value, EnvironmentError>(v),
                    None => r matches Err(e) && e@
                        == EnvironmentErrorView::LocalVariableReferencedBeforeAssignment(name@),
                }
            }),
    {
        let found = match &self.module_variables {
            None => self.module_env.get_slot(slot),
            Some(e) => match e.get_slot(slot) {
                Some(f) => Some(f.to_value()),
                None => None,
            },
        };
        match found {
            Some(v) => Ok(v),
            None => Err(EnvironmentError::LocalVariableReferencedBeforeAssignment(name.to_owned())),
        }
    }

    /// The local variable in `slot`. `name` is its name, for the error
    /// that it has not been assigned yet.
    pub fn get_slot_local(&self, slot: usize, name: &str) -> (r: Result<Value, EnvironmentError>)
        requires
            slot < self.local_variables()@.len(),
        ensures
            match self.local_variables()@[slot as int] {
                Some(v) => r == Ok::<Value, EnvironmentError>(v),
                None => r matches Err(e) && e@
                    == EnvironmentErrorView::LocalVariableReferencedBeforeAssignment(name@),
            },
    {
        match self.local_variables.get_slot(slot) {
            Some(v) => Ok(v),
            None => Err(EnvironmentError::LocalVariableReferencedBeforeAssignment(name.to_owned())),
        }
    }

    /// Assigns a variable of the module, by name. This is allowed at the
    /// top level of the module only.
    pub fn set_module_variable_at_some_point(&mut self, name: &str, value: Value) -> (r: Result<
        (),
        EnvironmentError,
    >)
        requires
            old(self).wf(),
        ensures
            final(self).wf(),
            final(self).same_but(old(self), Part::Module),
            old(self).is_module_scope() ==> {
                &&& r is Ok
                &&& final(self).module_env().is_set(&old(self).module_env(), name@, value)
                &&& final(self).module_env().value_of(name@) == Some(value)
            },
            !old(self).is_module_scope() ==> {
                &&& r matches Err(e) && e@ == EnvironmentErrorView::CannotSetVariable(name@)
                &&& final(self).module_env() == old(self).module_env()
            },
    {
        if self.is_module_scope {
            self.module_env.set(name, value);
            let _ = self.module_env.slots.len();
            proof {
                Self::lemma_value_set(old(self).module_env, self.module_env, name@, value);
            }
            Ok(())
        } else {
            Err(EnvironmentError::CannotSetVariable(name.to_owned()))
        }
    }

    /// A variable that has been assigned has the value assigned.
    proof fn lemma_value_set(before: Module, after: Module, name: Seq<char>, value: Value)
        requires
            before.wf(),
            after.wf(),
            lookup(before.names(), name) is None ==> before.slots().len() < usize::MAX,
            match lookup(before.names(), name) {
                Some(slot) => {
                    &&& after.names() == before.names()
                    &&& after.slots() == before.slots().update(slot as int, Some(value))
                },
                None => {
                    &&& after.names() == before.names().push((name, before.slots().len() as usize))
                    &&& after.slots() == before.slots().push(Some(value))
                },
            },
        ensures
            after.value_of(name) == Some(value),
    {
        crate::collections::vec_map::lemma_index_of_key_some(before.names(), name);
        match lookup(before.names(), name) {
            Some(slot) => {
                let j = crate::collections::vec_map::index_of_key(before.names(), name)->Some_0;
                assert(before.names@[j].1 < before.slots@.len());
            },
            None => {
                after.names.lemma_wf();
                crate::collections::vec_map::lemma_index_of_key_is(
                    after.names(),
                    name,
                    before.names().len() as int,
                );
            },
        }
    }

    /// Assigns the variable in `slot` of the module being evaluated. This
    /// is done at the top level of the module only.
    pub fn set_slot_module(&mut self, slot: usize, value: Value)
        requires
            old(self).wf(),
            old(self).is_module_scope(),
            slot < old(self).module_env().slots().len(),
        ensures
            final(self).wf(),
            final(self).module_env().slots() == old(self).module_env().slots().update(
                slot as int,
                Some(value),
            ),
            final(self).module_env().names() == old(self).module_env().names(),
            final(self).module_env().spec_name() == old(self).module_env().spec_name(),
            final(self).module_env().spec_frozen_heap() == old(
                self,
            ).module_env().spec_frozen_heap(),
            final(self).same_but(old(self), Part::Module),
    {
        self.module_env.set_slot(slot, value);
    }

    /// Assigns the local variable in `slot`.
    pub fn set_slot_local(&mut self, slot: usize, value: Value)
        requires
            old(self).wf(),
            slot < old(self).local_variables()@.len(),
        ensures
            final(self).local_variables()@ == old(self).local_variables()@.update(
                slot as int,
                Some(value),
            ),
            final(self).wf(),
            final(self).same_but(old(self), Part::Locals),
    {
        self.local_variables.set_slot(slot, value);
    }

    /// The frozen heap of the module being evaluated. It refers to the
    /// frozen heaps that the values of the module may point into.
    pub fn frozen_heap(&self) -> (r: &FrozenHeap)
        ensures
            *r == self.module_env().spec_frozen_heap(),
    {
        self.module_env.frozen_heap()
    }

    /// Makes the frozen heap of the module being evaluated refer to
    /// `heap`. Nothing else changes.
    pub fn add_reference(&mut self, heap: &FrozenHeapRef)
        requires
            old(self).wf(),
        ensures
            final(self).wf(),
            final(self).module_env().refers(&old(self).module_env(), heap.heap()),
            final(self).same_but(old(self), Part::Module),
    {
        self.module_env.add_reference(heap);
    }

    /// The module being evaluated, for a caller that is at its top level.
    pub fn assert_module_env(&self) -> (r: &Module)
        requires
            self.is_module_scope(),
        ensures
            *r == self.module_env(),
    {
        &self.module_env
    }

    /// The values that a collection of the heap starts from: the variables
    /// of the module, then those of the functions under way from the
    /// outermost in, then the functions being called.
    pub fn walk(&self) -> (roots: Vec<Value>)
        ensures
            roots@ == self.roots(),
    {
        let mut roots: Vec<Value> = Vec::new();
        self.module_env.walk(&mut roots);
        let n = self.local_variables_stack.len();
        let mut i: usize = 0;
        while i < n
            invariant
                n == self.local_variables_stack@.len(),
                i <= n,
                roots@ == crate::eval::frame::assigned(self.module_env.slots()) + stacked_roots(
                    self.local_variables_stack@,
                    i as nat,
                ),
            decreases n - i,
        {
            self.local_variables_stack[i].walk(&mut roots);
            i += 1;
            assert(roots@ =~= crate::eval::frame::assigned(self.module_env.slots()) + stacked_roots(
                self.local_variables_stack@,
                i as nat,
            ));
        }
        self.local_variables.walk(&mut roots);
        self.call_stack.walk(&mut roots);
        assert(roots@ =~= self.roots());
        roots
    }

    /// The values that a collection of the heap starts from.
    pub open spec fn roots(&self) -> Seq<Value> {
        crate::eval::frame::assigned(self.module_env().slots()) + stacked_roots(
            self.local_variables_stack(),
            self.local_variables_stack().len(),
        ) + crate::eval::frame::assigned(self.local_variables()@) + called(self.call_stack_view())
    }
}

/// The functions of the calls under way, from the outermost in.
pub open spec fn called<L>(calls: Seq<CallFrame<L>>) -> Seq<Value> {
    Seq::new(calls.len(), |i: int| calls[i].function)
}

/// The assigned variables of the first `n` of `stack`, one after the
/// other.
pub open spec fn stacked_roots(stack: Seq<LocalSlots>, n: nat) -> Seq<Value>
    decreases n,
{
    if n == 0 {
        Seq::empty()
    } else {
        stacked_roots(stack, (n - 1) as nat) + crate::eval::frame::assigned(stack[n - 1]@)
    }
}

impl<C, L> EvaluationContext<C, L> {
    /// Allocates a frame with `local_count` empty locals and an empty
    /// stack of `max_stack_size` slots on top of the scratch stack, and
    /// returns a pointer to it. The current frame stays.
    pub fn push_frame(&mut self, local_count: u32, max_stack_size: u32) -> (frame: BcFramePtr)
        requires
            old(self).wf(),
        ensures
            final(self).wf(),
            final(self).frames().len() == old(self).frames().len() + 1,
            final(self).frames().drop_last() == old(self).frames(),
            final(self).frames().last().locals_view() == Seq::new(
                local_count as nat,
                |i: int| None::<crate::values::value::Value>,
            ),
            final(self).frames().last().stack_capacity() == max_stack_size,
            final(self).frames().last().stack_is_empty(),
            final(self).current_frame() == old(self).current_frame(),
            frame == BcFramePtr::at(old(self).frames().len() as int),
            frame.index() == old(self).frames().len(),
            frame.spec_is_initialized(),
            final(self).same_scope(old(self)),
    {
        let saved = self.frames.len();
        let frame = BcFrame::new(local_count, max_stack_size);
        self.frames.push(frame);
        let _ = self.frames.len();
        assert(self.frames@.drop_last() =~= old(self).frames@);
        BcFramePtr::from_index(saved)
    }

    /// Nothing but the frames differs: the module, the variables in scope,
    /// the calls under way and the heap are those of `other`.
    pub closed spec fn same_scope(&self, other: &Self) -> bool {
        &&& self.is_module_scope == other.is_module_scope
        &&& self.module_env == other.module_env
        &&& self.module_variables == other.module_variables
        &&& self.local_variables == other.local_variables
        &&& self.local_variables_stack == other.local_variables_stack
        &&& self.globals == other.globals
        &&& self.call_stack@ == other.call_stack@
        &&& self.codemap == other.codemap
        &&& self.profiling == other.profiling
        &&& self.disable_gc == other.disable_gc
        &&& self.last_heap_size == other.last_heap_size
        &&& self.heap == other.heap
        &&& self.check_types == other.check_types
    }

    /// What `same_scope` says of each part.
    pub proof fn lemma_same_scope_parts(&self, other: &Self)
        requires
            self.same_scope(other),
        ensures
            self.is_module_scope() == other.is_module_scope(),
            self.module_env() == other.module_env(),
            self.module_variables() == other.module_variables(),
            self.local_variables() == other.local_variables(),
            self.local_variables_stack() == other.local_variables_stack(),
            self.spec_globals() == other.spec_globals(),
            self.call_stack_view() == other.call_stack_view(),
            self.codemap() == other.codemap(),
            self.is_profiling() == other.is_profiling(),
            self.gc_disabled() == other.gc_disabled(),
            self.last_heap_size() == other.last_heap_size(),
            self.spec_heap() == other.spec_heap(),
            self.heap_view() == other.heap_view(),
            self.checks_types() == other.checks_types(),
    {
    }

    /// To differ in nothing but the frames is an equivalence.
    pub proof fn lemma_same_scope(a: &Self, b: &Self, c: &Self)
        ensures
            a.same_scope(a),
            a.same_scope(b) ==> b.same_scope(a),
            a.same_scope(b) && b.same_scope(c) ==> a.same_scope(c),
    {
    }

    /// Releases every frame above the lowest `depth` of the scratch
    /// stack.
    pub fn release_frames(&mut self, depth: usize)
        requires
            old(self).wf(),
            old(self).current_frame().null_or_below(depth as int),
        ensures
            final(self).wf(),
            final(self).current_frame() == old(self).current_frame(),
            final(self).frames() == (if depth <= old(self).frames().len() {
                old(self).frames().subrange(0, depth as int)
            } else {
                old(self).frames()
            }),
            final(self).same_scope(old(self)),
    {
        self.frames.truncate(depth);
    }

    /// The number of frames on the scratch stack.
    pub fn depth(&self) -> (n: usize)
        ensures
            n == self.frames().len(),
    {
        self.frames.len()
    }

    /// Makes `frame` the current frame and returns the one that was.
    pub fn replace_current_frame(&mut self, frame: BcFramePtr) -> (previous: BcFramePtr)
        requires
            old(self).wf(),
            frame.null_or_below(old(self).frames().len() as int),
        ensures
            final(self).wf(),
            previous == old(self).current_frame(),
            final(self).current_frame() == frame,
            final(self).frames() == old(self).frames(),
            final(self).same_scope(old(self)),
    {
        let previous = self.current_frame;
        self.current_frame = frame;
        previous
    }

    /// The frame that `ptr` points to.
    pub fn frame(&self, ptr: BcFramePtr) -> (frame: &BcFrame)
        requires
            self.wf(),
            ptr.valid_in(self),
        ensures
            *frame == self.frames()[ptr.index()],
            frame.wf(),
    {
        &self.frames[ptr.to_index()]
    }

    /// Assigns a local variable of the frame that `ptr` points to.
    pub fn set_frame_slot(&mut self, ptr: BcFramePtr, slot: LocalSlotId, value: Value)
        requires
            old(self).wf(),
            ptr.valid_in(old(self)),
            slot.0 < old(self).frames()[ptr.index()].locals_view().len(),
        ensures
            final(self).wf(),
            final(self).current_frame() == old(self).current_frame(),
            final(self).frames().len() == old(self).frames().len(),
            forall|i: int|
                0 <= i < old(self).frames().len() && i != ptr.index() ==> final(self).frames()[i]
                    == old(self).frames()[i],
            final(self).frames()[ptr.index()].locals_view() == old(self).frames()[ptr.index()].locals_view().update(
                slot.0 as int,
                Some(value),
            ),
            final(self).frames()[ptr.index()].stack_capacity() == old(self).frames()[ptr.index()].stack_capacity(),
            final(self).frames()[ptr.index()].recorded_stack_ptr() == old(self).frames()[ptr.index()].recorded_stack_ptr(),
            final(self).same_scope(old(self)),
    {
        let i = ptr.to_index();
        self.frames[i].set_slot(slot, value);
    }

    /// Records where the top of the operand stack of the frame that `ptr`
    /// points to is.
    pub fn set_frame_stack_ptr(&mut self, ptr: BcFramePtr, stack_ptr: &BcStackPtr)
        requires
            old(self).wf(),
            ptr.valid_in(old(self)),
            old(self).frames()[ptr.index()].stack_bottom() <= stack_ptr.spec_ptr() <= old(
                self,
            ).frames()[ptr.index()].stack_bottom() + old(self).frames()[ptr.index()].stack_capacity(),
        ensures
            final(self).wf(),
            final(self).current_frame() == old(self).current_frame(),
            final(self).frames().len() == old(self).frames().len(),
            forall|i: int|
                0 <= i < old(self).frames().len() && i != ptr.index() ==> final(self).frames()[i]
                    == old(self).frames()[i],
            final(self).frames()[ptr.index()].locals_view() == old(self).frames()[ptr.index()].locals_view(),
            final(self).frames()[ptr.index()].stack_capacity() == old(self).frames()[ptr.index()].stack_capacity(),
            final(self).frames()[ptr.index()].recorded_stack_ptr() == stack_ptr.spec_ptr(),
            final(self).same_scope(old(self)),
    {
        let i = ptr.to_index();
        self.frames[i].set_stack_ptr_if_debug(stack_ptr);
    }
}

impl<C, L> EvaluationContext<C, L> {
    /// The evaluator as a continuation finds it inside a call of
    /// `function` at `location`: as it was, with the call pushed.
    pub closed spec fn in_call(&self, before: &Self, function: Value, location: Option<L>) -> bool {
        &&& self.call_stack@ == before.call_stack@.push(CallFrame { function, location })
        &&& self.is_module_scope == before.is_module_scope
        &&& self.module_env == before.module_env
        &&& self.module_variables == before.module_variables
        &&& self.local_variables == before.local_variables
        &&& self.local_variables_stack == before.local_variables_stack
        &&& self.globals == before.globals
        &&& self.codemap == before.codemap
        &&& self.profiling == before.profiling
        &&& self.disable_gc == before.disable_gc
        &&& self.last_heap_size == before.last_heap_size
        &&& if before.profiling {
            &&& self.heap@ == before.heap@
            &&& self.heap.wf() == before.heap.wf()
            &&& self.heap.profile() == before.heap.profile().push(CallEvent::Enter(function))
        } else {
            self.heap == before.heap
        }
        &&& self.check_types == before.check_types
        &&& self.frames == before.frames
        &&& self.current_frame == before.current_frame
    }

    /// The evaluator after the innermost call of `inner` has been left:
    /// where the evaluation is profiled the heap has recorded it, and
    /// nothing else differs.
    pub closed spec fn call_left(&self, inner: &Self) -> bool {
        &&& self.call_stack@ == (if inner.call_stack@.len() > 0 {
            inner.call_stack@.drop_last()
        } else {
            inner.call_stack@
        })
        &&& self.is_module_scope == inner.is_module_scope
        &&& self.module_env == inner.module_env
        &&& self.module_variables == inner.module_variables
        &&& self.local_variables == inner.local_variables
        &&& self.local_variables_stack == inner.local_variables_stack
        &&& self.globals == inner.globals
        &&& self.codemap == inner.codemap
        &&& self.profiling == inner.profiling
        &&& self.disable_gc == inner.disable_gc
        &&& self.last_heap_size == inner.last_heap_size
        &&& if inner.profiling {
            &&& self.heap@ == inner.heap@
            &&& self.heap.wf() == inner.heap.wf()
            &&& self.heap.profile() == inner.heap.profile().push(CallEvent::Exit)
        } else {
            self.heap == inner.heap
        }
        &&& self.check_types == inner.check_types
        &&& self.frames == inner.frames
        &&& self.current_frame == inner.current_frame
    }

    /// What `in_call` and `call_left` say of the calls under way, and of
    /// what the heap records of them.
    pub proof fn lemma_call(&self, other: &Self, function: Value, location: Option<L>)
        ensures
            self.in_call(other, function, location) ==> self.call_stack_view()
                == other.call_stack_view().push(CallFrame { function, location }) && self.wf()
                == other.wf(),
            self.call_left(other) ==> self.call_stack_view() == (if other.call_stack_view().len()
                > 0 {
                other.call_stack_view().drop_last()
            } else {
                other.call_stack_view()
            }) && self.wf() == other.wf(),
            self.in_call(other, function, location) ==> self.heap_profile() == (
            if other.is_profiling() {
                other.heap_profile().push(CallEvent::Enter(function))
            } else {
                other.heap_profile()
            }),
            self.call_left(other) ==> self.heap_profile() == (if other.is_profiling() {
                other.heap_profile().push(CallEvent::Exit)
            } else {
                other.heap_profile()
            }),
            self.in_call(other, function, location) || self.call_left(other) ==> {
                &&& self.is_module_scope() == other.is_module_scope()
                &&& self.module_env() == other.module_env()
                &&& self.module_variables() == other.module_variables()
                &&& self.local_variables() == other.local_variables()
                &&& self.local_variables_stack() == other.local_variables_stack()
                &&& self.spec_globals() == other.spec_globals()
                &&& self.codemap() == other.codemap()
                &&& self.is_profiling() == other.is_profiling()
                &&& self.gc_disabled() == other.gc_disabled()
                &&& self.last_heap_size() == other.last_heap_size()
                &&& self.heap_view() == other.heap_view()
                &&& self.spec_heap().wf() == other.spec_heap().wf()
                &&& !other.is_profiling() ==> self.spec_heap() == other.spec_heap()
                &&& self.checks_types() == other.checks_types()
                &&& self.frames() == other.frames()
                &&& self.current_frame() == other.current_frame()
            },
    {
        if self.in_call(other, function, location) || self.call_left(other) {
            assert(self.frames@ == other.frames@);
        }
    }

    /// Runs `within` inside a call of `function` at `location`: the call
    /// is on the call stack while `within` runs, and is taken off when it
    /// is done, whatever it returns. Where the evaluation is profiled, the
    /// heap records that the function is entered, and that it is left.
    /// Calls that nest too deep are an error: `within` is not run and
    /// nothing changes.
    pub fn with_call_stack<R, F: FnOnce(&mut Self) -> R>(
        &mut self,
        function: Value,
        location: Option<L>,
        within: F,
    ) -> (r: Result<R, ControlError>)
        requires
            forall|e: &mut Self| e.in_call(old(self), function, location) ==> #[trigger] within.requires((e,)),
        ensures
            old(self).call_stack_view().len() >= MAX_CALLSTACK_RECURSION ==> {
                &&& r is Err
                &&& final(self).call_stack_view() == old(self).call_stack_view()
                &&& final(self).same_scope(old(self))
                &&& final(self).frames() == old(self).frames()
                &&& final(self).current_frame() == old(self).current_frame()
            },
            old(self).call_stack_view().len() < MAX_CALLSTACK_RECURSION ==> r is Ok,
            r is Ok ==> (exists|e: &mut Self, x: R|
                {
                    &&& r == Ok::<R, ControlError>(x)
                    &&& e.in_call(old(self), function, location)
                    &&& #[trigger] within.ensures((e,), x)
                    &&& final(self).call_left(final(e))
                }),
    {
        match self.call_stack.push(function, location) {
            Ok(()) => {},
            Err(e) => {
                return Err(e);
            },
        }
        if self.profiling {
            self.heap.record_call_enter(function);
        }
        // Whatever `within` returns, the call is taken off again.
        assert(self.in_call(old(self), function, location));
        let res = within(self);
        let ghost inner = *self;
        self.call_stack.pop();
        if self.profiling {
            self.heap.record_call_exit();
        }
        assert(self.call_left(&inner));
        Ok(res)
    }

    /// The evaluator as a continuation finds it inside a function: no
    /// longer at the top level of the module, with the module, the
    /// variables and the code map of the function in place, and the
    /// variables of the caller on top of the stack of variables.
    pub closed spec fn in_function(
        &self,
        before: &Self,
        module: Option<FrozenModule>,
        locals: LocalSlots,
        codemap: C,
    ) -> bool {
        &&& !self.is_module_scope
        &&& self.codemap == codemap
        &&& self.module_variables == module
        &&& self.local_variables == locals
        &&& self.local_variables_stack@ == before.local_variables_stack@.push(before.local_variables)
        &&& self.call_stack == before.call_stack
        &&& self.module_env == before.module_env
        &&& self.globals == before.globals
        &&& self.profiling == before.profiling
        &&& self.disable_gc == before.disable_gc
        &&& self.last_heap_size == before.last_heap_size
        &&& self.heap == before.heap
        &&& self.check_types == before.check_types
        &&& self.frames == before.frames
        &&& self.current_frame == before.current_frame
    }

    /// The evaluator after the function of `inner` has been left, for a
    /// caller that was in the state `before`: the scope, the module and
    /// the code map are those of the caller again, and the variables are
    /// those on top of the stack of variables, which are taken off it.
    pub closed spec fn function_left(&self, inner: &Self, before: &Self) -> bool {
        &&& self.is_module_scope == before.is_module_scope
        &&& self.codemap == before.codemap
        &&& self.module_variables == before.module_variables
        &&& inner.local_variables_stack@.len() > 0
        &&& self.local_variables == inner.local_variables_stack@.last()
        &&& self.local_variables_stack@ == inner.local_variables_stack@.drop_last()
        &&& self.call_stack == inner.call_stack
        &&& self.module_env == inner.module_env
        &&& self.globals == inner.globals
        &&& self.profiling == inner.profiling
        &&& self.disable_gc == inner.disable_gc
        &&& self.last_heap_size == inner.last_heap_size
        &&& self.heap == inner.heap
        &&& self.check_types == inner.check_types
        &&& self.frames == inner.frames
        &&& self.current_frame == inner.current_frame
    }

    /// What `in_function` and `function_left` say of the scope and of the
    /// variables.
    pub proof fn lemma_function(
        &self,
        inner: &Self,
        before: &Self,
        module: Option<FrozenModule>,
        locals: LocalSlots,
        codemap: C,
    )
        ensures
            inner.in_function(before, module, locals, codemap) ==> {
                &&& !inner.is_module_scope()
                &&& inner.codemap() == codemap
                &&& inner.module_variables() == module
                &&& inner.local_variables() == locals
                &&& inner.local_variables_stack() == before.local_variables_stack().push(
                    before.local_variables(),
                )
                &&& inner.module_env() == before.module_env()
                &&& inner.heap_view() == before.heap_view()
                &&& inner.wf() == before.wf()
                &&& inner.call_stack_view() == before.call_stack_view()
                &&& inner.spec_globals() == before.spec_globals()
                &&& inner.is_profiling() == before.is_profiling()
                &&& inner.gc_disabled() == before.gc_disabled()
                &&& inner.last_heap_size() == before.last_heap_size()
                &&& inner.spec_heap() == before.spec_heap()
                &&& inner.checks_types() == before.checks_types()
                &&& inner.frames() == before.frames()
                &&& inner.current_frame() == before.current_frame()
            },
            self.function_left(inner, before) ==> {
                &&& self.is_module_scope() == before.is_module_scope()
                &&& self.codemap() == before.codemap()
                &&& self.module_variables() == before.module_variables()
                &&& inner.local_variables_stack().len() > 0
                &&& self.local_variables() == inner.local_variables_stack().last()
                &&& self.local_variables_stack() == inner.local_variables_stack().drop_last()
                &&& self.module_env() == inner.module_env()
                &&& self.heap_view() == inner.heap_view()
                &&& self.wf() == inner.wf()
                &&& self.call_stack_view() == inner.call_stack_view()
                &&& self.spec_globals() == inner.spec_globals()
                &&& self.is_profiling() == inner.is_profiling()
                &&& self.gc_disabled() == inner.gc_disabled()
                &&& self.last_heap_size() == inner.last_heap_size()
                &&& self.spec_heap() == inner.spec_heap()
                &&& self.checks_types() == inner.checks_types()
                &&& self.frames() == inner.frames()
                &&& self.current_frame() == inner.current_frame()
            },
    {
        if inner.in_function(before, module, locals, codemap) {
            assert(inner.frames@ == before.frames@);
        }
        if self.function_left(inner, before) {
            assert(self.frames@ == inner.frames@);
        }
    }

    /// Runs `within` inside a function with the variables `locals`, of the
    /// frozen module `module` if it comes from one, whose source the code
    /// map `codemap` belongs to. When `within` is done, whatever it
    /// returns, the scope, the module and the code map of the caller are
    /// in place again.
    pub fn with_function_context<R, F: FnOnce(&mut Self) -> R>(
        &mut self,
        module: Option<FrozenModule>,
        locals: LocalSlots,
        codemap: C,
        within: F,
    ) -> (r: R)
        requires
            forall|e: &mut Self|
                e.in_function(old(self), module, locals, codemap) ==> #[trigger] within.requires((e,)),
            forall|e: &mut Self, x: R|
                e.in_function(old(self), module, locals, codemap) && #[trigger] within.ensures(
                    (e,),
                    x,
                ) ==> final(e).local_variables_stack().len() > 0,
        ensures
            final(self).is_module_scope() == old(self).is_module_scope(),
            final(self).codemap() == old(self).codemap(),
            final(self).module_variables() == old(self).module_variables(),
            exists|e: &mut Self|
                {
                    &&& e.in_function(old(self), module, locals, codemap)
                    &&& #[trigger] within.ensures((e,), r)
                    &&& final(self).function_left(final(e), old(self))
                },
    {
        // Keep what is about to change.
        let old_is_module_scope = self.is_module_scope;
        let mut old_codemap = codemap;
        std::mem::swap(&mut self.codemap, &mut old_codemap);

        // Set up for the function.
        let mut old_module_variables = module;
        std::mem::swap(&mut self.module_variables, &mut old_module_variables);
        self.is_module_scope = false;
        let mut caller_variables = locals;
        std::mem::swap(&mut self.local_variables, &mut caller_variables);
        self.local_variables_stack.push(caller_variables);

        // Run the computation.
        let res = within(self);

        // Put everything back.
        self.codemap = old_codemap;
        self.module_variables = old_module_variables;
        match self.local_variables_stack.pop() {
            Some(variables) => {
                self.local_variables = variables;
            },
            None => {},
        }
        self.is_module_scope = old_is_module_scope;
        res
    }
}

impl<C, L> EvaluationContext<C, L> {
    /// The values that a collection of the heap starts from: those of
    /// `roots`, behind them the locals of every frame from the outermost
    /// in, and behind those the functions that profiling recorded.
    pub open spec fn all_roots(&self) -> Seq<Value> {
        self.roots() + framed_roots(self.frames(), self.frames().len()) + entered_functions(
            self.heap_profile(),
        )
    }

    /// Is the operand stack of every frame empty? Only then can the heap
    /// be collected: the operand stack is not traced.
    pub open spec fn stacks_are_empty(&self) -> bool {
        forall|i: int| 0 <= i < self.frames().len() ==> (#[trigger] self.frames()[i]).stack_is_empty()
    }

    /// Is the operand stack of every frame empty?
    pub fn all_stacks_empty(&self) -> (b: bool)
        ensures
            b == self.stacks_are_empty(),
    {
        let n = self.frames.len();
        let mut i: usize = 0;
        while i < n
            invariant
                n == self.frames@.len(),
                i <= n,
                forall|j: int| 0 <= j < i ==> (#[trigger] self.frames@[j]).stack_is_empty(),
            decreases n - i,
        {
            if !self.frames[i].has_empty_stack() {
                assert(!self.frames()[i as int].stack_is_empty());
                return false;
            }
            i += 1;
        }
        true
    }

    /// Collects the heap: finds the objects in use from the variables of
    /// the module, the variables of the functions under way, the functions
    /// being called, the locals of the frames and the functions that
    /// profiling recorded; keeps a copy of each and drops the others; and
    /// moves every value that the evaluator holds.
    ///
    /// The heap is collected only when this is called, and only where the
    /// operand stack of every frame is empty.
    pub fn garbage_collect(&mut self) -> (reached: Reached)
        requires
            old(self).wf(),
            old(self).stacks_are_empty(),
        ensures
            final(self).wf(),
            final(self).stacks_are_empty(),
            reached.traces(old(self).heap_view(), old(self).all_roots()),
            final(self).heap_view() == collected(
                old(self).heap_view(),
                reached.order(),
                reached.forward(),
            ),
            final(self).heap_profile() == moved_events(reached.forward(), old(self).heap_profile()),
            final(self).module_env().slots() == moved_slots(
                reached.forward(),
                old(self).module_env().slots(),
            ),
            final(self).module_env().names() == old(self).module_env().names(),
            final(self).module_env().spec_name() == old(self).module_env().spec_name(),
            final(self).module_env().spec_frozen_heap() == old(
                self,
            ).module_env().spec_frozen_heap(),
            final(self).local_variables()@ == moved_slots(
                reached.forward(),
                old(self).local_variables()@,
            ),
            final(self).local_variables_stack().len() == old(self).local_variables_stack().len(),
            forall|i: int|
                0 <= i < old(self).local_variables_stack().len() ==> (
                #[trigger] final(self).local_variables_stack()[i])@ == moved_slots(
                    reached.forward(),
                    old(self).local_variables_stack()[i]@,
                ),
            final(self).call_stack_view().len() == old(self).call_stack_view().len(),
            forall|i: int|
                0 <= i < old(self).call_stack_view().len() ==> (
                #[trigger] final(self).call_stack_view()[i]).function == moved(
                    reached.forward(),
                    old(self).call_stack_view()[i].function,
                ) && final(self).call_stack_view()[i].location == old(self).call_stack_view()[i].location,
            final(self).frames().len() == old(self).frames().len(),
            forall|i: int|
                0 <= i < old(self).frames().len() ==> (#[trigger] final(self).frames()[i]).locals_view()
                    == moved_slots(reached.forward(), old(self).frames()[i].locals_view())
                    && final(self).frames()[i].stack_capacity() == old(self).frames()[i].stack_capacity(),
            final(self).current_frame() == old(self).current_frame(),
            final(self).is_module_scope() == old(self).is_module_scope(),
            final(self).module_variables() == old(self).module_variables(),
            final(self).codemap() == old(self).codemap(),
            final(self).gc_disabled() == old(self).gc_disabled(),
            final(self).is_profiling() == old(self).is_profiling(),
            final(self).checks_types() == old(self).checks_types(),
            final(self).spec_globals() == old(self).spec_globals(),
            final(self).last_heap_size() == final(self).heap_view().len(),
            forall|i: int|
                0 <= i < old(self).frames().len() ==> (#[trigger] final(self).frames()[i]).recorded_stack_ptr()
                    == old(self).frames()[i].recorded_stack_ptr(),
    {
        // The roots.
        let mut roots = self.walk();
        walk_frames(&self.frames, &mut roots);
        self.heap.walk_profile(&mut roots);
        // The objects in use, and their copies.
        let reached = self.heap.trace(roots.as_slice());
        proof {
            self.heap.lemma_wf();
        }
        self.heap.collect(&reached);
        // Every value that is held moves with its object.
        self.module_env.relocate(&reached);
        self.local_variables.relocate(&reached);
        relocate_variables(&mut self.local_variables_stack, &reached);
        self.call_stack.relocate(&reached);
        relocate_frames(&mut self.frames, &reached);
        self.last_heap_size = self.heap.allocated();
        reached
    }

    /// Has the heap grown by more than `threshold` objects since it was
    /// last collected, and is it allowed to collect it?
    pub fn should_collect(&self, threshold: usize) -> (b: bool)
        ensures
            b == (!self.gc_disabled() && self.heap_view().len() > self.last_heap_size()
                + threshold),
    {
        let size = self.heap.allocated();
        !self.disable_gc && size > self.last_heap_size && size - self.last_heap_size > threshold
    }

    /// The size of the heap when it was last collected.
    pub closed spec fn last_heap_size(&self) -> usize {
        self.last_heap_size
    }
}

/// Adds to `roots` the locals of every frame, from the outermost in.
fn walk_frames(frames: &Vec<BcFrame>, roots: &mut Vec<Value>)
    requires
        forall|i: int| 0 <= i < frames@.len() ==> (#[trigger] frames@[i]).wf(),
        forall|i: int| 0 <= i < frames@.len() ==> (#[trigger] frames@[i]).stack_is_empty(),
    ensures
        final(roots)@ == old(roots)@ + framed_roots(frames@, frames@.len()),
{
    let n = frames.len();
    let mut i: usize = 0;
    assert(roots@ =~= old(roots)@ + framed_roots(frames@, 0));
    while i < n
        invariant
            forall|i: int| 0 <= i < frames@.len() ==> (#[trigger] frames@[i]).wf(),
            forall|i: int| 0 <= i < frames@.len() ==> (#[trigger] frames@[i]).stack_is_empty(),
            n == frames@.len(),
            i <= n,
            roots@ == old(roots)@ + framed_roots(frames@, i as nat),
        decreases n - i,
    {
        let mut locals = frames[i].trace();
        roots.append(&mut locals);
        i += 1;
        assert(roots@ =~= old(roots)@ + framed_roots(frames@, i as nat));
    }
}

/// Moves the variables of the functions under way after a collection of
/// the heap.
fn relocate_variables(stack: &mut Vec<LocalSlots>, reached: &Reached)
    requires
        numbered(reached.order(), reached.forward()),
        reached.forward().len() <= HEAP_LIMIT,
    ensures
        final(stack)@.len() == old(stack)@.len(),
        forall|i: int|
            0 <= i < old(stack)@.len() ==> (#[trigger] final(stack)@[i])@ == moved_slots(
                reached.forward(),
                old(stack)@[i]@,
            ),
{
    let m = stack.len();
    let mut j: usize = 0;
    while j < m
        invariant
            numbered(reached.order(), reached.forward()),
            reached.forward().len() <= HEAP_LIMIT,
            m == stack@.len(),
            m == old(stack)@.len(),
            j <= m,
            forall|a: int|
                0 <= a < j ==> (#[trigger] stack@[a])@ == moved_slots(
                    reached.forward(),
                    old(stack)@[a]@,
                ),
            forall|a: int| j <= a < m ==> stack@[a] == old(stack)@[a],
        decreases m - j,
    {
        stack[j].relocate(reached);
        j += 1;
    }
}

/// Moves the locals of every frame after a collection of the heap.
fn relocate_frames(frames: &mut Vec<BcFrame>, reached: &Reached)
    requires
        numbered(reached.order(), reached.forward()),
        reached.forward().len() <= HEAP_LIMIT,
        forall|i: int| 0 <= i < old(frames)@.len() ==> (#[trigger] old(frames)@[i]).wf(),
        forall|i: int| 0 <= i < old(frames)@.len() ==> (#[trigger] old(frames)@[i]).stack_is_empty(),
    ensures
        final(frames)@.len() == old(frames)@.len(),
        forall|i: int| 0 <= i < final(frames)@.len() ==> (#[trigger] final(frames)@[i]).wf(),
        forall|i: int|
            0 <= i < final(frames)@.len() ==> (#[trigger] final(frames)@[i]).stack_is_empty(),
        forall|i: int|
            0 <= i < old(frames)@.len() ==> {
                &&& (#[trigger] final(frames)@[i]).locals_view() == moved_slots(
                    reached.forward(),
                    old(frames)@[i].locals_view(),
                )
                &&& final(frames)@[i].stack_capacity() == old(frames)@[i].stack_capacity()
                &&& final(frames)@[i].recorded_stack_ptr() == old(frames)@[i].recorded_stack_ptr()
            },
{
    let n = frames.len();
    let mut k: usize = 0;
    while k < n
        invariant
            numbered(reached.order(), reached.forward()),
            reached.forward().len() <= HEAP_LIMIT,
            n == frames@.len(),
            n == old(frames)@.len(),
            k <= n,
            forall|a: int| 0 <= a < n ==> (#[trigger] frames@[a]).wf(),
            forall|a: int| 0 <= a < n ==> (#[trigger] frames@[a]).stack_is_empty(),
            forall|a: int|
                0 <= a < k ==> (#[trigger] frames@[a]).locals_view() == moved_slots(
                    reached.forward(),
                    old(frames)@[a].locals_view(),
                ) && frames@[a].stack_capacity() == old(frames)@[a].stack_capacity()
                    && frames@[a].recorded_stack_ptr() == old(frames)@[a].recorded_stack_ptr(),
            forall|a: int| k <= a < n ==> frames@[a] == old(frames)@[a],
        decreases n - k,
    {
        proof {
            frames@[k as int].lemma_wf();
        }
        frames[k].relocate(reached);
        proof {
            frames@[k as int].lemma_wf();
        }
        k += 1;
    }
}

/// The assigned locals of the first `n` of `frames`, one after the other.
pub open spec fn framed_roots(frames: Seq<BcFrame>, n: nat) -> Seq<Value>
    decreases n,
{
    if n == 0 {
        Seq::empty()
    } else {
        framed_roots(frames, (n - 1) as nat) + crate::eval::frame::assigned(
            frames[n - 1].locals_view(),
        )
    }
}

} // verus!
