//! Collecting a heap: the objects in use are copied to a new heap, one
//! behind the other in the order in which tracing found them, and the
//! objects that are not in use are dropped.

use vstd::prelude::*;

use crate::collections::small_map::SmallMap;
use crate::collections::vec_map::{distinct_keys, lemma_index_of_key_none};
use crate::values::dict::{Dict, DictKey};
use crate::values::heap::{
    children, heap_word, lemma_heap_word, object_in, place_among, place_in, value_at, CallEvent,
    Heap, Object,
    ObjectView, HEAP_LIMIT,
};
use crate::values::pointer::word_is_str;
use crate::values::trace::{lemma_numbered_len, marked, numbered, Reached};
use crate::values::value::Value;

verus! {

/// The value that stands for `v` once the heap is collected: a value that
/// points to an object in use points to where that object is copied to;
/// every other value is what it was.
pub open spec fn moved(forward: Seq<Option<usize>>, v: Value) -> Value {
    match place_in(forward.len(), v) {
        Some(j) => match forward[j] {
            Some(k) => Value::from_word(heap_word(k as int, word_is_str(v@))),
            None => v,
        },
        None => v,
    }
}

/// The values of `items`, each moved.
pub open spec fn moved_values(forward: Seq<Option<usize>>, items: Seq<Value>) -> Seq<Value> {
    Seq::new(items.len(), |i: int| moved(forward, items[i]))
}

/// What was recorded of a call, with the function moved.
pub open spec fn moved_event(forward: Seq<Option<usize>>, event: CallEvent) -> CallEvent {
    match event {
        CallEvent::Enter(function) => CallEvent::Enter(moved(forward, function)),
        CallEvent::Exit => CallEvent::Exit,
    }
}

/// What was recorded of the calls, with each function moved.
pub open spec fn moved_events(forward: Seq<Option<usize>>, events: Seq<CallEvent>) -> Seq<
    CallEvent,
> {
    Seq::new(events.len(), |i: int| moved_event(forward, events[i]))
}

/// The copy of an object: the same object, with the values that it holds
/// moved.
pub open spec fn moved_object(forward: Seq<Option<usize>>, o: ObjectView) -> ObjectView {
    match o {
        ObjectView::Str(s) => ObjectView::Str(s),
        ObjectView::Tuple(items) => ObjectView::Tuple(moved_values(forward, items)),
        ObjectView::List(items) => ObjectView::List(moved_values(forward, items)),
        ObjectView::Dict(entries) => ObjectView::Dict(
            Seq::new(entries.len(), |i: int| (entries[i].0, moved(forward, entries[i].1))),
        ),
    }
}

/// The objects of the heap once it is collected: the copies of the objects
/// in use, in the order of `order`.
pub open spec fn collected(
    objects: Seq<ObjectView>,
    order: Seq<usize>,
    forward: Seq<Option<usize>>,
) -> Seq<ObjectView> {
    Seq::new(order.len(), |k: int| moved_object(forward, objects[order[k] as int]))
}

/// A value that pointed to an object in use points, once moved, to the
/// copy of that object in the collected heap.
pub proof fn lemma_moved_points_to_copy(
    objects: Seq<ObjectView>,
    order: Seq<usize>,
    forward: Seq<Option<usize>>,
    v: Value,
)
    requires
        numbered(order, forward),
        forward.len() == objects.len(),
        objects.len() <= HEAP_LIMIT,
        order.len() <= usize::MAX,
        marked(forward, v),
        object_in(objects, v) is Some,
    ensures
        object_in(collected(objects, order, forward), moved(forward, v)) == Some(
            moved_object(forward, object_in(objects, v)->Some_0),
        ),
{
    let j = place_in(forward.len(), v)->Some_0;
    let k = forward[j]->Some_0;
    lemma_numbered_len(order, forward);
    assert(k < order.len() && order[k as int] == j);
    lemma_heap_word(k as int, word_is_str(v@));
    Value::lemma_from_word(heap_word(k as int, word_is_str(v@)));
}

/// The collected heap is whole: a value that a copy holds points to the
/// copy of the object that the value pointed to before.
pub proof fn lemma_collected_is_whole(
    reached: Reached,
    objects: Seq<ObjectView>,
    roots: Seq<Value>,
    k: int,
    c: int,
)
    requires
        reached.traces(objects, roots),
        objects.len() <= HEAP_LIMIT,
        reached.order().len() <= usize::MAX,
        0 <= k < reached.order().len(),
        0 <= c < children(objects[reached.order()[k] as int]).len(),
        object_in(objects, children(objects[reached.order()[k] as int])[c]) is Some,
    ensures
        object_in(
            collected(objects, reached.order(), reached.forward()),
            moved(reached.forward(), children(objects[reached.order()[k] as int])[c]),
        ) == Some(
            moved_object(
                reached.forward(),
                object_in(objects, children(objects[reached.order()[k] as int])[c])->Some_0,
            ),
        ),
{
    let child = children(objects[reached.order()[k] as int])[c];
    assert(marked(reached.forward(), child));
    lemma_moved_points_to_copy(objects, reached.order(), reached.forward(), child);
}

/// A value that points to no object of the heap is not moved.
pub proof fn lemma_moved_keeps_others(forward: Seq<Option<usize>>, v: Value)
    requires
        place_in(forward.len(), v) is None,
    ensures
        moved(forward, v) == v,
{
}

impl Reached {
    /// The value that stands for `v` once the heap is collected.
    pub fn relocate(&self, v: Value) -> (r: Value)
        requires
            numbered(self.order(), self.forward()),
            self.forward().len() <= HEAP_LIMIT,
        ensures
            r == moved(self.forward(), v),
    {
        let n = self.heap_len();
        let _ = self.len();
        proof {
            lemma_numbered_len(self.order(), self.forward());
        }
        match place_among(n, v) {
            None => v,
            Some(j) => match self.number_of(j) {
                None => v,
                Some(k) => value_at(k, v.is_str()),
            },
        }
    }

    /// The values of `items`, each moved.
    pub fn relocate_all(&self, items: &[Value]) -> (r: Vec<Value>)
        requires
            numbered(self.order(), self.forward()),
            self.forward().len() <= HEAP_LIMIT,
        ensures
            r@ == moved_values(self.forward(), items@),
    {
        let mut r: Vec<Value> = Vec::with_capacity(items.len());
        let mut i: usize = 0;
        while i < items.len()
            invariant
                numbered(self.order(), self.forward()),
                self.forward().len() <= HEAP_LIMIT,
                i <= items@.len(),
                r@.len() == i,
                forall|j: int| 0 <= j < i ==> r@[j] == moved(self.forward(), items@[j]),
            decreases items@.len() - i,
        {
            r.push(self.relocate(items[i]));
            i += 1;
        }
        assert(r@ =~= moved_values(self.forward(), items@));
        r
    }

    /// What was recorded of the calls, with each function moved.
    pub fn relocate_events(&self, events: &Vec<CallEvent>) -> (r: Vec<CallEvent>)
        requires
            numbered(self.order(), self.forward()),
            self.forward().len() <= HEAP_LIMIT,
        ensures
            r@ == moved_events(self.forward(), events@),
    {
        let mut r: Vec<CallEvent> = Vec::with_capacity(events.len());
        let mut i: usize = 0;
        while i < events.len()
            invariant
                numbered(self.order(), self.forward()),
                self.forward().len() <= HEAP_LIMIT,
                i <= events@.len(),
                r@.len() == i,
                forall|j: int| 0 <= j < i ==> r@[j] == moved_event(self.forward(), events@[j]),
            decreases events@.len() - i,
        {
            let moved_one = match events[i] {
                CallEvent::Enter(function) => CallEvent::Enter(self.relocate(function)),
                CallEvent::Exit => CallEvent::Exit,
            };
            r.push(moved_one);
            i += 1;
        }
        assert(r@ =~= moved_events(self.forward(), events@));
        r
    }

    /// The values in the slots that are assigned, each moved. An empty
    /// slot stays empty.
    pub fn relocate_slots(&self, slots: &mut [Option<Value>])
        requires
            numbered(self.order(), self.forward()),
            self.forward().len() <= HEAP_LIMIT,
        ensures
            final(slots)@ == moved_slots(self.forward(), old(slots)@),
    {
        let n = slots.len();
        let mut i: usize = 0;
        while i < n
            invariant
                numbered(self.order(), self.forward()),
                self.forward().len() <= HEAP_LIMIT,
                n == slots@.len(),
                slots@.len() == old(slots)@.len(),
                i <= n,
                forall|j: int|
                    0 <= j < i ==> slots@[j] == moved_slot(self.forward(), old(slots)@[j]),
                forall|j: int| i <= j < n ==> slots@[j] == old(slots)@[j],
            decreases n - i,
        {
            match slots[i] {
                Some(v) => {
                    slots[i] = Some(self.relocate(v));
                },
                None => {},
            }
            i += 1;
        }
        assert(slots@ =~= moved_slots(self.forward(), old(slots)@));
    }

    /// The copy of an object.
    fn copy_object(&self, object: &Object) -> (copy: Object)
        requires
            numbered(self.order(), self.forward()),
            self.forward().len() <= HEAP_LIMIT,
            object matches Object::Dict(d) ==> d.wf(),
        ensures
            copy@ == moved_object(self.forward(), object@),
            copy matches Object::Dict(d) ==> d.wf(),
    {
        match object {
            Object::Str(s) => Object::Str(s.clone()),
            Object::Tuple(items) => Object::Tuple(self.relocate_all(items.as_slice())),
            Object::List(items) => Object::List(self.relocate_all(items.as_slice())),
            Object::Dict(d) => {
                proof {
                    d.lemma_wf();
                }
                let entries = d.iter_hashed();
                let mut content: SmallMap<DictKey, Value> = SmallMap::new();
                let n = entries.len();
                let mut i: usize = 0;
                while i < n
                    invariant
                        numbered(self.order(), self.forward()),
                        self.forward().len() <= HEAP_LIMIT,
                        n == entries@.len(),
                        n == d@.len(),
                        i <= n,
                        distinct_keys(d@),
                        content.wf(),
                        content@ == Seq::new(
                            i as nat,
                            |j: int| (d@[j].0, moved(self.forward(), d@[j].1)),
                        ),
                        forall|j: int|
                            0 <= j < n ==> {
                                &&& (#[trigger] entries@[j]).0.spec_key()@ == d@[j].0
                                &&& entries@[j].0.wf()
                                &&& entries@[j].1 == d@[j].1
                            },
                    decreases n - i,
                {
                    let e = &entries[i];
                    let key = crate::collections::hash::Hashed::new_unchecked(
                        e.0.hash(),
                        e.0.key().duplicate(),
                    );
                    let value = self.relocate(e.1);
                    proof {
                        let k = d@[i as int].0;
                        assert forall|j: int| 0 <= j < content@.len() implies content@[j].0 != k by {
                            assert(d@[j].0 != d@[i as int].0);
                        }
                        lemma_index_of_key_none(content@, k);
                        assert(content@.push((k, value)) =~= Seq::new(
                            (i + 1) as nat,
                            |j: int| (d@[j].0, moved(self.forward(), d@[j].1)),
                        ));
                    }
                    content.insert_hashed(key, value);
                    i += 1;
                }
                let copy = Dict::new(content);
                assert(copy@ =~= Seq::new(
                    d@.len(),
                    |j: int| (d@[j].0, moved(self.forward(), d@[j].1)),
                ));
                Object::Dict(copy)
            },
        }
    }
}

/// What a slot holds once the heap is collected.
pub open spec fn moved_slot(forward: Seq<Option<usize>>, slot: Option<Value>) -> Option<Value> {
    match slot {
        Some(v) => Some(moved(forward, v)),
        None => None,
    }
}

/// What the slots hold once the heap is collected.
pub open spec fn moved_slots(forward: Seq<Option<usize>>, slots: Seq<Option<Value>>) -> Seq<
    Option<Value>,
> {
    Seq::new(slots.len(), |i: int| moved_slot(forward, slots[i]))
}

impl Heap {
    /// Collects the heap: keeps a copy of every object that `reached` says
    /// is in use, and drops the others. The functions that profiling
    /// recorded are moved. Every other value that is kept must be moved
    /// with `reached` afterwards.
    pub fn collect(&mut self, reached: &Reached)
        requires
            old(self).wf(),
            numbered(reached.order(), reached.forward()),
            reached.forward().len() == old(self)@.len(),
        ensures
            final(self).wf(),
            final(self)@ == collected(old(self)@, reached.order(), reached.forward()),
            final(self)@.len() <= old(self)@.len(),
            final(self).profile() == moved_events(reached.forward(), old(self).profile()),
    {
        let n = reached.len();
        proof {
            self.lemma_wf();
            lemma_numbered_len(reached.order(), reached.forward());
        }
        let mut objects: Vec<Object> = Vec::with_capacity(n);
        let mut k: usize = 0;
        while k < n
            invariant
                self.wf(),
                *self == *old(self),
                numbered(reached.order(), reached.forward()),
                reached.forward().len() == self@.len(),
                self@.len() <= HEAP_LIMIT,
                n == reached.order().len(),
                n <= self@.len(),
                k <= n,
                objects@.len() == k,
                forall|i: int|
                    0 <= i < k ==> (#[trigger] objects@[i])@ == moved_object(
                        reached.forward(),
                        self@[reached.order()[i] as int],
                    ),
                forall|i: int| 0 <= i < k ==> ((#[trigger] objects@[i]) matches Object::Dict(d) ==> d.wf()),
            decreases n - k,
        {
            let place = reached.place(k);
            let copy = reached.copy_object(self.object_at(place));
            objects.push(copy);
            k += 1;
        }
        let ghost before = self@;
        let profile = reached.relocate_events(self.call_events());
        *self = Heap::from_objects(objects, profile);
        assert(self@ =~= collected(before, reached.order(), reached.forward()));
    }
}

} // verus!
