//! The frozen heap: the objects of a module that has been evaluated, kept
//! for the modules that load it. Nothing is added to a frozen heap once it
//! is made, and nothing in it changes.
//!
//! Freezing copies the objects in use out of the heap of the evaluation.
//! A frozen value never points back into a heap that can change: its
//! unfrozen tag is clear.
//!
//! A frozen heap may refer to other frozen heaps, whose objects the values
//! in it may point to: it keeps each of them alive for as long as it
//! lives itself.

use std::sync::Arc;
use vstd::prelude::*;

use crate::collections::hash::Hashed;
use crate::collections::small_map::SmallMap;
use crate::collections::vec_map::{distinct_keys, lemma_index_of_key_none};
use crate::values::dict::{DictKey, DictKeyView};
use crate::values::heap::{place_among, place_in, Heap, Object, ObjectView, HEAP_LIMIT};
use crate::values::pointer::{
    word_is_int, word_is_str, word_is_unfrozen, TAG_BITS, TAG_STR,
};
use crate::values::trace::{lemma_numbered_len, numbered, Reached};
use crate::values::value::{FrozenValue, Value};

verus! {

/// An object in a frozen heap.
pub enum FrozenObject {
    Str(String),
    Tuple(Vec<FrozenValue>),
    List(Vec<FrozenValue>),
    Dict(SmallMap<DictKey, FrozenValue>),
}

/// What a frozen object holds.
pub enum FrozenObjectView {
    Str(Seq<char>),
    Tuple(Seq<FrozenValue>),
    List(Seq<FrozenValue>),
    Dict(Seq<(DictKeyView, FrozenValue)>),
}

impl View for FrozenObject {
    type V = FrozenObjectView;

    open spec fn view(&self) -> FrozenObjectView {
        match self {
            FrozenObject::Str(s) => FrozenObjectView::Str(s@),
            FrozenObject::Tuple(v) => FrozenObjectView::Tuple(v@),
            FrozenObject::List(v) => FrozenObjectView::List(v@),
            FrozenObject::Dict(d) => FrozenObjectView::Dict(d@),
        }
    }
}

/// A frozen heap: its objects, and the frozen heaps that it refers to.
pub struct FrozenHeap {
    objects: Vec<FrozenObject>,
    references: Vec<FrozenHeapRef>,
}

/// A frozen heap that several owners share: it lives as long as one of
/// them does.
pub struct FrozenHeapRef {
    heap: Arc<FrozenHeap>,
}

impl FrozenHeapRef {
    /// The heap that is shared.
    pub closed spec fn heap(&self) -> FrozenHeap {
        *self.heap
    }

    /// Shares `heap`.
    pub fn new(heap: FrozenHeap) -> (r: FrozenHeapRef)
        ensures
            r.heap() == heap,
    {
        FrozenHeapRef { heap: Arc::new(heap) }
    }

    /// The heap that is shared.
    pub fn get(&self) -> (heap: &FrozenHeap)
        ensures
            *heap == self.heap(),
    {
        &*self.heap
    }

    /// One more owner of the same heap.
    pub fn dupe(&self) -> (r: FrozenHeapRef)
        ensures
            r.heap() == self.heap(),
    {
        FrozenHeapRef { heap: self.heap.clone() }
    }
}

impl View for FrozenHeap {
    type V = Seq<FrozenObjectView>;

    /// The objects, in the order in which freezing found them.
    closed spec fn view(&self) -> Seq<FrozenObjectView> {
        Seq::new(self.objects@.len(), |i: int| self.objects@[i]@)
    }
}

/// The place in a frozen heap that a word points to, counted from zero.
/// The first object stands behind the addresses of `None`, `False` and
/// `True`.
pub open spec fn frozen_index(w: u64) -> int {
    (w >> 3) as int - 4
}

/// The word that points to the object at place `place` of a frozen heap.
pub open spec fn frozen_word(place: int, is_string: bool) -> u64 {
    (((place + 4) as u64) << 3) | (if is_string {
        TAG_STR
    } else {
        0
    })
}

/// The place of the object that a frozen value points to in a frozen heap
/// of `len` objects, if it points to one.
pub open spec fn frozen_place_in(len: nat, v: FrozenValue) -> Option<int> {
    if !word_is_int(v@) && !word_is_unfrozen(v@) && 0 <= frozen_index(v@) < len {
        Some(frozen_index(v@))
    } else {
        None
    }
}

/// The frozen value that stands for `v`: a value that points to an object
/// in use points to the frozen copy of that object; a value that is frozen
/// already is itself; no frozen value stands for a value that points into
/// the heap of the evaluation otherwise.
pub open spec fn frozen(forward: Seq<Option<usize>>, v: Value) -> Option<FrozenValue> {
    match place_in(forward.len(), v) {
        Some(j) => match forward[j] {
            Some(k) => Some(FrozenValue::from_word(frozen_word(k as int, word_is_str(v@)))),
            None => None,
        },
        None => if word_is_unfrozen(v@) {
            None
        } else {
            Some(FrozenValue::from_word(v@))
        },
    }
}

/// Every one of the first `n` values has a frozen value that stands for
/// it.
pub open spec fn all_freeze(forward: Seq<Option<usize>>, items: Seq<Value>, n: int) -> bool {
    forall|i: int| 0 <= i < n && i < items.len() ==> (#[trigger] frozen(forward, items[i])) is Some
}

/// The frozen values that stand for `items`.
pub open spec fn frozen_values(forward: Seq<Option<usize>>, items: Seq<Value>) -> Seq<FrozenValue> {
    Seq::new(items.len(), |i: int| frozen(forward, items[i])->Some_0)
}

/// Can the object be frozen: does every value that it holds have a frozen
/// value that stands for it?
pub open spec fn freezes(forward: Seq<Option<usize>>, o: ObjectView) -> bool {
    all_freeze(forward, crate::values::heap::children(o), crate::values::heap::children(o).len() as int)
}

/// The frozen copy of an object that can be frozen.
pub open spec fn frozen_object(forward: Seq<Option<usize>>, o: ObjectView) -> FrozenObjectView {
    match o {
        ObjectView::Str(s) => FrozenObjectView::Str(s),
        ObjectView::Tuple(items) => FrozenObjectView::Tuple(frozen_values(forward, items)),
        ObjectView::List(items) => FrozenObjectView::List(frozen_values(forward, items)),
        ObjectView::Dict(entries) => FrozenObjectView::Dict(
            Seq::new(entries.len(), |i: int| (entries[i].0, frozen(forward, entries[i].1)->Some_0)),
        ),
    }
}

/// The objects of the frozen heap: the frozen copies of the objects in
/// use, in the order of `order`.
pub open spec fn frozen_objects(
    objects: Seq<ObjectView>,
    order: Seq<usize>,
    forward: Seq<Option<usize>>,
) -> Seq<FrozenObjectView> {
    Seq::new(order.len(), |k: int| frozen_object(forward, objects[order[k] as int]))
}

/// The word of a place in a frozen heap points back to that place,
/// carries the string tag as asked, and never the unfrozen tag.
pub proof fn lemma_frozen_word(place: int, is_string: bool)
    requires
        0 <= place < HEAP_LIMIT,
    ensures
        !word_is_int(frozen_word(place, is_string)),
        !word_is_unfrozen(frozen_word(place, is_string)),
        frozen_index(frozen_word(place, is_string)) == place,
        word_is_str(frozen_word(place, is_string)) == is_string,
        ((place + 4) as u64) << 3 & TAG_BITS == 0,
        ((place + 4) as u64) << 3 != 0,
{
    let k = (place + 4) as u64;
    assert(4 <= k <= 0x1000_0000_0000_0002 ==> {
        &&& ((k << 3) | 0u64) >> 3 == k
        &&& ((k << 3) | 4u64) >> 3 == k
        &&& ((k << 3) | 0u64) & 2u64 == 0
        &&& ((k << 3) | 4u64) & 2u64 == 0
        &&& ((k << 3) | 0u64) & 1u64 == 0
        &&& ((k << 3) | 4u64) & 1u64 == 0
        &&& ((k << 3) | 0u64) & 4u64 == 0
        &&& ((k << 3) | 4u64) & 4u64 != 0
        &&& (k << 3) & 7u64 == 0
        &&& (k << 3) != 0
    }) by (bit_vector);
}

/// The frozen value that points to the object at place `place` of a
/// frozen heap, and to a string if `is_string`.
fn frozen_value_at(place: usize, is_string: bool) -> (v: FrozenValue)
    requires
        place < HEAP_LIMIT,
    ensures
        v == FrozenValue::from_word(frozen_word(place as int, is_string)),
        v@ == frozen_word(place as int, is_string),
{
    proof {
        lemma_frozen_word(place as int, is_string);
        FrozenValue::lemma_from_word(frozen_word(place as int, is_string));
    }
    let address = (place as u64 + 4) << 3;
    let v = FrozenValue::new_ptr_usize(address, is_string);
    proof {
        let w = v@;
        assert(address & 7u64 == 0 && w & !7u64 == address && w & 1u64 == 0 && w & 2u64 == 0 ==> (w
            & 4u64 != 0 ==> w == address | 4u64) && (w & 4u64 == 0 ==> w == address | 0u64))
            by (bit_vector);
    }
    v
}

/// The frozen value that stands for a value that points to an object in
/// use points to the frozen copy of that object.
pub proof fn lemma_frozen_points_to_copy(
    objects: Seq<ObjectView>,
    order: Seq<usize>,
    forward: Seq<Option<usize>>,
    v: Value,
)
    requires
        numbered(order, forward),
        forward.len() == objects.len(),
        objects.len() <= HEAP_LIMIT,
        order.len() <= usize::MAX,
        place_in(objects.len(), v) matches Some(j) && forward[j] is Some,
    ensures
        frozen(forward, v) matches Some(f) && frozen_place_in(order.len(), f) == Some(
            forward[place_in(objects.len(), v)->Some_0]->Some_0 as int,
        ) && order[forward[place_in(objects.len(), v)->Some_0]->Some_0 as int] == place_in(
            objects.len(),
            v,
        )->Some_0,
{
    let j = place_in(forward.len(), v)->Some_0;
    let k = forward[j]->Some_0;
    lemma_numbered_len(order, forward);
    lemma_frozen_word(k as int, word_is_str(v@));
    FrozenValue::lemma_from_word(frozen_word(k as int, word_is_str(v@)));
}

impl Reached {
    /// The frozen value that stands for `v`, if there is one.
    pub fn freeze_value(&self, v: Value) -> (r: Option<FrozenValue>)
        requires
            numbered(self.order(), self.forward()),
            self.forward().len() <= HEAP_LIMIT,
        ensures
            r == frozen(self.forward(), v),
    {
        let n = self.heap_len();
        let _ = self.len();
        proof {
            lemma_numbered_len(self.order(), self.forward());
        }
        match place_among(n, v) {
            Some(j) => match self.number_of(j) {
                Some(k) => Some(frozen_value_at(k, v.is_str())),
                None => None,
            },
            None => match v.unpack_frozen() {
                Some(f) => {
                    proof {
                        FrozenValue::lemma_from_word(v@);
                    }
                    Some(f)
                },
                None => None,
            },
        }
    }

    /// The frozen values that stand for `items`, if every one of them has
    /// one.
    pub fn freeze_all(&self, items: &[Value]) -> (r: Option<Vec<FrozenValue>>)
        requires
            numbered(self.order(), self.forward()),
            self.forward().len() <= HEAP_LIMIT,
        ensures
            r is Some == all_freeze(self.forward(), items@, items@.len() as int),
            r matches Some(v) ==> v@ == frozen_values(self.forward(), items@),
    {
        let mut r: Vec<FrozenValue> = Vec::with_capacity(items.len());
        let mut i: usize = 0;
        while i < items.len()
            invariant
                numbered(self.order(), self.forward()),
                self.forward().len() <= HEAP_LIMIT,
                i <= items@.len(),
                r@.len() == i,
                all_freeze(self.forward(), items@, i as int),
                forall|j: int| 0 <= j < i ==> r@[j] == frozen(self.forward(), items@[j])->Some_0,
            decreases items@.len() - i,
        {
            match self.freeze_value(items[i]) {
                Some(f) => r.push(f),
                None => {
                    assert(!(frozen(self.forward(), items@[i as int]) is Some));
                    return None;
                },
            }
            i += 1;
        }
        assert(r@ =~= frozen_values(self.forward(), items@));
        Some(r)
    }

    /// The frozen values that stand for the values in the slots. An empty
    /// slot stays empty.
    pub fn freeze_slots(&self, slots: &[Option<Value>]) -> (r: Option<Vec<Option<FrozenValue>>>)
        requires
            numbered(self.order(), self.forward()),
            self.forward().len() <= HEAP_LIMIT,
        ensures
            r is Some == slots_freeze(self.forward(), slots@, slots@.len() as int),
            r matches Some(v) ==> v@ == frozen_slots(self.forward(), slots@),
    {
        let mut r: Vec<Option<FrozenValue>> = Vec::with_capacity(slots.len());
        let mut i: usize = 0;
        while i < slots.len()
            invariant
                numbered(self.order(), self.forward()),
                self.forward().len() <= HEAP_LIMIT,
                i <= slots@.len(),
                r@.len() == i,
                slots_freeze(self.forward(), slots@, i as int),
                forall|j: int| 0 <= j < i ==> r@[j] == frozen_slot(self.forward(), slots@[j]),
            decreases slots@.len() - i,
        {
            match slots[i] {
                None => r.push(None),
                Some(v) => match self.freeze_value(v) {
                    Some(f) => r.push(Some(f)),
                    None => {
                        assert(!slot_freezes(self.forward(), slots@[i as int]));
                        return None;
                    },
                },
            }
            i += 1;
        }
        assert(r@ =~= frozen_slots(self.forward(), slots@));
        Some(r)
    }

    /// The frozen copy of an object, if every value that it holds has a
    /// frozen value that stands for it.
    fn freeze_object(&self, object: &Object) -> (copy: Option<FrozenObject>)
        requires
            numbered(self.order(), self.forward()),
            self.forward().len() <= HEAP_LIMIT,
            object matches Object::Dict(d) ==> d.wf(),
        ensures
            copy is Some == freezes(self.forward(), object@),
            copy matches Some(c) ==> c@ == frozen_object(self.forward(), object@) && (
            c matches FrozenObject::Dict(d) ==> d.wf()),
    {
        match object {
            Object::Str(s) => Some(FrozenObject::Str(s.clone())),
            Object::Tuple(items) => match self.freeze_all(items.as_slice()) {
                Some(v) => Some(FrozenObject::Tuple(v)),
                None => None,
            },
            Object::List(items) => match self.freeze_all(items.as_slice()) {
                Some(v) => Some(FrozenObject::List(v)),
                None => None,
            },
            Object::Dict(d) => {
                proof {
                    d.lemma_wf();
                }
                let entries = d.iter_hashed();
                let mut content: SmallMap<DictKey, FrozenValue> = SmallMap::new();
                let n = entries.len();
                let mut i: usize = 0;
                let ghost held = crate::values::heap::children(object@);
                while i < n
                    invariant
                        numbered(self.order(), self.forward()),
                        self.forward().len() <= HEAP_LIMIT,
                        n == entries@.len(),
                        n == d@.len(),
                        i <= n,
                        distinct_keys(d@),
                        held == crate::values::heap::children(ObjectView::Dict(d@)),
                        object@ == ObjectView::Dict(d@),
                        all_freeze(self.forward(), held, i as int),
                        content.wf(),
                        content@ == Seq::new(
                            i as nat,
                            |j: int| (d@[j].0, frozen(self.forward(), d@[j].1)->Some_0),
                        ),
                        forall|j: int|
                            0 <= j < n ==> {
                                &&& (#[trigger] entries@[j]).0.spec_key()@ == d@[j].0
                                &&& entries@[j].0.wf()
                                &&& entries@[j].1 == d@[j].1
                            },
                    decreases n - i,
                {
                    let e = &entries[i];
                    assert(held[i as int] == d@[i as int].1);
                    let value = match self.freeze_value(e.1) {
                        Some(f) => f,
                        None => {
                            assert(!(frozen(self.forward(), held[i as int]) is Some));
                            return None;
                        },
                    };
                    let key = Hashed::new_unchecked(e.0.hash(), e.0.key().duplicate());
                    proof {
                        let k = d@[i as int].0;
                        assert forall|j: int| 0 <= j < content@.len() implies content@[j].0 != k by {
                            assert(d@[j].0 != d@[i as int].0);
                        }
                        lemma_index_of_key_none(content@, k);
                        assert(content@.push((k, value)) =~= Seq::new(
                            (i + 1) as nat,
                            |j: int| (d@[j].0, frozen(self.forward(), d@[j].1)->Some_0),
                        ));
                        assert forall|j: int| 0 <= j < i + 1 && j < held.len() implies (
                        #[trigger] frozen(self.forward(), held[j])) is Some by {
                            if j == i {
                            }
                        }
                    }
                    content.insert_hashed(key, value);
                    i += 1;
                }
                assert(content@ =~= Seq::new(
                    d@.len(),
                    |j: int| (d@[j].0, frozen(self.forward(), d@[j].1)->Some_0),
                ));
                Some(FrozenObject::Dict(content))
            },
        }
    }
}

/// Does the value in the slot, if there is one, have a frozen value that
/// stands for it?
pub open spec fn slot_freezes(forward: Seq<Option<usize>>, slot: Option<Value>) -> bool {
    slot matches Some(v) ==> frozen(forward, v) is Some
}

/// Do the first `n` slots freeze?
pub open spec fn slots_freeze(forward: Seq<Option<usize>>, slots: Seq<Option<Value>>, n: int) -> bool {
    forall|i: int| 0 <= i < n && i < slots.len() ==> slot_freezes(forward, #[trigger] slots[i])
}

/// What a slot that freezes holds once it is frozen.
pub open spec fn frozen_slot(forward: Seq<Option<usize>>, slot: Option<Value>) -> Option<FrozenValue> {
    match slot {
        Some(v) => frozen(forward, v),
        None => None,
    }
}

/// What slots that freeze hold once they are frozen.
pub open spec fn frozen_slots(forward: Seq<Option<usize>>, slots: Seq<Option<Value>>) -> Seq<
    Option<FrozenValue>,
> {
    Seq::new(slots.len(), |i: int| frozen_slot(forward, slots[i]))
}

/// Can every one of the first `n` objects in `order` be frozen?
pub open spec fn all_objects_freeze(
    objects: Seq<ObjectView>,
    order: Seq<usize>,
    forward: Seq<Option<usize>>,
    n: int,
) -> bool {
    forall|k: int| 0 <= k < n && k < order.len() ==> freezes(forward, objects[(#[trigger] order[k]) as int])
}

impl FrozenHeap {
    /// The heap holds no more objects than it has room for, and every
    /// dictionary in it is well formed.
    pub closed spec fn wf(&self) -> bool {
        &&& self.objects@.len() <= HEAP_LIMIT
        &&& forall|i: int|
            0 <= i < self.objects@.len() ==> (#[trigger] self.objects@[i] matches FrozenObject::Dict(
                d,
            ) ==> d.wf())
    }

    /// The frozen heaps that this one refers to, in the order in which
    /// they were added.
    pub closed spec fn references(&self) -> Seq<FrozenHeap> {
        Seq::new(self.references@.len(), |i: int| self.references@[i].heap())
    }

    /// Does this heap refer to `other`?
    pub open spec fn refers_to(&self, other: FrozenHeap) -> bool {
        self.references().contains(other)
    }

    /// A frozen heap without objects, which refers to no other.
    pub fn new() -> (heap: FrozenHeap)
        ensures
            heap.wf(),
            heap@ == Seq::<FrozenObjectView>::empty(),
            heap.references() == Seq::<FrozenHeap>::empty(),
    {
        let heap = FrozenHeap { objects: Vec::new(), references: Vec::new() };
        assert(heap@ =~= Seq::<FrozenObjectView>::empty());
        assert(heap.references() =~= Seq::<FrozenHeap>::empty());
        heap
    }

    /// Makes this heap refer to `heap`, which then lives as long as this
    /// one: values in this heap may point to its objects. The objects of
    /// this heap stay as they are.
    pub fn add_reference(&mut self, heap: &FrozenHeapRef)
        ensures
            final(self)@ == old(self)@,
            final(self).wf() == old(self).wf(),
            final(self).references() == old(self).references().push(heap.heap()),
            final(self).refers_to(heap.heap()),
    {
        self.references.push(heap.dupe());
        assert(self.references() =~= old(self).references().push(heap.heap()));
        assert(self.references()[old(self).references().len() as int] == heap.heap());
    }

    /// Makes this heap refer to every heap that `other` refers to.
    pub fn add_references_of(&mut self, other: &FrozenHeap)
        ensures
            final(self)@ == old(self)@,
            final(self).wf() == old(self).wf(),
            final(self).references() == old(self).references() + other.references(),
    {
        let n = other.references.len();
        let mut i: usize = 0;
        assert(self.references() =~= old(self).references() + other.references().take(0));
        while i < n
            invariant
                n == other.references@.len(),
                i <= n,
                self@ == old(self)@,
                self.wf() == old(self).wf(),
                self.references() == old(self).references() + other.references().take(i as int),
            decreases n - i,
        {
            let ghost before = self.references();
            self.add_reference(&other.references[i]);
            assert(self.references() =~= old(self).references() + other.references().take(
                i as int + 1,
            ));
            i += 1;
        }
        assert(other.references().take(n as int) =~= other.references());
    }

    /// The number of frozen heaps that this one refers to.
    pub fn reference_count(&self) -> (n: usize)
        ensures
            n == self.references().len(),
    {
        self.references.len()
    }

    /// The frozen heap that was added at place `i`.
    pub fn reference(&self, i: usize) -> (heap: &FrozenHeap)
        requires
            i < self.references().len(),
        ensures
            *heap == self.references()[i as int],
    {
        self.references[i].get()
    }

    /// The number of objects.
    pub fn allocated(&self) -> (n: usize)
        ensures
            n == self@.len(),
    {
        self.objects.len()
    }

    /// The object that a frozen value points to, if it points to one in
    /// this heap.
    pub fn get(&self, v: FrozenValue) -> (r: Option<&FrozenObject>)
        ensures
            r matches Some(o) ==> frozen_place_in(self@.len(), v) matches Some(i) && o@ == self@[i],
            r is None ==> frozen_place_in(self@.len(), v) is None,
    {
        match v.unpack_ptr() {
            None => None,
            Some(address) => {
                let w = v.ptr_value();
                assert(w & !7u64 == address ==> address >> 3 == w >> 3) by (bit_vector);
                let place = address >> 3;
                let n = self.objects.len();
                if place >= 4 && place - 4 < n as u64 {
                    Some(&self.objects[(place - 4) as usize])
                } else {
                    None
                }
            },
        }
    }
}

impl Heap {
    /// Freezes the heap: makes a frozen heap of the frozen copies of the
    /// objects that `reached` says are in use. There is none if an object
    /// in use holds a value that no frozen value stands for.
    pub fn freeze(&self, reached: &Reached) -> (r: Option<FrozenHeap>)
        requires
            self.wf(),
            numbered(reached.order(), reached.forward()),
            reached.forward().len() == self@.len(),
        ensures
            r is Some == all_objects_freeze(
                self@,
                reached.order(),
                reached.forward(),
                reached.order().len() as int,
            ),
            r matches Some(f) ==> f.wf() && f@ == frozen_objects(
                self@,
                reached.order(),
                reached.forward(),
            ) && f.references() == Seq::<FrozenHeap>::empty(),
    {
        let n = reached.len();
        proof {
            self.lemma_wf();
            lemma_numbered_len(reached.order(), reached.forward());
        }
        let mut objects: Vec<FrozenObject> = Vec::with_capacity(n);
        let mut k: usize = 0;
        while k < n
            invariant
                self.wf(),
                numbered(reached.order(), reached.forward()),
                reached.forward().len() == self@.len(),
                self@.len() <= HEAP_LIMIT,
                n == reached.order().len(),
                n <= self@.len(),
                k <= n,
                objects@.len() == k,
                all_objects_freeze(self@, reached.order(), reached.forward(), k as int),
                forall|i: int|
                    0 <= i < k ==> (#[trigger] objects@[i])@ == frozen_object(
                        reached.forward(),
                        self@[reached.order()[i] as int],
                    ),
                forall|i: int|
                    0 <= i < k ==> ((#[trigger] objects@[i]) matches FrozenObject::Dict(d) ==> d.wf()),
            decreases n - k,
        {
            let place = reached.place(k);
            match reached.freeze_object(self.object_at(place)) {
                Some(copy) => objects.push(copy),
                None => {
                    assert(!freezes(reached.forward(), self@[reached.order()[k as int] as int]));
                    return None;
                },
            }
            k += 1;
        }
        let heap = FrozenHeap { objects, references: Vec::new() };
        assert(heap@ =~= frozen_objects(self@, reached.order(), reached.forward()));
        assert(heap.references() =~= Seq::<FrozenHeap>::empty());
        Some(heap)
    }
}

} // verus!
