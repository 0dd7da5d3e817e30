//! The heap of one evaluation: an arena that objects are added to and
//! never taken from one by one.
//!
//! A value points to an object by its address: eight times the object's
//! place in the arena, counted from one, so that the three low bits are
//! free for the tags.

use vstd::prelude::*;

use crate::values::dict::{Dict, DictKeyView};
use crate::values::pointer::{
    untag_pointer_spec, word_is_int, word_is_str, word_is_unfrozen, TAG_BITS, TAG_STR, TAG_UNFROZEN,
};
use crate::values::value::Value;

verus! {

/// The most objects that a heap holds: the address of each, eight times
/// its place counted from one, fits the 61 bits that a word has above its
/// tags.
pub const HEAP_LIMIT: u64 = 0x0fff_ffff_ffff_ffff;

/// An object in the heap.
pub enum Object {
    Str(String),
    Tuple(Vec<Value>),
    List(Vec<Value>),
    Dict(Dict),
}

/// What an object holds.
pub enum ObjectView {
    Str(Seq<char>),
    Tuple(Seq<Value>),
    List(Seq<Value>),
    Dict(Seq<(DictKeyView, Value)>),
}

impl View for Object {
    type V = ObjectView;

    open spec fn view(&self) -> ObjectView {
        match self {
            Object::Str(s) => ObjectView::Str(s@),
            Object::Tuple(v) => ObjectView::Tuple(v@),
            Object::List(v) => ObjectView::List(v@),
            Object::Dict(d) => ObjectView::Dict(d@),
        }
    }
}

/// What profiling records of a call: that the function was entered, or
/// that the call entered last was left.
#[derive(Clone, Copy, Debug, PartialEq, Eq, Structural)]
pub enum CallEvent {
    Enter(Value),
    Exit,
}

/// The functions that were entered, in the order of `events`.
pub open spec fn entered_functions(events: Seq<CallEvent>) -> Seq<Value>
    decreases events.len(),
{
    if events.len() == 0 {
        Seq::empty()
    } else {
        let before = entered_functions(events.drop_last());
        match events.last() {
            CallEvent::Enter(function) => before.push(function),
            CallEvent::Exit => before,
        }
    }
}

/// The heap of one evaluation: its objects, and what profiling recorded
/// of the calls.
pub struct Heap {
    objects: Vec<Object>,
    profile: Vec<CallEvent>,
}

impl View for Heap {
    type V = Seq<ObjectView>;

    /// The objects in the order of their allocation.
    closed spec fn view(&self) -> Seq<ObjectView> {
        Seq::new(self.objects@.len(), |i: int| self.objects@[i]@)
    }
}

/// Does the word point into a mutable heap?
pub open spec fn word_points_to_heap(w: u64) -> bool {
    !word_is_int(w) && word_is_unfrozen(w)
}

/// The place in the arena that a word points to, counted from zero.
pub open spec fn heap_index(w: u64) -> int {
    (w >> 3) as int - 1
}

/// The word that points to the object at place `index`.
pub open spec fn heap_word(index: int, is_string: bool) -> u64 {
    (((index + 1) as u64) << 3) | (if is_string {
        TAG_STR
    } else {
        0
    }) | TAG_UNFROZEN
}

/// The place of the object that a value points to in a heap of `len`
/// objects, if it points to one.
pub open spec fn place_in(len: nat, v: Value) -> Option<int> {
    if word_points_to_heap(v@) && 0 <= heap_index(v@) < len {
        Some(heap_index(v@))
    } else {
        None
    }
}

/// The object that a value points to in a heap with these objects, if it
/// points to one.
pub open spec fn object_in(objects: Seq<ObjectView>, v: Value) -> Option<ObjectView> {
    match place_in(objects.len(), v) {
        Some(i) => Some(objects[i]),
        None => None,
    }
}

/// The values that an object holds: the elements of a tuple or a list, and
/// the values of a dictionary.
pub open spec fn children(o: ObjectView) -> Seq<Value> {
    match o {
        ObjectView::Str(_) => Seq::empty(),
        ObjectView::Tuple(items) => items,
        ObjectView::List(items) => items,
        ObjectView::Dict(entries) => Seq::new(entries.len(), |i: int| entries[i].1),
    }
}

/// The elements that a value yields when it is iterated: those of a tuple
/// or of a list. No other value is iterable.
pub open spec fn elements_in(objects: Seq<ObjectView>, v: Value) -> Option<Seq<Value>> {
    match object_in(objects, v) {
        Some(ObjectView::Tuple(items)) => Some(items),
        Some(ObjectView::List(items)) => Some(items),
        _ => None,
    }
}

/// The entries of the dictionary that a value points to.
pub open spec fn dict_in(objects: Seq<ObjectView>, v: Value) -> Option<Seq<(DictKeyView, Value)>> {
    match object_in(objects, v) {
        Some(ObjectView::Dict(entries)) => Some(entries),
        _ => None,
    }
}

/// The string that a value points to.
pub open spec fn str_in(objects: Seq<ObjectView>, v: Value) -> Option<Seq<char>> {
    match object_in(objects, v) {
        Some(ObjectView::Str(s)) => Some(s),
        _ => None,
    }
}

/// The word of a place in the arena points back to that place, and carries
/// the string tag as asked.
pub proof fn lemma_heap_word(index: int, is_string: bool)
    requires
        0 <= index < HEAP_LIMIT,
    ensures
        word_points_to_heap(heap_word(index, is_string)),
        heap_index(heap_word(index, is_string)) == index,
        word_is_str(heap_word(index, is_string)) == is_string,
        ((index + 1) as u64) << 3 & TAG_BITS == 0,
{
    let k = (index + 1) as u64;
    assert(k <= 0x0fff_ffff_ffff_ffff ==> {
        &&& ((k << 3) | 0u64 | 1u64) >> 3 == k
        &&& ((k << 3) | 4u64 | 1u64) >> 3 == k
        &&& ((k << 3) | 0u64 | 1u64) & 2u64 == 0
        &&& ((k << 3) | 4u64 | 1u64) & 2u64 == 0
        &&& ((k << 3) | 0u64 | 1u64) & 1u64 != 0
        &&& ((k << 3) | 4u64 | 1u64) & 1u64 != 0
        &&& ((k << 3) | 0u64 | 1u64) & 4u64 == 0
        &&& ((k << 3) | 4u64 | 1u64) & 4u64 != 0
        &&& (k << 3) & 7u64 == 0
    }) by (bit_vector);
}

/// An object added to a heap changes nothing for a value that pointed to
/// an object before.
pub proof fn lemma_object_stays(objects: Seq<ObjectView>, added: ObjectView, v: Value)
    ensures
        object_in(objects, v) is Some ==> object_in(objects.push(added), v) == object_in(objects, v),
        elements_in(objects, v) is Some ==> elements_in(objects.push(added), v) == elements_in(
            objects,
            v,
        ),
        dict_in(objects, v) is Some ==> dict_in(objects.push(added), v) == dict_in(objects, v),
        str_in(objects, v) is Some ==> str_in(objects.push(added), v) == str_in(objects, v),
{
}

impl Heap {
    /// A heap with these objects and this record of the calls.
    pub(crate) fn from_objects(objects: Vec<Object>, profile: Vec<CallEvent>) -> (heap: Heap)
        requires
            objects@.len() <= HEAP_LIMIT,
            forall|i: int| 0 <= i < objects@.len() ==> ((#[trigger] objects@[i]) matches Object::Dict(d) ==> d.wf()),
        ensures
            heap.wf(),
            heap@ == Seq::new(objects@.len(), |i: int| objects@[i]@),
            heap.profile() == profile@,
    {
        Heap { objects, profile }
    }

    /// What profiling recorded of the calls, in the order in which they
    /// were entered and left.
    pub closed spec fn profile(&self) -> Seq<CallEvent> {
        self.profile@
    }

    /// Records that `function` is entered. The objects stay as they are.
    pub fn record_call_enter(&mut self, function: Value)
        ensures
            final(self)@ == old(self)@,
            final(self).wf() == old(self).wf(),
            final(self).profile() == old(self).profile().push(CallEvent::Enter(function)),
    {
        self.profile.push(CallEvent::Enter(function));
    }

    /// Records that the call entered last is left. The objects stay as
    /// they are.
    pub fn record_call_exit(&mut self)
        ensures
            final(self)@ == old(self)@,
            final(self).wf() == old(self).wf(),
            final(self).profile() == old(self).profile().push(CallEvent::Exit),
    {
        self.profile.push(CallEvent::Exit);
    }

    /// What profiling recorded of the calls.
    pub fn call_events(&self) -> (events: &Vec<CallEvent>)
        ensures
            events@ == self.profile(),
    {
        &self.profile
    }

    /// The functions that profiling recorded, added to `roots`.
    pub fn walk_profile(&self, roots: &mut Vec<Value>)
        ensures
            final(roots)@ == old(roots)@ + entered_functions(self.profile()),
    {
        let n = self.profile.len();
        let mut i: usize = 0;
        assert(self.profile@.take(0) =~= Seq::<CallEvent>::empty());
        assert(roots@ =~= old(roots)@ + entered_functions(self.profile@.take(0)));
        while i < n
            invariant
                n == self.profile@.len(),
                i <= n,
                roots@ == old(roots)@ + entered_functions(self.profile@.take(i as int)),
            decreases n - i,
        {
            assert(self.profile@.take(i as int + 1).drop_last() =~= self.profile@.take(i as int));
            match self.profile[i] {
                CallEvent::Enter(function) => {
                    roots.push(function);
                    assert(roots@ =~= old(roots)@ + entered_functions(
                        self.profile@.take(i as int + 1),
                    ));
                },
                CallEvent::Exit => {},
            }
            i += 1;
        }
        assert(self.profile@.take(n as int) =~= self.profile@);
    }

    /// The heap has room and every dictionary in it is well formed.
    pub closed spec fn wf(&self) -> bool {
        &&& self.objects@.len() <= HEAP_LIMIT
        &&& forall|i: int|
            0 <= i < self.objects@.len() ==> (#[trigger] self.objects@[i] matches Object::Dict(d)
                ==> d.wf())
    }

    /// A well-formed heap holds no more objects than it has room for.
    pub proof fn lemma_wf(&self)
        requires
            self.wf(),
        ensures
            self@.len() <= HEAP_LIMIT,
    {
    }

    /// There is room for `n` more objects.
    pub open spec fn has_room(&self, n: nat) -> bool {
        self@.len() + n <= HEAP_LIMIT
    }

    /// A heap without objects, with nothing recorded.
    pub fn new() -> (heap: Heap)
        ensures
            heap.wf(),
            heap@ == Seq::<ObjectView>::empty(),
            heap.profile() == Seq::<CallEvent>::empty(),
    {
        let heap = Heap { objects: Vec::new(), profile: Vec::new() };
        assert(heap@ =~= Seq::<ObjectView>::empty());
        heap
    }

    /// The number of objects allocated.
    pub fn allocated(&self) -> (n: usize)
        ensures
            n == self@.len(),
    {
        self.objects.len()
    }

    /// Is there room for `n` more objects?
    pub fn has_room_for(&self, n: usize) -> (b: bool)
        ensures
            b == self.has_room(n as nat),
    {
        let len = self.objects.len() as u64;
        len <= HEAP_LIMIT && n as u64 <= HEAP_LIMIT - len
    }

    /// Puts an object at the end of the arena and returns the value that
    /// points to it.
    fn allocate(&mut self, object: Object, is_string: bool) -> (v: Value)
        requires
            old(self).wf(),
            old(self).has_room(1),
            object matches Object::Dict(d) ==> d.wf(),
        ensures
            final(self).wf(),
            final(self)@ == old(self)@.push(object@),
            final(self).profile() == old(self).profile(),
            v@ == heap_word(old(self)@.len() as int, is_string),
            object_in(final(self)@, v) == Some(object@),
    {
        let index = self.objects.len();
        proof {
            lemma_heap_word(index as int, is_string);
        }
        let v = value_at(index, is_string);
        self.objects.push(object);
        assert(self@ =~= old(self)@.push(object@));
        v
    }

    /// A word is made of its address and its tags.
    pub(crate) proof fn lemma_word_of(w: u64, address: u64, is_string: bool)
        requires
            address & TAG_BITS == 0,
            untag_pointer_spec(w) == address,
            word_is_unfrozen(w),
            !word_is_int(w),
            word_is_str(w) == is_string,
        ensures
            w == address | (if is_string {
                TAG_STR
            } else {
                0
            }) | TAG_UNFROZEN,
    {
        assert(address & 7u64 == 0 && w & !7u64 == address && w & 1u64 != 0 && w & 2u64 == 0 ==> (w
            & 4u64 != 0 ==> w == address | 4u64 | 1u64) && (w & 4u64 == 0 ==> w == address | 0u64
            | 1u64)) by (bit_vector);
    }

    /// Allocates a string.
    pub fn alloc_str(&mut self, s: &str) -> (v: Value)
        requires
            old(self).wf(),
            old(self).has_room(1),
        ensures
            final(self).wf(),
            final(self)@ == old(self)@.push(ObjectView::Str(s@)),
            final(self).profile() == old(self).profile(),
            v@ == heap_word(old(self)@.len() as int, true),
            str_in(final(self)@, v) == Some(s@),
    {
        self.allocate(Object::Str(s.to_owned()), true)
    }

    /// Allocates a tuple of the values in `items`.
    pub fn alloc_tuple(&mut self, items: &[Value]) -> (v: Value)
        requires
            old(self).wf(),
            old(self).has_room(1),
        ensures
            final(self).wf(),
            final(self)@ == old(self)@.push(ObjectView::Tuple(items@)),
            final(self).profile() == old(self).profile(),
            v@ == heap_word(old(self)@.len() as int, false),
            elements_in(final(self)@, v) == Some(items@),
    {
        self.allocate(Object::Tuple(slice_to_vec(items)), false)
    }

    /// Allocates a list of the values in `items`.
    pub fn alloc_list(&mut self, items: &[Value]) -> (v: Value)
        requires
            old(self).wf(),
            old(self).has_room(1),
        ensures
            final(self).wf(),
            final(self)@ == old(self)@.push(ObjectView::List(items@)),
            final(self).profile() == old(self).profile(),
            v@ == heap_word(old(self)@.len() as int, false),
            elements_in(final(self)@, v) == Some(items@),
    {
        self.allocate(Object::List(slice_to_vec(items)), false)
    }

    /// Allocates a dictionary.
    pub fn alloc_dict(&mut self, dict: Dict) -> (v: Value)
        requires
            old(self).wf(),
            old(self).has_room(1),
            dict.wf(),
        ensures
            final(self).wf(),
            final(self)@ == old(self)@.push(ObjectView::Dict(dict@)),
            final(self).profile() == old(self).profile(),
            v@ == heap_word(old(self)@.len() as int, false),
            dict_in(final(self)@, v) == Some(dict@),
    {
        self.allocate(Object::Dict(dict), false)
    }

    /// The place of the object that a value points to, if it points to
    /// one in this heap.
    pub fn place_of(&self, v: Value) -> (r: Option<usize>)
        ensures
            r matches Some(i) ==> place_in(self@.len(), v) == Some(i as int),
            r is None ==> place_in(self@.len(), v) is None,
    {
        place_among(self.objects.len(), v)
    }

    /// The object at a place of the heap.
    pub fn object_at(&self, place: usize) -> (o: &Object)
        requires
            self.wf(),
            place < self@.len(),
        ensures
            o@ == self@[place as int],
            o matches Object::Dict(d) ==> d.wf(),
    {
        &self.objects[place]
    }

    /// The object that a value points to, if it points to one in this heap.
    pub fn get(&self, v: Value) -> (r: Option<&Object>)
        requires
            self.wf(),
        ensures
            r matches Some(o) ==> object_in(self@, v) == Some(o@) && (o matches Object::Dict(d)
                ==> d.wf()),
            r is None ==> object_in(self@, v) is None,
    {
        match self.place_of(v) {
            Some(place) => Some(self.object_at(place)),
            None => None,
        }
    }

    /// The values that the object at a place of the heap holds.
    pub fn children_at(&self, place: usize) -> (r: Vec<Value>)
        requires
            self.wf(),
            place < self@.len(),
        ensures
            r@ == children(self@[place as int]),
    {
        match self.object_at(place) {
            Object::Str(_) => Vec::new(),
            Object::Tuple(items) => slice_to_vec(items.as_slice()),
            Object::List(items) => slice_to_vec(items.as_slice()),
            Object::Dict(d) => {
                let entries = d.iter_hashed();
                let mut r: Vec<Value> = Vec::new();
                let n = entries.len();
                let mut i: usize = 0;
                while i < n
                    invariant
                        n == entries@.len(),
                        n == d@.len(),
                        i <= n,
                        r@.len() == i,
                        forall|j: int| 0 <= j < n ==> (#[trigger] entries@[j]).1 == d@[j].1,
                        forall|j: int| 0 <= j < i ==> r@[j] == d@[j].1,
                    decreases n - i,
                {
                    r.push(entries[i].1);
                    i += 1;
                }
                assert(r@ =~= children(ObjectView::Dict(d@)));
                r
            },
        }
    }

    /// The string that a value points to.
    pub fn unpack_str(&self, v: Value) -> (r: Option<&str>)
        requires
            self.wf(),
        ensures
            r matches Some(s) ==> str_in(self@, v) == Some(s@),
            r is None ==> str_in(self@, v) is None,
    {
        match self.get(v) {
            Some(Object::Str(s)) => Some(s.as_str()),
            _ => None,
        }
    }

    /// The dictionary that a value points to.
    pub fn unpack_dict(&self, v: Value) -> (r: Option<&Dict>)
        requires
            self.wf(),
        ensures
            r matches Some(d) ==> dict_in(self@, v) == Some(d@) && d.wf(),
            r is None ==> dict_in(self@, v) is None,
    {
        match self.get(v) {
            Some(Object::Dict(d)) => Some(d),
            _ => None,
        }
    }

    /// The elements that a value yields when it is iterated.
    pub fn iterate(&self, v: Value) -> (r: Option<&Vec<Value>>)
        requires
            self.wf(),
        ensures
            r matches Some(items) ==> elements_in(self@, v) == Some(items@),
            r is None ==> elements_in(self@, v) is None,
    {
        match self.get(v) {
            Some(Object::Tuple(items)) => Some(items),
            Some(Object::List(items)) => Some(items),
            _ => None,
        }
    }
}

/// The place of the object that a value points to in a heap of `n`
/// objects, if it points to one.
pub fn place_among(n: usize, v: Value) -> (r: Option<usize>)
    ensures
        r matches Some(i) ==> place_in(n as nat, v) == Some(i as int),
        r is None ==> place_in(n as nat, v) is None,
{
    if !v.is_unfrozen() {
        return None;
    }
    match v.unpack_ptr() {
        None => None,
        Some(address) => {
            let w = v.ptr_value();
            assert(w & !7u64 == address ==> address >> 3 == w >> 3) by (bit_vector);
            let place = address >> 3;
            if place >= 1 && place - 1 < n as u64 {
                Some((place - 1) as usize)
            } else {
                None
            }
        },
    }
}

/// The value that points to the object at place `place` of a heap, and to
/// a string if `is_string`.
pub fn value_at(place: usize, is_string: bool) -> (v: Value)
    requires
        place < HEAP_LIMIT,
    ensures
        v == Value::from_word(heap_word(place as int, is_string)),
        v@ == heap_word(place as int, is_string),
{
    proof {
        lemma_heap_word(place as int, is_string);
        Value::lemma_from_word(heap_word(place as int, is_string));
    }
    let address = (place as u64 + 1) << 3;
    let v = Value::new_ptr_usize(address, is_string);
    proof {
        Heap::lemma_word_of(v@, address, is_string);
    }
    v
}

/// A vector with the values of a slice.
pub fn slice_to_vec(items: &[Value]) -> (r: Vec<Value>)
    ensures
        r@ == items@,
{
    let mut r: Vec<Value> = Vec::with_capacity(items.len());
    let mut i: usize = 0;
    while i < items.len()
        invariant
            i <= items@.len(),
            r@ == items@.subrange(0, i as int),
        decreases items@.len() - i,
    {
        r.push(items[i]);
        i += 1;
        assert(r@ =~= items@.subrange(0, i as int));
    }
    assert(r@ =~= items@);
    r
}

} // verus!
