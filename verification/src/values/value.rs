//! A value of the language: one tagged word.
//!
//! A small integer lives in the word itself. `None`, `True` and `False`
//! are frozen objects at fixed addresses. Every other value points to an
//! object in a heap.

use vstd::prelude::*;

use crate::values::pointer::{
    lemma_tag_int, lemma_tag_pointer, tag_int_spec, unpack_spec, untag_int_spec,
    untag_pointer_spec, word_is_int, word_is_str, word_is_unfrozen, Either, FrozenPointer, Pointer,
    TAG_BITS,
};

verus! {

/// The address of `None`.
pub const NONE_ADDRESS: u64 = 8;

/// The address of `False`.
pub const FALSE_ADDRESS: u64 = 16;

/// The address of `True`.
pub const TRUE_ADDRESS: u64 = 24;

/// A value: a pointer into either heap, or a small integer.
#[derive(Clone, Copy, Debug, PartialEq, Eq, Structural)]
pub struct Value(Pointer);

/// A value that is frozen: a pointer into the frozen heap, or a small
/// integer. It widens to a [`Value`] without loss.
#[derive(Clone, Copy, Debug, PartialEq, Eq, Structural)]
pub struct FrozenValue(FrozenPointer);

impl View for Value {
    type V = u64;

    /// The word.
    closed spec fn view(&self) -> u64 {
        self.0@
    }
}

impl View for FrozenValue {
    type V = u64;

    /// The word.
    closed spec fn view(&self) -> u64 {
        self.0@
    }
}

/// The word of `None`.
pub open spec fn none_word() -> u64 {
    NONE_ADDRESS
}

/// The word of a boolean.
pub open spec fn bool_word(b: bool) -> u64 {
    if b {
        TRUE_ADDRESS
    } else {
        FALSE_ADDRESS
    }
}

/// A value that can stand where a [`Value`] is expected.
pub trait ValueLike: Copy {
    /// The value it stands for.
    spec fn spec_to_value(self) -> Value;

    /// The value it stands for.
    fn to_value(self) -> (v: Value)
        ensures
            v == self.spec_to_value(),
    ;
}

impl Value {
    /// The value with the word `w`.
    pub closed spec fn from_word(w: u64) -> Value {
        Value(Pointer::from_word(w))
    }

    /// The value with the word `w` has that word, and is the only value
    /// that has it.
    pub proof fn lemma_from_word(w: u64)
        ensures
            Self::from_word(w)@ == w,
            forall|v: Value| v@ == w ==> v == Self::from_word(w),
    {
        Pointer::lemma_from_word(w);
        assert forall|v: Value| v@ == w implies v == Self::from_word(w) by {
            v.lemma_same_word(Self::from_word(w));
        }
    }

    /// Two values with the same word are the same value.
    pub proof fn lemma_same_word(self, other: Value)
        requires
            self@ == other@,
        ensures
            self == other,
    {
        self.0.lemma_view_injective(other.0);
    }

    /// The integer `x`. Nothing is allocated.
    pub fn new_int(x: i32) -> (v: Value)
        ensures
            v@ == tag_int_spec(x),
    {
        Value(FrozenPointer::new_int(x).to_pointer())
    }

    /// `None`.
    pub fn new_none() -> (v: Value)
        ensures
            v@ == none_word(),
    {
        FrozenValue::new_none().widen()
    }

    /// `True` or `False`.
    pub fn new_bool(b: bool) -> (v: Value)
        ensures
            v@ == bool_word(b),
    {
        FrozenValue::new_bool(b).widen()
    }

    /// The unfrozen value that points to the aligned address `x`, and to a
    /// string if `is_string`.
    pub fn new_ptr_usize(x: u64, is_string: bool) -> (v: Value)
        requires
            x & TAG_BITS == 0,
        ensures
            unpack_spec(v@) == Either::<u64, i32>::Left(x),
            word_is_unfrozen(v@),
            !word_is_int(v@),
            word_is_str(v@) == is_string,
    {
        proof {
            lemma_tag_pointer(x, is_string, true);
        }
        Value(Pointer::new_unfrozen_usize(x, is_string))
    }

    /// The frozen value behind a value with no unfrozen tag.
    pub fn unpack_frozen(self) -> (r: Option<FrozenValue>)
        ensures
            r is Some == !word_is_unfrozen(self@),
            r matches Some(f) ==> f@ == self@,
    {
        if self.0.is_unfrozen() {
            None
        } else {
            Some(FrozenValue(self.0.to_frozen_pointer()))
        }
    }

    /// Is this `None`?
    pub fn is_none(self) -> (b: bool)
        ensures
            b == (self@ == none_word()),
    {
        self.0.ptr_value() == NONE_ADDRESS
    }

    /// The boolean, if the value is one.
    pub fn unpack_bool(self) -> (r: Option<bool>)
        ensures
            r == (if self@ == bool_word(true) {
                Some(true)
            } else if self@ == bool_word(false) {
                Some(false)
            } else {
                None
            }),
    {
        let w = self.0.ptr_value();
        if w == TRUE_ADDRESS {
            Some(true)
        } else if w == FALSE_ADDRESS {
            Some(false)
        } else {
            None
        }
    }

    /// The integer, if the value is one.
    pub fn unpack_int(self) -> (r: Option<i32>)
        ensures
            r == (if word_is_int(self@) {
                Some(untag_int_spec(self@))
            } else {
                None
            }),
            r matches Some(i) ==> tag_int_spec(i) == self@,
    {
        self.0.unpack_int()
    }

    /// The address pointed to, or the integer held.
    pub fn unpack(self) -> (r: Either<u64, i32>)
        ensures
            r == unpack_spec(self@),
    {
        self.0.unpack()
    }

    /// The address pointed to, if the value is a pointer.
    pub fn unpack_ptr(self) -> (r: Option<u64>)
        ensures
            r == (if word_is_int(self@) {
                None
            } else {
                Some(untag_pointer_spec(self@))
            }),
    {
        self.0.unpack_ptr()
    }

    /// Is the referent a string? A single-bit test, without a look at the
    /// heap.
    pub fn is_str(self) -> (b: bool)
        ensures
            b == word_is_str(self@),
    {
        self.0.is_str()
    }

    /// Does the referent live in the mutable heap? A single-bit test.
    pub fn is_unfrozen(self) -> (b: bool)
        ensures
            b == word_is_unfrozen(self@),
    {
        self.0.is_unfrozen()
    }

    /// Identity: the same word. Two values can be equal in structure and
    /// still differ in identity.
    pub fn ptr_eq(self, other: Value) -> (b: bool)
        ensures
            b == (self@ == other@),
            b == (self == other),
    {
        proof {
            if self@ == other@ {
                self.lemma_same_word(other);
            }
        }
        self.0.ptr_eq(other.0)
    }

    /// The raw word. It is never zero.
    pub fn ptr_value(self) -> (r: u64)
        ensures
            r == self@,
            r != 0,
    {
        self.0.ptr_value()
    }
}

impl FrozenValue {
    /// The frozen value that points to the aligned address `x`, and to a
    /// string if `is_string`.
    pub fn new_ptr_usize(x: u64, is_string: bool) -> (v: FrozenValue)
        requires
            x & TAG_BITS == 0,
            x != 0,
        ensures
            unpack_spec(v@) == Either::<u64, i32>::Left(x),
            !word_is_unfrozen(v@),
            !word_is_int(v@),
            word_is_str(v@) == is_string,
    {
        proof {
            lemma_tag_pointer(x, is_string, false);
        }
        FrozenValue(FrozenPointer::new_frozen_usize(x, is_string))
    }

    /// Is the referent a string? A single-bit test.
    pub fn is_str(self) -> (b: bool)
        ensures
            b == word_is_str(self@),
    {
        self.0.to_pointer().is_str()
    }

    /// The address pointed to, if the value is a pointer. No frozen value
    /// carries the unfrozen tag.
    pub fn unpack_ptr(self) -> (r: Option<u64>)
        ensures
            r == (if word_is_int(self@) {
                None
            } else {
                Some(untag_pointer_spec(self@))
            }),
            !word_is_unfrozen(self@),
    {
        self.0.to_pointer().unpack_ptr()
    }

    /// The frozen value with the word `w`.
    pub closed spec fn from_word(w: u64) -> FrozenValue {
        FrozenValue(FrozenPointer::from_word(w))
    }

    /// The frozen value with the word `w` has that word, and is the only
    /// frozen value that has it.
    pub proof fn lemma_from_word(w: u64)
        ensures
            Self::from_word(w)@ == w,
            forall|v: FrozenValue| v@ == w ==> v == Self::from_word(w),
    {
        FrozenPointer::lemma_from_word(w);
        assert forall|v: FrozenValue| v@ == w implies v == Self::from_word(w) by {
            v.0.lemma_view_injective(Self::from_word(w).0);
        }
    }

    /// The integer `x`. Nothing is allocated.
    pub fn new_int(x: i32) -> (v: FrozenValue)
        ensures
            v@ == tag_int_spec(x),
    {
        FrozenValue(FrozenPointer::new_int(x))
    }

    /// `None`.
    pub fn new_none() -> (v: FrozenValue)
        ensures
            v@ == none_word(),
    {
        assert(8u64 & 7u64 == 0 && (8u64 | 0u64) == 8u64) by (bit_vector);
        FrozenValue(FrozenPointer::new_frozen_usize(NONE_ADDRESS, false))
    }

    /// `True` or `False`.
    pub fn new_bool(b: bool) -> (v: FrozenValue)
        ensures
            v@ == bool_word(b),
    {
        assert(16u64 & 7u64 == 0 && (16u64 | 0u64) == 16u64 && 24u64 & 7u64 == 0 && (24u64 | 0u64)
            == 24u64) by (bit_vector);
        if b {
            FrozenValue(FrozenPointer::new_frozen_usize(TRUE_ADDRESS, false))
        } else {
            FrozenValue(FrozenPointer::new_frozen_usize(FALSE_ADDRESS, false))
        }
    }

    /// The integer, if the value is one.
    pub fn unpack_int(self) -> (r: Option<i32>)
        ensures
            r == (if word_is_int(self@) {
                Some(untag_int_spec(self@))
            } else {
                None
            }),
            r matches Some(i) ==> tag_int_spec(i) == self@,
    {
        self.0.unpack_int()
    }

    /// The address pointed to, or the integer held.
    pub fn unpack(self) -> (r: Either<u64, i32>)
        ensures
            r == unpack_spec(self@),
    {
        self.0.unpack()
    }

    /// The raw word. It is never zero.
    pub fn ptr_value(self) -> (r: u64)
        ensures
            r == self@,
            r != 0,
    {
        self.0.ptr_value()
    }

    /// The same value, widened. Its word is unchanged, and so is what it
    /// unpacks to.
    pub fn widen(self) -> (v: Value)
        ensures
            v@ == self@,
            unpack_spec(v@) == unpack_spec(self@),
            !word_is_unfrozen(v@),
    {
        Value(self.0.to_pointer())
    }
}

impl ValueLike for Value {
    open spec fn spec_to_value(self) -> Value {
        self
    }

    fn to_value(self) -> (v: Value) {
        self
    }
}

impl ValueLike for FrozenValue {
    closed spec fn spec_to_value(self) -> Value {
        Value(Pointer::from_frozen(self.0))
    }

    fn to_value(self) -> (v: Value) {
        Value(self.0.to_pointer())
    }
}

/// A frozen value and the value it widens to have the same word.
pub proof fn lemma_widened_word(f: FrozenValue)
    ensures
        f.spec_to_value()@ == f@,
{
    Pointer::lemma_from_frozen(f.0);
}

/// The word of an integer, of `None` and of a boolean are all different,
/// none carries the unfrozen tag, and only the integer's carries the
/// integer tag.
pub proof fn lemma_constant_words(i: i32, b: bool)
    ensures
        tag_int_spec(i) != none_word(),
        tag_int_spec(i) != bool_word(b),
        none_word() != bool_word(b),
        !word_is_int(none_word()),
        !word_is_int(bool_word(b)),
        !word_is_unfrozen(none_word()),
        !word_is_unfrozen(bool_word(b)),
        !word_is_unfrozen(tag_int_spec(i)),
        word_is_int(tag_int_spec(i)),
        untag_int_spec(tag_int_spec(i)) == i,
{
    lemma_tag_int(i);
    assert(8u64 & 2u64 == 0 && 16u64 & 2u64 == 0 && 24u64 & 2u64 == 0 && 8u64 & 1u64 == 0 && 16u64
        & 1u64 == 0 && 24u64 & 1u64 == 0) by (bit_vector);
}

} // verus!
