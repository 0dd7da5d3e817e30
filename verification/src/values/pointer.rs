//! A value is one 64-bit word. Its three low bits are tags:
//!
//! * `?00`: a pointer to a frozen object
//! * `?01`: a pointer to an object that is not frozen
//! * `?10`: a 32-bit integer, held in the word itself
//!
//! The third bit marks a pointer whose referent is a string.

use vstd::prelude::*;

verus! {

/// The three low bits of a word.
pub const TAG_BITS: u64 = 0b111;

/// Set when the word holds an integer rather than a pointer.
pub const TAG_INT: u64 = 0b010;

/// Set when the referent is a string.
pub const TAG_STR: u64 = 0b100;

/// Set when the referent is not frozen. An object can go from unfrozen to
/// frozen, never back.
pub const TAG_UNFROZEN: u64 = 0b001;

/// The bits of a word that hold the integer's 32 bits.
pub const INT_DATA_MASK: u64 = 0x7_ffff_fff8;

/// What a word holds: the address it points to, or the integer inside it.
#[derive(Clone, Copy, Debug, PartialEq, Eq, Structural)]
pub enum Either<L, R> {
    Left(L),
    Right(R),
}

/// The word that holds `x`: the 32 bits of `x` above the tags, with the
/// integer tag set.
pub open spec fn tag_int_spec(x: i32) -> u64 {
    (((x as u32) as u64) << 3) | TAG_INT
}

/// The integer in an integer word: an arithmetic shift that drops the tags
/// and keeps the sign.
pub open spec fn untag_int_spec(x: u64) -> i32 {
    ((x as i64) >> 3) as i32
}

/// The address in a pointer word: the word without its tags.
pub open spec fn untag_pointer_spec(x: u64) -> u64 {
    x & !TAG_BITS
}

/// A word is an integer word when its integer tag is set.
pub open spec fn word_is_int(x: u64) -> bool {
    x & TAG_INT != 0
}

/// A word is unfrozen when its unfrozen tag is set.
pub open spec fn word_is_unfrozen(x: u64) -> bool {
    x & TAG_UNFROZEN != 0
}

/// A word is a string when its string tag is set.
pub open spec fn word_is_str(x: u64) -> bool {
    x & TAG_STR != 0
}

/// A word is a well-formed integer word when nothing but the integer tag
/// surrounds the 32 bits of data.
pub open spec fn word_is_tagged_int(x: u64) -> bool {
    x & !INT_DATA_MASK == TAG_INT
}

/// What a word unpacks to.
pub open spec fn unpack_spec(x: u64) -> Either<u64, i32> {
    if word_is_int(x) {
        Either::Right(untag_int_spec(x))
    } else {
        Either::Left(untag_pointer_spec(x))
    }
}

/// An integer word holds only its own tag, is never zero, and gives its
/// integer back.
pub proof fn lemma_tag_int(x: i32)
    ensures
        untag_int_spec(tag_int_spec(x)) == x,
        word_is_tagged_int(tag_int_spec(x)),
        tag_int_spec(x) & TAG_BITS == TAG_INT,
        tag_int_spec(x) != 0,
        word_is_int(tag_int_spec(x)),
        !word_is_unfrozen(tag_int_spec(x)),
        !word_is_str(tag_int_spec(x)),
{
    let w = tag_int_spec(x);
    assert(((((((x as u32) as u64) << 3) | 2u64) as i64) >> 3) as i32 == x) by (bit_vector);
    assert({
        &&& ((((x as u32) as u64) << 3) | 2u64) & !0x7_ffff_fff8u64 == 2u64
        &&& ((((x as u32) as u64) << 3) | 2u64) & 7u64 == 2u64
        &&& ((((x as u32) as u64) << 3) | 2u64) != 0
        &&& ((((x as u32) as u64) << 3) | 2u64) & 2u64 != 0
        &&& ((((x as u32) as u64) << 3) | 2u64) & 1u64 == 0
        &&& ((((x as u32) as u64) << 3) | 2u64) & 4u64 == 0
    }) by (bit_vector);
}

/// A well-formed integer word is the word of the integer it holds.
pub proof fn lemma_untag_int(x: u64)
    requires
        word_is_tagged_int(x),
    ensures
        tag_int_spec(untag_int_spec(x)) == x,
{
    assert(x & !0x7_ffff_fff8u64 == 2u64 ==> ((((((x as i64) >> 3) as i32) as u32) as u64) << 3)
        | 2u64 == x) by (bit_vector);
}

/// Tagging an aligned address keeps the address and sets exactly the tags
/// asked for.
pub proof fn lemma_tag_pointer(x: u64, str_tag: bool, unfrozen: bool)
    requires
        x & TAG_BITS == 0,
    ensures
        ({
            let w = x | (if str_tag { TAG_STR } else { 0 }) | (if unfrozen { TAG_UNFROZEN } else { 0 });
            &&& untag_pointer_spec(w) == x
            &&& !word_is_int(w)
            &&& word_is_str(w) == str_tag
            &&& word_is_unfrozen(w) == unfrozen
            &&& (w == 0 <==> x == 0 && !str_tag && !unfrozen)
        }),
{
    assert(x & 7u64 == 0 ==> {
        &&& (x | 0u64 | 0u64) & !7u64 == x
        &&& (x | 4u64 | 0u64) & !7u64 == x
        &&& (x | 0u64 | 1u64) & !7u64 == x
        &&& (x | 4u64 | 1u64) & !7u64 == x
        &&& (x | 0u64 | 0u64) & 2u64 == 0
        &&& (x | 4u64 | 0u64) & 2u64 == 0
        &&& (x | 0u64 | 1u64) & 2u64 == 0
        &&& (x | 4u64 | 1u64) & 2u64 == 0
        &&& (x | 0u64 | 0u64) & 4u64 == 0
        &&& (x | 4u64 | 0u64) & 4u64 != 0
        &&& (x | 0u64 | 1u64) & 4u64 == 0
        &&& (x | 4u64 | 1u64) & 4u64 != 0
        &&& (x | 0u64 | 0u64) & 1u64 == 0
        &&& (x | 4u64 | 0u64) & 1u64 == 0
        &&& (x | 0u64 | 1u64) & 1u64 != 0
        &&& (x | 4u64 | 1u64) & 1u64 != 0
        &&& (x | 0u64 | 0u64) == x
        &&& (x | 4u64 | 0u64) != 0
        &&& (x | 0u64 | 1u64) != 0
        &&& (x | 4u64 | 1u64) != 0
    }) by (bit_vector);
}

/// The word that holds `x`.
pub fn tag_int(x: i32) -> (r: u64)
    ensures
        r == tag_int_spec(x),
{
    (((x as u32) as u64) << 3) | TAG_INT
}

/// The integer that a well-formed integer word holds.
pub fn untag_int(x: u64) -> (r: i32)
    requires
        word_is_tagged_int(x),
    ensures
        r == untag_int_spec(x),
        tag_int_spec(r) == x,
{
    proof {
        lemma_untag_int(x);
    }
    ((x as i64) >> 3) as i32
}

/// The address in a word: the word without its tags.
pub fn untag_pointer(x: u64) -> (r: u64)
    ensures
        r == untag_pointer_spec(x),
{
    x & !TAG_BITS
}

/// A tagged word that points into either heap, or holds an integer.
///
/// The word is never zero.
#[derive(Clone, Copy, Debug, PartialEq, Eq, Structural)]
pub struct Pointer {
    pointer: u64,
}

/// A tagged word that points into the frozen heap, or holds an integer.
///
/// The word is never zero and its unfrozen tag is clear, so it widens to a
/// [`Pointer`] without loss; a `Pointer` narrows only when its tag is clear.
#[derive(Clone, Copy, Debug, PartialEq, Eq, Structural)]
pub struct FrozenPointer {
    pointer: u64,
}

impl View for Pointer {
    type V = u64;

    /// The word itself.
    closed spec fn view(&self) -> u64 {
        self.pointer
    }
}

impl View for FrozenPointer {
    type V = u64;

    /// The word itself.
    closed spec fn view(&self) -> u64 {
        self.pointer
    }
}

impl Pointer {
    #[verifier::type_invariant]
    spec fn type_inv(self) -> bool {
        &&& self.pointer != 0
        &&& word_is_int(self.pointer) ==> word_is_tagged_int(self.pointer)
    }

    /// Two pointers with the same word are the same pointer.
    pub proof fn lemma_view_injective(self, other: Pointer)
        requires
            self@ == other@,
        ensures
            self == other,
    {
    }

    /// The pointer with the word `w`.
    pub closed spec fn from_word(w: u64) -> Pointer {
        Pointer { pointer: w }
    }

    /// The pointer with the word `w` has that word.
    pub proof fn lemma_from_word(w: u64)
        ensures
            Self::from_word(w)@ == w,
    {
    }

    /// The pointer that a frozen pointer widens to.
    pub closed spec fn from_frozen(frozen: FrozenPointer) -> Pointer {
        Pointer { pointer: frozen.pointer }
    }

    /// Widening keeps the word.
    pub proof fn lemma_from_frozen(frozen: FrozenPointer)
        ensures
            Self::from_frozen(frozen)@ == frozen@,
    {
    }

    /// The pointer with the word `pointer`.
    fn new(pointer: u64) -> (p: Self)
        requires
            pointer != 0,
            word_is_int(pointer) ==> word_is_tagged_int(pointer),
        ensures
            p@ == pointer,
    {
        Pointer { pointer }
    }

    /// Tags the aligned address `x` as an unfrozen pointer, to a string if
    /// `is_string`.
    pub fn new_unfrozen_usize(x: u64, is_string: bool) -> (p: Self)
        requires
            x & TAG_BITS == 0,
        ensures
            p@ == x | (if is_string { TAG_STR } else { 0 }) | TAG_UNFROZEN,
            unpack_spec(p@) == Either::<u64, i32>::Left(x),
            word_is_unfrozen(p@),
            word_is_str(p@) == is_string,
    {
        proof {
            lemma_tag_pointer(x, is_string, true);
        }
        let x = if is_string { x | TAG_STR } else { x };
        assert(x | TAG_UNFROZEN == x | 0 | TAG_UNFROZEN) by (bit_vector);
        Self::new(x | TAG_UNFROZEN)
    }

    /// Tags as an unfrozen pointer an address that may already carry the
    /// string tag.
    pub fn new_unfrozen_usize_with_str_tag(x: u64) -> (p: Self)
        requires
            x & TAG_BITS & !TAG_STR == 0,
        ensures
            p@ == x | TAG_UNFROZEN,
            unpack_spec(p@) == Either::<u64, i32>::Left(untag_pointer_spec(x)),
            word_is_unfrozen(p@),
            word_is_str(p@) == word_is_str(x),
    {
        assert(x & 7u64 & !4u64 == 0 ==> {
            &&& (x | 1u64) != 0
            &&& (x | 1u64) & 2u64 == 0
            &&& (x | 1u64) & !7u64 == x & !7u64
            &&& (x | 1u64) & 1u64 != 0
            &&& (x | 1u64) & 4u64 == x & 4u64
        }) by (bit_vector);
        Self::new(x | TAG_UNFROZEN)
    }

    /// Is the referent a string? A single-bit test.
    pub fn is_str(self) -> (b: bool)
        ensures
            b == word_is_str(self@),
    {
        (self.pointer & TAG_STR) != 0
    }

    /// Does the referent live in the mutable heap? A single-bit test.
    pub fn is_unfrozen(self) -> (b: bool)
        ensures
            b == word_is_unfrozen(self@),
    {
        (self.pointer & TAG_UNFROZEN) != 0
    }

    /// The address pointed to, or the integer held.
    pub fn unpack(self) -> (r: Either<u64, i32>)
        ensures
            r == unpack_spec(self@),
    {
        proof {
            use_type_invariant(self);
        }
        let p = self.pointer;
        if p & TAG_INT == 0 {
            Either::Left(untag_pointer(p))
        } else {
            Either::Right(untag_int(p))
        }
    }

    /// The integer held, if the word holds one.
    pub fn unpack_int(self) -> (r: Option<i32>)
        ensures
            r == (if word_is_int(self@) {
                Some(untag_int_spec(self@))
            } else {
                None
            }),
            r matches Some(i) ==> tag_int_spec(i) == self@,
    {
        proof {
            use_type_invariant(self);
        }
        let p = self.pointer;
        if p & TAG_INT == 0 {
            None
        } else {
            Some(untag_int(p))
        }
    }

    /// The address pointed to, if the word holds one.
    pub fn unpack_ptr(self) -> (r: Option<u64>)
        ensures
            r == (if word_is_int(self@) {
                None
            } else {
                Some(untag_pointer_spec(self@))
            }),
    {
        let p = self.pointer;
        if p & TAG_INT == 0 {
            Some(untag_pointer(p))
        } else {
            None
        }
    }

    /// The address pointed to, for a word known not to hold an integer.
    pub fn unpack_ptr_no_int_unchecked(self) -> (r: u64)
        requires
            !word_is_int(self@),
        ensures
            r == untag_pointer_spec(self@),
    {
        untag_pointer(self.pointer)
    }

    /// The integer held, for a word known to hold one.
    pub fn unpack_int_unchecked(self) -> (r: i32)
        requires
            self@ & TAG_BITS == TAG_INT,
        ensures
            r == untag_int_spec(self@),
            tag_int_spec(r) == self@,
    {
        proof {
            use_type_invariant(self);
        }
        let p = self.pointer;
        assert(p & 7u64 == 2u64 ==> p & 2u64 != 0) by (bit_vector);
        untag_int(p)
    }

    /// Identity of the two words: the same object or the same integer, not
    /// structural equality.
    pub fn ptr_eq(self, other: Pointer) -> (b: bool)
        ensures
            b == (self@ == other@),
    {
        self.pointer == other.pointer
    }

    /// The raw word.
    pub fn ptr_value(self) -> (r: u64)
        ensures
            r == self@,
            r != 0,
    {
        proof {
            use_type_invariant(self);
        }
        self.pointer
    }

    /// The same pointer, for a heap that is known to live as long.
    pub fn cast_lifetime(self) -> (p: Pointer)
        ensures
            p == self,
    {
        self
    }

    /// Narrows a pointer whose unfrozen tag is clear.
    pub fn to_frozen_pointer(self) -> (p: FrozenPointer)
        requires
            !word_is_unfrozen(self@),
        ensures
            p@ == self@,
    {
        proof {
            use_type_invariant(self);
        }
        FrozenPointer { pointer: self.pointer }
    }
}

impl FrozenPointer {
    #[verifier::type_invariant]
    spec fn type_inv(self) -> bool {
        &&& self.pointer != 0
        &&& self.pointer & TAG_UNFROZEN == 0
        &&& word_is_int(self.pointer) ==> word_is_tagged_int(self.pointer)
    }

    /// The frozen pointer with the word `w`.
    pub closed spec fn from_word(w: u64) -> FrozenPointer {
        FrozenPointer { pointer: w }
    }

    /// The frozen pointer with the word `w` has that word.
    pub proof fn lemma_from_word(w: u64)
        ensures
            Self::from_word(w)@ == w,
    {
    }

    /// Two frozen pointers with the same word are the same pointer.
    pub proof fn lemma_view_injective(self, other: FrozenPointer)
        requires
            self@ == other@,
        ensures
            self == other,
    {
    }

    /// The frozen pointer with the word `pointer`.
    fn new(pointer: u64) -> (p: Self)
        requires
            pointer != 0,
            pointer & TAG_UNFROZEN == 0,
            word_is_int(pointer) ==> word_is_tagged_int(pointer),
        ensures
            p@ == pointer,
    {
        FrozenPointer { pointer }
    }

    /// Tags the aligned address `x` as a frozen pointer, to a string if
    /// `is_string`. With no tag to set, the address itself must not be zero.
    pub fn new_frozen_usize(x: u64, is_string: bool) -> (p: Self)
        requires
            x & TAG_BITS == 0,
            x != 0 || is_string,
        ensures
            p@ == x | (if is_string { TAG_STR } else { 0 }),
            unpack_spec(p@) == Either::<u64, i32>::Left(x),
            !word_is_unfrozen(p@),
            word_is_str(p@) == is_string,
    {
        proof {
            lemma_tag_pointer(x, is_string, false);
        }
        let x = if is_string { x | TAG_STR } else { x };
        assert(x | 0 == x) by (bit_vector);
        Self::new(x)
    }

    /// Takes as a frozen pointer an address that may already carry the
    /// string tag.
    pub fn new_frozen_usize_with_str_tag(x: u64) -> (p: Self)
        requires
            x & TAG_BITS & !TAG_STR == 0,
            x != 0,
        ensures
            p@ == x,
            unpack_spec(p@) == Either::<u64, i32>::Left(untag_pointer_spec(x)),
    {
        assert(x & 7u64 & !4u64 == 0 ==> x & 1u64 == 0 && x & 2u64 == 0) by (bit_vector);
        Self::new(x)
    }

    /// The word that holds the integer `x`. Nothing is allocated.
    pub fn new_int(x: i32) -> (p: Self)
        ensures
            p@ == tag_int_spec(x),
            unpack_spec(p@) == Either::<u64, i32>::Right(x),
    {
        proof {
            lemma_tag_int(x);
        }
        Self::new(tag_int(x))
    }

    /// Widens to a pointer over either heap. The word is unchanged.
    pub fn to_pointer(self) -> (p: Pointer)
        ensures
            p == Pointer::from_frozen(self),
            p@ == self@,
            !word_is_unfrozen(p@),
    {
        proof {
            use_type_invariant(self);
        }
        Pointer { pointer: self.pointer }
    }

    /// The raw word.
    pub fn ptr_value(self) -> (r: u64)
        ensures
            r == self@,
            r != 0,
    {
        proof {
            use_type_invariant(self);
        }
        self.pointer
    }

    /// The address pointed to, or the integer held.
    pub fn unpack(self) -> (r: Either<u64, i32>)
        ensures
            r == unpack_spec(self@),
    {
        self.to_pointer().unpack()
    }

    /// The integer held, if the word holds one.
    pub fn unpack_int(self) -> (r: Option<i32>)
        ensures
            r == (if word_is_int(self@) {
                Some(untag_int_spec(self@))
            } else {
                None
            }),
            r matches Some(i) ==> tag_int_spec(i) == self@,
    {
        self.to_pointer().unpack_int()
    }

    /// The address pointed to, for a word known not to hold an integer.
    pub fn unpack_ptr_no_int_unchecked(self) -> (r: u64)
        requires
            !word_is_int(self@),
        ensures
            r == untag_pointer_spec(self@),
    {
        untag_pointer(self.pointer)
    }

    /// The integer held, for a word known to hold one.
    pub fn unpack_int_unchecked(self) -> (r: i32)
        requires
            self@ & TAG_BITS == TAG_INT,
        ensures
            r == untag_int_spec(self@),
            tag_int_spec(r) == self@,
    {
        proof {
            use_type_invariant(self);
        }
        let p = self.pointer;
        assert(p & 7u64 == 2u64 ==> p & 2u64 != 0) by (bit_vector);
        untag_int(p)
    }

    /// The address pointed to, for a word known to carry no tag at all. The
    /// word is then the address.
    pub fn unpack_ptr_no_int_no_str_unchecked(self) -> (r: u64)
        requires
            self@ & TAG_BITS == 0,
        ensures
            r == self@,
            r == untag_pointer_spec(self@),
    {
        let p = self.pointer;
        assert(p & 7u64 == 0 ==> p & !7u64 == p) by (bit_vector);
        p
    }
}

/// An integer survives the round trip through a word, and its word is never
/// taken for a pointer.
pub proof fn lemma_int_round_trip(i: i32)
    ensures
        unpack_spec(tag_int_spec(i)) == Either::<u64, i32>::Right(i),
        word_is_int(tag_int_spec(i)),
{
    lemma_tag_int(i);
}

/// Widening a frozen pointer changes neither what it unpacks to nor its raw
/// word.
pub proof fn lemma_widening_preserves(frozen: FrozenPointer, wide: Pointer)
    requires
        wide@ == frozen@,
    ensures
        unpack_spec(wide@) == unpack_spec(frozen@),
        wide@ == frozen@,
        word_is_unfrozen(wide@) == word_is_unfrozen(frozen@),
{
}

} // verus!
