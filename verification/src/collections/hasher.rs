//! The canonical hasher, and the values that can be fed to it.

use std::collections::hash_map::DefaultHasher;
use std::hash::Hasher;
use vstd::prelude::*;
use vstd::std_specs::hash::DefaultHasherAdditionalSpecFns;
use vstd::string::StringSliceAdditionalSpecFns;

use crate::collections::hash::StarlarkHashValue;

verus! {

/// The hasher behind every hash in this library. Hashing must be stable:
/// the digest depends on the sequence of writes and on nothing else.
pub struct StarlarkHasher {
    state: DefaultHasher,
}

impl View for StarlarkHasher {
    type V = Seq<Seq<u8>>;

    /// The writes made so far, oldest first.
    closed spec fn view(&self) -> Seq<Seq<u8>> {
        self.state@
    }
}

/// The 64-bit digest of a sequence of writes.
pub open spec fn digest(writes: Seq<Seq<u8>>) -> u64 {
    DefaultHasher::spec_finish(writes)
}

/// The 32-bit hash of a sequence of writes: the low half of the digest.
pub open spec fn small_digest(writes: Seq<Seq<u8>>) -> u32 {
    digest(writes) as u32
}

impl StarlarkHasher {
    /// A hasher that has seen no write.
    pub fn new() -> (h: Self)
        ensures
            h@ == Seq::<Seq<u8>>::empty(),
    {
        StarlarkHasher { state: DefaultHasher::new() }
    }

    /// Feeds one run of bytes.
    pub fn write(&mut self, bytes: &[u8])
        ensures
            final(self)@ == old(self)@.push(bytes@),
    {
        self.state.write(bytes);
    }

    /// Feeds the four bytes of `x`, lowest first.
    pub fn write_u32(&mut self, x: u32)
        ensures
            final(self)@ == old(self)@.push(vstd::bytes::spec_u32_to_le_bytes(x)),
    {
        let bytes = vstd::bytes::u32_to_le_bytes(x);
        self.write(bytes.as_slice());
    }

    /// Feeds the eight bytes of `x`, lowest first.
    pub fn write_u64(&mut self, x: u64)
        ensures
            final(self)@ == old(self)@.push(vstd::bytes::spec_u64_to_le_bytes(x)),
    {
        let bytes = vstd::bytes::u64_to_le_bytes(x);
        self.write(bytes.as_slice());
    }

    /// The digest of the writes so far.
    pub fn finish(&self) -> (r: u64)
        ensures
            r == digest(self@),
    {
        self.state.finish()
    }

    /// The 32-bit hash of the writes so far. Half of the digest is thrown
    /// away; the digest is well mixed, so the low half is as good as any.
    pub fn finish_small(self) -> (h: StarlarkHashValue)
        ensures
            h@ == small_digest(self@),
    {
        let d = self.finish();
        StarlarkHashValue::new_unchecked(d as u32)
    }
}

/// A value that can be hashed by the canonical hasher and compared with
/// another of its type.
///
/// What is fed depends on the value's view alone, so that two values that
/// compare equal have equal hashes.
pub trait Hashable: Sized + View {
    /// The hasher's writes after a value with view `value` has been fed to
    /// a hasher that had seen `writes`.
    spec fn fed(writes: Seq<Seq<u8>>, value: Self::V) -> Seq<Seq<u8>>;

    /// Feeds this value to the hasher.
    fn feed(&self, state: &mut StarlarkHasher)
        ensures
            final(state)@ == Self::fed(old(state)@, self@),
    ;

    /// Are the two values equal?
    fn same(&self, other: &Self) -> (b: bool)
        ensures
            b == (self@ == other@),
    ;
}

/// The canonical 32-bit hash of a value with view `value`.
pub open spec fn hash_of<K: Hashable>(value: K::V) -> u32 {
    small_digest(K::fed(Seq::<Seq<u8>>::empty(), value))
}

impl Hashable for u32 {
    open spec fn fed(writes: Seq<Seq<u8>>, value: u32) -> Seq<Seq<u8>> {
        writes.push(vstd::bytes::spec_u32_to_le_bytes(value))
    }

    fn feed(&self, state: &mut StarlarkHasher) {
        state.write_u32(*self);
    }

    fn same(&self, other: &Self) -> (b: bool) {
        *self == *other
    }
}

impl Hashable for i32 {
    open spec fn fed(writes: Seq<Seq<u8>>, value: i32) -> Seq<Seq<u8>> {
        writes.push(vstd::bytes::spec_u32_to_le_bytes(value as u32))
    }

    fn feed(&self, state: &mut StarlarkHasher) {
        state.write_u32(*self as u32);
    }

    fn same(&self, other: &Self) -> (b: bool) {
        *self == *other
    }
}

impl Hashable for u64 {
    open spec fn fed(writes: Seq<Seq<u8>>, value: u64) -> Seq<Seq<u8>> {
        writes.push(vstd::bytes::spec_u64_to_le_bytes(value))
    }

    fn feed(&self, state: &mut StarlarkHasher) {
        state.write_u64(*self);
    }

    fn same(&self, other: &Self) -> (b: bool) {
        *self == *other
    }
}

impl Hashable for usize {
    open spec fn fed(writes: Seq<Seq<u8>>, value: usize) -> Seq<Seq<u8>> {
        writes.push(vstd::bytes::spec_u64_to_le_bytes(value as u64))
    }

    fn feed(&self, state: &mut StarlarkHasher) {
        state.write_u64(*self as u64);
    }

    fn same(&self, other: &Self) -> (b: bool) {
        *self == *other
    }
}

impl Hashable for bool {
    open spec fn fed(writes: Seq<Seq<u8>>, value: bool) -> Seq<Seq<u8>> {
        writes.push(
            seq![if value {
                1u8
            } else {
                0u8
            }],
        )
    }

    fn feed(&self, state: &mut StarlarkHasher) {
        let bytes: [u8; 1] = [if *self { 1u8 } else { 0u8 }];
        assert(bytes@ =~= seq![if *self { 1u8 } else { 0u8 }]);
        state.write(bytes.as_slice());
    }

    fn same(&self, other: &Self) -> (b: bool) {
        *self == *other
    }
}

impl Hashable for char {
    open spec fn fed(writes: Seq<Seq<u8>>, value: char) -> Seq<Seq<u8>> {
        writes.push(vstd::bytes::spec_u32_to_le_bytes(value as u32))
    }

    fn feed(&self, state: &mut StarlarkHasher) {
        state.write_u32(*self as u32);
    }

    fn same(&self, other: &Self) -> (b: bool) {
        *self == *other
    }
}

/// What a string feeds: its bytes, then one byte that no string holds, so
/// that the strings fed one after another are told apart.
pub open spec fn fed_str(writes: Seq<Seq<u8>>, value: Seq<char>) -> Seq<Seq<u8>> {
    writes.push(vstd::utf8::encode_utf8(value)).push(seq![0xffu8])
}

/// Feeds a string slice: its bytes, then the byte `0xff`.
pub fn feed_str(s: &str, state: &mut StarlarkHasher)
    ensures
        final(state)@ == fed_str(old(state)@, s@),
{
    state.write(s.as_bytes());
    let end: [u8; 1] = [0xffu8];
    assert(end@ =~= seq![0xffu8]);
    state.write(end.as_slice());
}

impl Hashable for String {
    open spec fn fed(writes: Seq<Seq<u8>>, value: Seq<char>) -> Seq<Seq<u8>> {
        fed_str(writes, value)
    }

    fn feed(&self, state: &mut StarlarkHasher) {
        feed_str(self.as_str(), state);
    }

    fn same(&self, other: &Self) -> (b: bool) {
        *self == *other
    }
}

} // verus!
