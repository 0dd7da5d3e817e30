//! A hash value, and a key that carries its hash.

use vstd::prelude::*;

use crate::collections::hasher::{hash_of, Hashable, StarlarkHasher};

verus! {

/// A 32-bit hash value, as the canonical hasher produces it. It must be
/// well mixed.
#[derive(Clone, Copy, Debug, PartialEq, Eq, Structural, Hash, Default)]
pub struct StarlarkHashValue(u32);

/// A key and its hash.
#[derive(Clone, Copy, Debug)]
pub struct Hashed<K> {
    hash: StarlarkHashValue,
    key: K,
}

/// A borrowed key and its hash.
pub struct BorrowHashed<'a, Q> {
    hash: StarlarkHashValue,
    key: &'a Q,
}

impl View for StarlarkHashValue {
    type V = u32;

    /// The 32 bits.
    closed spec fn view(&self) -> u32 {
        self.0
    }
}

/// The final mixing step of MurmurHash3 on 64 bits.
pub open spec fn fmix64(h: u64) -> u64 {
    let h = h ^ (h >> 33);
    let h = h.wrapping_mul(0xff51afd7ed558ccd);
    let h = h ^ (h >> 33);
    let h = h.wrapping_mul(0xc4ceb9fe1a85ec53);
    h ^ (h >> 33)
}

/// The 64-bit hash that a 32-bit hash is filed under in an index: a
/// multiplication that spreads the 32 bits over the 64.
pub open spec fn mix_u32(n: u32) -> u64 {
    (n as u64).wrapping_mul(0x9e3779b97f4a7c15)
}

impl StarlarkHashValue {
    /// Two hash values with the same bits are the same hash value.
    pub proof fn lemma_same_bits(self, other: StarlarkHashValue)
        requires
            self@ == other@,
        ensures
            self == other,
    {
    }

    /// The canonical hash of `key`.
    pub fn new<K: Hashable>(key: &K) -> (h: Self)
        ensures
            h@ == hash_of::<K>(key@),
    {
        let mut hasher = StarlarkHasher::new();
        key.feed(&mut hasher);
        hasher.finish_small()
    }

    /// Takes `hash` as a hash value. It is expected to be well mixed, or
    /// there may be many collisions.
    pub fn new_unchecked(hash: u32) -> (h: Self)
        ensures
            h@ == hash,
    {
        StarlarkHashValue(hash)
    }

    /// The hash of a 64-bit integer, which may itself be a hash that is not
    /// well mixed.
    pub fn hash_64(h: u64) -> (r: Self)
        ensures
            r@ == fmix64(h) as u32,
    {
        let h = h ^ (h >> 33);
        let h = h.wrapping_mul(0xff51afd7ed558ccd);
        let h = h ^ (h >> 33);
        let h = h.wrapping_mul(0xc4ceb9fe1a85ec53);
        let h = h ^ (h >> 33);
        StarlarkHashValue(h as u32)
    }

    /// The 32 bits.
    pub fn get(self) -> (r: u32)
        ensures
            r == self@,
    {
        self.0
    }

    /// The 64-bit hash to file this hash under in an index.
    pub fn promote(self) -> (r: u64)
        ensures
            r == mix_u32(self@),
    {
        (self.0 as u64).wrapping_mul(0x9e3779b97f4a7c15)
    }
}

impl<'a, Q> Clone for BorrowHashed<'a, Q> {
    fn clone(&self) -> (r: Self)
        ensures
            r == *self,
    {
        BorrowHashed { hash: self.hash, key: self.key }
    }
}

impl<'a, Q> Copy for BorrowHashed<'a, Q> {

}

impl<'a, Q> BorrowHashed<'a, Q> {
    /// The hash carried.
    pub closed spec fn spec_hash(&self) -> StarlarkHashValue {
        self.hash
    }

    /// The key borrowed.
    pub closed spec fn spec_key(&self) -> &'a Q {
        self.key
    }

    /// Borrows `key` and computes its canonical hash.
    pub fn new(key: &'a Q) -> (r: Self) where Q: Hashable
        ensures
            r.spec_key() == key,
            r.spec_hash()@ == hash_of::<Q>(key@),
            r.wf(),
    {
        Self::new_unchecked(StarlarkHashValue::new(key), key)
    }

    /// Pairs `key` with `hash`, which the caller has from elsewhere. If it
    /// is not the canonical hash of the key, the pair is not well formed,
    /// and no map takes it.
    pub fn new_unchecked(hash: StarlarkHashValue, key: &'a Q) -> (r: Self)
        ensures
            r.spec_key() == key,
            r.spec_hash() == hash,
    {
        BorrowHashed { hash, key }
    }

    /// The hash carried.
    #[verifier::when_used_as_spec(spec_hash)]
    pub fn hash(&self) -> (h: StarlarkHashValue)
        ensures
            h == self.spec_hash(),
    {
        self.hash
    }

    /// The key borrowed.
    #[verifier::when_used_as_spec(spec_key)]
    pub fn key(&self) -> (k: &'a Q)
        ensures
            k == self.spec_key(),
    {
        self.key
    }

    /// The hash carried is the canonical hash of the key.
    pub open spec fn wf(&self) -> bool where Q: Hashable {
        self.spec_hash()@ == hash_of::<Q>(self.spec_key()@)
    }

    /// Is this the key of `key`? The hashes are compared first.
    pub fn equivalent(&self, key: &Hashed<Q>) -> (b: bool) where Q: Hashable
        ensures
            b == (self.spec_hash() == key.spec_hash() && self.spec_key()@ == key.spec_key()@),
    {
        self.hash == key.hash && self.key.same(&key.key)
    }
}

impl<'a, Q: Clone> BorrowHashed<'a, Q> {
    /// The same hash with a clone of the key.
    pub fn unborrow_clone(&self) -> (r: Hashed<Q>)
        ensures
            r.spec_hash() == self.spec_hash(),
            cloned::<Q>(*self.spec_key(), r.spec_key()),
    {
        Hashed::new_unchecked(self.hash, self.key.clone())
    }
}

impl<'a, Q: Copy> BorrowHashed<'a, Q> {
    /// The same hash with a copy of the key.
    pub fn unborrow_copy(&self) -> (r: Hashed<Q>)
        ensures
            r.spec_hash() == self.spec_hash(),
            r.spec_key() == *self.spec_key(),
    {
        Hashed::new_unchecked(self.hash, *self.key)
    }
}

impl<K> core::ops::Deref for Hashed<K> {
    type Target = K;

    /// The key carried.
    fn deref(&self) -> (k: &K)
        ensures
            *k == self.spec_key(),
    {
        &self.key
    }
}

impl<K> Hashed<K> {
    /// The hash carried.
    pub closed spec fn spec_hash(&self) -> StarlarkHashValue {
        self.hash
    }

    /// The key carried.
    pub closed spec fn spec_key(&self) -> K {
        self.key
    }

    /// The hash carried is the canonical hash of the key.
    pub open spec fn wf(&self) -> bool where K: Hashable {
        self.spec_hash()@ == hash_of::<K>(self.spec_key()@)
    }

    /// Pairs `key` with its canonical hash.
    pub fn new(key: K) -> (r: Self) where K: Hashable
        ensures
            r.spec_key() == key,
            r.spec_hash()@ == hash_of::<K>(key@),
            r.wf(),
    {
        Self::new_unchecked(StarlarkHashValue::new(&key), key)
    }

    /// Pairs `key` with `hash`, which the caller has from elsewhere. If it
    /// is not the canonical hash of the key, the pair is not well formed,
    /// and no map takes it.
    pub fn new_unchecked(hash: StarlarkHashValue, key: K) -> (r: Self)
        ensures
            r.spec_key() == key,
            r.spec_hash() == hash,
    {
        Hashed { hash, key }
    }

    /// The key carried.
    pub fn key(&self) -> (k: &K)
        ensures
            *k == self.spec_key(),
    {
        &self.key
    }

    /// The key carried, to be changed in place. The hash stays as it is:
    /// after a change to the key the pair is well formed only if the hash
    /// still fits.
    pub fn key_mut(&mut self) -> (k: &mut K)
        ensures
            *k == old(self).spec_key(),
            final(self).spec_key() == *final(k),
            final(self).spec_hash() == old(self).spec_hash(),
    {
        &mut self.key
    }

    /// The key alone.
    pub fn into_key(self) -> (k: K)
        ensures
            k == self.spec_key(),
    {
        self.key
    }

    /// The hash carried.
    pub fn hash(&self) -> (h: StarlarkHashValue)
        ensures
            h == self.spec_hash(),
    {
        self.hash
    }

    /// The same hash with the key borrowed.
    pub fn borrow(&self) -> (r: BorrowHashed<'_, K>)
        ensures
            r.spec_hash() == self.spec_hash(),
            *r.spec_key() == self.spec_key(),
    {
        BorrowHashed::new_unchecked(self.hash, &self.key)
    }
}

/// A key hashed on its own and a key hashed through a borrow carry the same
/// hash: the canonical hash of the key.
pub proof fn lemma_hashed_consistent<K: Hashable>(owned: Hashed<K>, borrowed: BorrowHashed<'_, K>)
    requires
        owned.wf(),
        borrowed.wf(),
        owned.spec_key()@ == borrowed.spec_key()@,
    ensures
        owned.spec_hash() == borrowed.spec_hash(),
        owned.spec_hash()@ == hash_of::<K>(owned.spec_key()@),
{
}

} // verus!
