//! The records of a map, kept in a vector in insertion order and searched
//! by a linear scan.

use vstd::prelude::*;

use crate::collections::hash::{mix_u32, BorrowHashed, Hashed, StarlarkHashValue};
use crate::collections::hasher::{hash_of, Hashable};

verus! {

/// One record: a key, its hash, and the value it maps to.
#[derive(Clone)]
pub struct Bucket<K, V> {
    pub hash: StarlarkHashValue,
    pub key: K,
    pub value: V,
}

/// The records of a map, in insertion order.
#[derive(Clone)]
pub struct VecMap<K, V> {
    pub buckets: Vec<Bucket<K, V>>,
}

/// The largest capacity that a map is asked for: beyond it, the size of
/// its index in bytes may not fit the address space.
pub open spec fn capacity_limit() -> usize {
    (usize::MAX / 64) as usize
}

/// The position of the record with key `k`, if there is one.
pub open spec fn index_of_key<KV, V>(s: Seq<(KV, V)>, k: KV) -> Option<int> {
    if exists|i: int| 0 <= i < s.len() && s[i].0 == k {
        Some(choose|i: int| 0 <= i < s.len() && s[i].0 == k)
    } else {
        None
    }
}

/// No two records have the same key.
pub open spec fn distinct_keys<KV, V>(s: Seq<(KV, V)>) -> bool {
    forall|i: int, j: int| 0 <= i < j < s.len() ==> s[i].0 != s[j].0
}

/// The value that key `k` maps to, if any.
pub open spec fn lookup<KV, V>(s: Seq<(KV, V)>, k: KV) -> Option<V> {
    match index_of_key(s, k) {
        Some(i) => Some(s[i].1),
        None => None,
    }
}

/// The records after `k` has been set to `v`: a record with that key keeps
/// its place and takes the new value; a new key goes to the end.
pub open spec fn inserted<KV, V>(s: Seq<(KV, V)>, k: KV, v: V) -> Seq<(KV, V)> {
    match index_of_key(s, k) {
        Some(i) => s.update(i, (k, v)),
        None => s.push((k, v)),
    }
}

/// The records after the record with key `k`, if any, has been taken out.
/// Those behind it move up by one.
pub open spec fn removed<KV, V>(s: Seq<(KV, V)>, k: KV) -> Seq<(KV, V)> {
    match index_of_key(s, k) {
        Some(i) => s.remove(i),
        None => s,
    }
}

/// Among distinct keys, the position of a key is the one place it is at.
pub proof fn lemma_index_of_key_is<KV, V>(s: Seq<(KV, V)>, k: KV, i: int)
    requires
        distinct_keys(s),
        0 <= i < s.len(),
        s[i].0 == k,
    ensures
        index_of_key(s, k) == Some(i),
{
    let j = choose|j: int| 0 <= j < s.len() && s[j].0 == k;
    assert(0 <= j < s.len() && s[j].0 == k);
    if j < i {
        assert(s[j].0 != s[i].0);
    } else if i < j {
        assert(s[i].0 != s[j].0);
    }
}

/// A key that no record has is at no position.
pub proof fn lemma_index_of_key_none<KV, V>(s: Seq<(KV, V)>, k: KV)
    requires
        forall|i: int| 0 <= i < s.len() ==> s[i].0 != k,
    ensures
        index_of_key(s, k) is None,
{
}

/// A position found is a position of the key.
pub proof fn lemma_index_of_key_some<KV, V>(s: Seq<(KV, V)>, k: KV)
    ensures
        index_of_key(s, k) matches Some(i) ==> 0 <= i < s.len() && s[i].0 == k,
        index_of_key(s, k) is None ==> forall|i: int| 0 <= i < s.len() ==> s[i].0 != k,
{
}

/// A key that is set for the first time goes to the end, behind every
/// entry that is there.
pub proof fn lemma_insert_new_goes_last<KV, V>(s: Seq<(KV, V)>, k: KV, v: V)
    requires
        forall|i: int| 0 <= i < s.len() ==> s[i].0 != k,
    ensures
        inserted(s, k, v) == s.push((k, v)),
        inserted(s, k, v).len() == s.len() + 1,
{
    lemma_index_of_key_none(s, k);
}

/// A key that is set again keeps its place, and so does every other
/// entry: only the value changes.
pub proof fn lemma_insert_again_keeps_place<KV, V>(s: Seq<(KV, V)>, k: KV, v: V, i: int)
    requires
        distinct_keys(s),
        0 <= i < s.len(),
        s[i].0 == k,
    ensures
        inserted(s, k, v) == s.update(i, (k, v)),
        inserted(s, k, v).len() == s.len(),
        index_of_key(inserted(s, k, v), k) == Some(i),
        forall|j: int| 0 <= j < s.len() && j != i ==> inserted(s, k, v)[j] == s[j],
{
    lemma_index_of_key_is(s, k, i);
    lemma_inserted_distinct(s, k, v);
    lemma_index_of_key_is(inserted(s, k, v), k, i);
}

/// A map never shrinks when a key is set.
pub proof fn lemma_inserted_len<KV, V>(s: Seq<(KV, V)>, k: KV, v: V)
    ensures
        s.len() <= inserted(s, k, v).len() <= s.len() + 1,
{
}

/// Setting a key keeps the keys distinct.
pub proof fn lemma_inserted_distinct<KV, V>(s: Seq<(KV, V)>, k: KV, v: V)
    requires
        distinct_keys(s),
    ensures
        distinct_keys(inserted(s, k, v)),
{
    lemma_index_of_key_some(s, k);
    let t = inserted(s, k, v);
    assert forall|i: int, j: int| 0 <= i < j < t.len() implies t[i].0 != t[j].0 by {
        match index_of_key(s, k) {
            Some(p) => {
                assert(t[i].0 == s[i].0);
                assert(t[j].0 == s[j].0);
            },
            None => {
                if j < s.len() {
                    assert(t[i].0 == s[i].0 && t[j].0 == s[j].0);
                } else {
                    assert(t[i] == s[i]);
                }
            },
        }
    }
}

/// Taking a key out keeps the keys distinct.
pub proof fn lemma_removed_distinct<KV, V>(s: Seq<(KV, V)>, k: KV)
    requires
        distinct_keys(s),
    ensures
        distinct_keys(removed(s, k)),
{
    lemma_index_of_key_some(s, k);
    let t = removed(s, k);
    assert forall|i: int, j: int| 0 <= i < j < t.len() implies t[i].0 != t[j].0 by {
        match index_of_key(s, k) {
            Some(p) => {
                let i0 = if i < p { i } else { i + 1 };
                let j0 = if j < p { j } else { j + 1 };
                assert(t[i] == s[i0] && t[j] == s[j0]);
            },
            None => {},
        }
    }
}

/// `Vec::capacity`: how many elements the vector can hold without
/// allocating again. It is never less than the vector's length.
#[verifier::external_body]
fn vec_capacity<T>(v: &Vec<T>) -> (n: usize)
    ensures
        n >= v@.len(),
{
    v.capacity()
}

impl<K: Hashable, V> View for VecMap<K, V> {
    type V = Seq<(K::V, V)>;

    /// The records in insertion order, each key by its view.
    open spec fn view(&self) -> Seq<(K::V, V)> {
        Seq::new(self.buckets@.len(), |i: int| (self.buckets@[i].key@, self.buckets@[i].value))
    }
}

impl<K: Hashable, V> VecMap<K, V> {
    /// Every record carries the canonical hash of its key, and no two
    /// records have the same key.
    pub open spec fn wf(&self) -> bool {
        &&& distinct_keys(self@)
        &&& forall|i: int|
            0 <= i < self.buckets@.len() ==> (#[trigger] self.buckets@[i]).hash@ == hash_of::<K>(
                self.buckets@[i].key@,
            )
    }

    /// The 64-bit hash that record `i` is filed under in an index.
    pub open spec fn promoted(&self, i: int) -> u64 {
        mix_u32(self.buckets@[i].hash@)
    }

    /// No records.
    pub fn new() -> (r: Self)
        ensures
            r@ == Seq::<(K::V, V)>::empty(),
            r.buckets@.len() == 0,
            r.wf(),
    {
        let r = VecMap { buckets: Vec::new() };
        assert(r@ =~= Seq::<(K::V, V)>::empty());
        r
    }

    /// No records, with room for `n`.
    pub fn with_capacity(n: usize) -> (r: Self)
        ensures
            r@ == Seq::<(K::V, V)>::empty(),
            r.buckets@.len() == 0,
            r.wf(),
    {
        let r = VecMap { buckets: Vec::with_capacity(n) };
        assert(r@ =~= Seq::<(K::V, V)>::empty());
        r
    }

    /// The number of records.
    pub fn len(&self) -> (n: usize)
        ensures
            n == self@.len(),
            n == self.buckets@.len(),
    {
        self.buckets.len()
    }

    /// Are there no records?
    pub fn is_empty(&self) -> (b: bool)
        ensures
            b == (self@.len() == 0),
    {
        self.buckets.len() == 0
    }

    /// How many records there is room for before the records are moved.
    pub fn capacity(&self) -> (n: usize)
        ensures
            n >= self@.len(),
    {
        vec_capacity(&self.buckets)
    }

    /// The 64-bit hash that record `i` is filed under in an index.
    pub fn promoted_hash_at(&self, i: usize) -> (h: u64)
        requires
            i < self.buckets@.len(),
        ensures
            h == self.promoted(i as int),
    {
        self.buckets[i].hash.promote()
    }

    /// Is `key` the key of record `i`?
    pub fn key_matches(&self, i: usize, key: &K) -> (b: bool)
        requires
            i < self.buckets@.len(),
        ensures
            b == (self@[i as int].0 == key@),
    {
        self.buckets[i].key.same(key)
    }

    /// The position of the record with this key, found by a scan that
    /// compares the hashes first.
    pub fn get_index_of_hashed(&self, key: BorrowHashed<K>) -> (r: Option<usize>)
        requires
            self.wf(),
            key.wf(),
        ensures
            r matches Some(i) ==> index_of_key(self@, key.spec_key()@) == Some(i as int),
            r is None ==> index_of_key(self@, key.spec_key()@) is None,
    {
        let mut i: usize = 0;
        let n = self.buckets.len();
        while i < n
            invariant
                n == self.buckets@.len(),
                i <= n,
                self.wf(),
                key.wf(),
                forall|j: int| 0 <= j < i ==> self@[j].0 != key.spec_key()@,
            decreases n - i,
        {
            let b = &self.buckets[i];
            if b.hash == key.hash() && b.key.same(key.key()) {
                proof {
                    lemma_index_of_key_is(self@, key.spec_key()@, i as int);
                }
                return Some(i);
            }
            proof {
                if self@[i as int].0 == key.spec_key()@ {
                    assert(self.buckets@[i as int].hash@ == hash_of::<K>(self.buckets@[i as int].key@));
                    self.buckets@[i as int].hash.lemma_same_bits(key.spec_hash());
                }
            }
            i += 1;
        }
        proof {
            lemma_index_of_key_none(self@, key.spec_key()@);
        }
        None
    }

    /// Adds a record at the end. The key must not be there yet.
    pub fn insert_unique_unchecked(&mut self, key: Hashed<K>, value: V)
        requires
            old(self).wf(),
            key.wf(),
            index_of_key(old(self)@, key.spec_key()@) is None,
        ensures
            final(self).wf(),
            final(self)@ == old(self)@.push((key.spec_key()@, value)),
            final(self).buckets@.len() == old(self).buckets@.len() + 1,
            forall|i: int| 0 <= i < old(self).buckets@.len() ==> final(self).buckets@[i] == old(self).buckets@[i],
            final(self).buckets@[old(self).buckets@.len() as int].hash == key.spec_hash(),
    {
        let hash = key.hash();
        let ghost k = key.spec_key();
        self.buckets.push(Bucket { hash, key: key.into_key(), value });
        proof {
            lemma_index_of_key_some(old(self)@, k@);
            assert(self@ =~= old(self)@.push((k@, value)));
            assert forall|i: int, j: int| 0 <= i < j < self@.len() implies self@[i].0 != self@[j].0 by {
                if j < old(self)@.len() {
                    assert(self@[i] == old(self)@[i] && self@[j] == old(self)@[j]);
                } else {
                    assert(self@[i] == old(self)@[i]);
                }
            }
        }
    }

    /// Takes out the record at position `i`. Those behind it move up by one.
    pub fn remove_at(&mut self, i: usize) -> (r: (K, V))
        requires
            old(self).wf(),
            i < old(self)@.len(),
        ensures
            final(self).wf(),
            final(self)@ == old(self)@.remove(i as int),
            final(self).buckets@ == old(self).buckets@.remove(i as int),
            r.0@ == old(self)@[i as int].0,
            r.1 == old(self)@[i as int].1,
    {
        let b = self.buckets.remove(i);
        proof {
            assert(self@ =~= old(self)@.remove(i as int));
            assert forall|a: int, c: int| 0 <= a < c < self@.len() implies self@[a].0 != self@[c].0 by {
                let a0 = if a < i { a } else { a + 1 };
                let c0 = if c < i { c } else { c + 1 };
                assert(self@[a] == old(self)@[a0] && self@[c] == old(self)@[c0]);
            }
            assert forall|a: int| 0 <= a < self.buckets@.len() implies (#[trigger] self.buckets@[a]).hash@
                == hash_of::<K>(self.buckets@[a].key@) by {
                let a0 = if a < i { a } else { a + 1 };
                assert(self.buckets@[a] == old(self).buckets@[a0]);
            }
        }
        (b.key, b.value)
    }

    /// Takes out the record with this key, if there is one.
    pub fn remove_hashed_entry(&mut self, key: BorrowHashed<K>) -> (r: Option<(K, V)>)
        requires
            old(self).wf(),
            key.wf(),
        ensures
            final(self).wf(),
            final(self)@ == removed(old(self)@, key.spec_key()@),
            r matches Some(e) ==> e.0@ == key.spec_key()@ && Some(e.1) == lookup(
                old(self)@,
                key.spec_key()@,
            ),
            r is None ==> lookup(old(self)@, key.spec_key()@) is None,
    {
        match self.get_index_of_hashed(key) {
            None => None,
            Some(i) => {
                proof {
                    lemma_index_of_key_some(self@, key.spec_key()@);
                }
                Some(self.remove_at(i))
            },
        }
    }

    /// Takes out every record.
    pub fn clear(&mut self)
        ensures
            final(self)@ == Seq::<(K::V, V)>::empty(),
            final(self).wf(),
            final(self).buckets@.len() == 0,
    {
        self.buckets.clear();
        assert(self@ =~= Seq::<(K::V, V)>::empty());
    }
}

/// Hands out the value of each of `buckets`, to be changed in place, behind
/// those that `values` holds already.
fn values_behind<'a, K, V>(buckets: &'a mut [Bucket<K, V>], values: &mut Vec<&'a mut V>)
    ensures
        final(values)@.len() == old(values)@.len() + old(buckets)@.len(),
        forall|i: int| 0 <= i < old(values)@.len() ==> final(values)@[i] == old(values)@[i],
        forall|i: int|
            0 <= i < old(buckets)@.len() ==> *(#[trigger] final(values)@[old(values)@.len() + i])
                == old(buckets)@[i].value,
        final(buckets)@.len() == old(buckets)@.len(),
        forall|i: int|
            0 <= i < old(buckets)@.len() ==> {
                &&& (#[trigger] final(buckets)@[i]).hash == old(buckets)@[i].hash
                &&& final(buckets)@[i].key == old(buckets)@[i].key
                &&& final(buckets)@[i].value == *final(final(values)@[old(values)@.len() + i])
            },
    decreases old(buckets)@.len(),
{
    if buckets.len() == 0 {
        return ;
    }
    let ghost n = values@.len() as int;
    let (first, tail) = buckets.split_at_mut(1);
    match first.first_mut() {
        Some(b) => {
            values.push(&mut b.value);
        },
        None => {},
    }
    let ghost handed = values@;
    let ghost left = tail@;
    values_behind(tail, values);
    proof {
        assert forall|i: int| 0 <= i < old(buckets)@.len() implies *(#[trigger] values@[n + i])
            == old(buckets)@[i].value by {
            if i == 0 {
                assert(values@[n] == handed[n]);
            } else {
                assert(values@[handed.len() + (i - 1)] == values@[n + i]);
                assert(left[i - 1] == old(buckets)@[i]);
            }
        }
    }
}

/// Hands out the key of each of `buckets`, and its value to be changed in
/// place, behind those that `entries` holds already.
fn entries_behind<'a, K, V>(buckets: &'a mut [Bucket<K, V>], entries: &mut Vec<(&'a K, &'a mut V)>)
    ensures
        final(entries)@.len() == old(entries)@.len() + old(buckets)@.len(),
        forall|i: int| 0 <= i < old(entries)@.len() ==> final(entries)@[i] == old(entries)@[i],
        forall|i: int|
            0 <= i < old(buckets)@.len() ==> {
                &&& *(#[trigger] final(entries)@[old(entries)@.len() + i]).0 == old(buckets)@[i].key
                &&& *final(entries)@[old(entries)@.len() + i].1 == old(buckets)@[i].value
            },
        final(buckets)@.len() == old(buckets)@.len(),
        forall|i: int|
            0 <= i < old(buckets)@.len() ==> {
                &&& (#[trigger] final(buckets)@[i]).hash == old(buckets)@[i].hash
                &&& final(buckets)@[i].key == old(buckets)@[i].key
                &&& final(buckets)@[i].value == *final(final(entries)@[old(entries)@.len() + i].1)
            },
    decreases old(buckets)@.len(),
{
    if buckets.len() == 0 {
        return ;
    }
    let ghost n = entries@.len() as int;
    let (first, tail) = buckets.split_at_mut(1);
    match first.first_mut() {
        Some(b) => {
            entries.push((&b.key, &mut b.value));
        },
        None => {},
    }
    let ghost handed = entries@;
    let ghost left = tail@;
    entries_behind(tail, entries);
    proof {
        assert forall|i: int| 0 <= i < old(buckets)@.len() implies *(#[trigger] entries@[n + i]).0
            == old(buckets)@[i].key && *entries@[n + i].1 == old(buckets)@[i].value by {
            if i == 0 {
                assert(entries@[n] == handed[n]);
            } else {
                assert(entries@[handed.len() + (i - 1)] == entries@[n + i]);
                assert(left[i - 1] == old(buckets)@[i]);
            }
        }
    }
}

impl<K, V> VecMap<K, V> {
    /// The values, in insertion order, each to be changed in place. The
    /// keys and their hashes stay as they are.
    pub fn values_mut(&mut self) -> (r: Vec<&mut V>)
        ensures
            r@.len() == old(self).buckets@.len(),
            final(self).buckets@.len() == old(self).buckets@.len(),
            forall|i: int|
                0 <= i < old(self).buckets@.len() ==> *(#[trigger] r@[i]) == old(
                    self,
                ).buckets@[i].value,
            forall|i: int|
                0 <= i < old(self).buckets@.len() ==> {
                    &&& (#[trigger] final(self).buckets@[i]).hash == old(self).buckets@[i].hash
                    &&& final(self).buckets@[i].key == old(self).buckets@[i].key
                    &&& final(self).buckets@[i].value == *final(r@[i])
                },
    {
        let mut r: Vec<&mut V> = Vec::new();
        assert(r@.len() == 0);
        values_behind(self.buckets.as_mut_slice(), &mut r);
        assert forall|i: int| 0 <= i < old(self).buckets@.len() implies *(#[trigger] r@[i]) == old(
            self,
        ).buckets@[i].value by {
            assert(r@[0 + i] == r@[i]);
        }
        r
    }

    /// The entries, in insertion order: each key, and its value to be
    /// changed in place. The keys and their hashes stay as they are.
    pub fn iter_mut(&mut self) -> (r: Vec<(&K, &mut V)>)
        ensures
            r@.len() == old(self).buckets@.len(),
            final(self).buckets@.len() == old(self).buckets@.len(),
            forall|i: int|
                0 <= i < old(self).buckets@.len() ==> {
                    &&& *(#[trigger] r@[i]).0 == old(self).buckets@[i].key
                    &&& *r@[i].1 == old(self).buckets@[i].value
                },
            forall|i: int|
                0 <= i < old(self).buckets@.len() ==> {
                    &&& (#[trigger] final(self).buckets@[i]).hash == old(self).buckets@[i].hash
                    &&& final(self).buckets@[i].key == old(self).buckets@[i].key
                    &&& final(self).buckets@[i].value == *final(r@[i].1)
                },
    {
        let mut r: Vec<(&K, &mut V)> = Vec::new();
        assert(r@.len() == 0);
        entries_behind(self.buckets.as_mut_slice(), &mut r);
        assert forall|i: int| 0 <= i < old(self).buckets@.len() implies *(#[trigger] r@[i]).0
            == old(self).buckets@[i].key && *r@[i].1 == old(self).buckets@[i].value by {
            assert(r@[0 + i] == r@[i]);
        }
        r
    }
}

} // verus!
