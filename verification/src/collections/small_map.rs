//! A map with a deterministic iteration order that fits its storage to the
//! number of its entries: a small map is a vector of records searched by a
//! scan; a larger one adds an index of positions, filed by hash.

use vstd::prelude::*;

use crate::collections::hash::{BorrowHashed, Hashed, StarlarkHashValue};
use crate::collections::hasher::{digest, hash_of, Hashable, StarlarkHasher};
use crate::collections::index::{
    index_clear, index_contents, index_find, index_insert, index_len, index_model, index_positions,
    index_remove, index_reserve, index_shift, index_with_capacity, lemma_index_model_len,
    lemma_positions_distinct, shifted, Index,
};
use crate::collections::vec_map::{
    capacity_limit, distinct_keys, index_of_key, inserted, lemma_index_of_key_is,
    lemma_index_of_key_none, lemma_index_of_key_some, lemma_inserted_distinct, lookup, removed,
    Bucket, VecMap,
};

verus! {

/// The largest map that has no index.
pub const NO_INDEX_THRESHOLD: usize = 12;

/// A memory-efficient key-value map that keeps its entries in insertion
/// order.
///
/// Its view is the sequence of its entries, each key by its own view. Keys
/// are told apart by their views, and no two entries have the same key.
#[derive(Clone)]
pub struct SmallMap<K, V> {
    entries: VecMap<K, V>,
    /// The position of each key in `entries`. It is built when the map
    /// grows past `NO_INDEX_THRESHOLD`.
    index: Option<Index>,
}

impl<K: Hashable, V> View for SmallMap<K, V> {
    type V = Seq<(K::V, V)>;

    /// The entries in insertion order.
    closed spec fn view(&self) -> Seq<(K::V, V)> {
        self.entries@
    }
}

impl<K: Hashable, V> Default for SmallMap<K, V> {
    /// An empty map, without an index.
    fn default() -> (r: Self)
        ensures
            r.wf(),
            r@ == Seq::<(K::V, V)>::empty(),
            !r.has_index(),
    {
        SmallMap::new()
    }
}

/// Once the record at `removed` is out of the records and out of the index,
/// moving the positions behind it up by one gives the index of the records
/// that are left.
proof fn lemma_shift_model<K: Hashable, V>(before: &VecMap<K, V>, after: &VecMap<K, V>, removed: usize)
    requires
        removed < before.buckets@.len() <= usize::MAX,
        after.buckets@ == before.buckets@.remove(removed as int),
    ensures
        index_model(before).remove((before.promoted(removed as int), removed)).map(
            |p: (u64, usize)| (p.0, shifted(p.1, removed)),
        ) == index_model(after),
{
    let f = |p: (u64, usize)| (p.0, shifted(p.1, removed));
    let left = index_model(before).remove((before.promoted(removed as int), removed));
    assert forall|q: (u64, usize)| left.map(f).contains(q) == index_model(after).contains(q) by {
        if index_model(after).contains(q) {
            let p1: usize = if q.1 >= removed {
                (q.1 + 1) as usize
            } else {
                q.1
            };
            let p = (q.0, p1);
            assert(after.buckets@[q.1 as int] == before.buckets@[p1 as int]);
            assert(left.contains(p));
            assert(f(p) == q);
        }
        if left.map(f).contains(q) {
            let p = choose|p: (u64, usize)| left.contains(p) && f(p) == q;
            assert(left.contains(p) && f(p) == q);
            assert(after.buckets@[q.1 as int] == before.buckets@[p.1 as int]);
        }
    }
    assert(left.map(f) =~= index_model(after));
}

impl<K: Hashable, V> SmallMap<K, V> {
    /// Does the map have an index?
    pub closed spec fn has_index(&self) -> bool {
        self.index is Some
    }

    /// The map is well formed: every record carries the canonical hash of
    /// its key, no two records have the same key, a map without an index
    /// holds at most `NO_INDEX_THRESHOLD` records, and an index holds
    /// exactly the position of each record, under its promoted hash.
    pub closed spec fn wf(&self) -> bool {
        &&& self.entries.wf()
        &&& match self.index {
            Some(index) => index_contents(index) == index_model(&self.entries),
            None => self.entries@.len() <= NO_INDEX_THRESHOLD,
        }
    }

    /// The index is there because the map needs it: the map has an index
    /// if and only if it holds more than `NO_INDEX_THRESHOLD` entries.
    pub open spec fn index_as_needed(&self) -> bool {
        self.has_index() <==> self@.len() > NO_INDEX_THRESHOLD
    }

    /// What a well-formed map promises to everyone: distinct keys, and an
    /// index once it is large.
    pub proof fn lemma_wf(&self)
        requires
            self.wf(),
        ensures
            distinct_keys(self@),
            self@.len() > NO_INDEX_THRESHOLD ==> self.has_index(),
    {
    }

    /// A map in which one value has changed is as well formed as before.
    proof fn lemma_value_changed(before: Self, after: Self, i: int)
        requires
            before.wf(),
            0 <= i < before.entries.buckets@.len(),
            after.index == before.index,
            after.entries.buckets@.len() == before.entries.buckets@.len(),
            forall|j: int|
                0 <= j < before.entries.buckets@.len() && j != i ==> after.entries.buckets@[j]
                    == before.entries.buckets@[j],
            after.entries.buckets@[i].hash == before.entries.buckets@[i].hash,
            after.entries.buckets@[i].key == before.entries.buckets@[i].key,
        ensures
            after.wf(),
            after@ == before@.update(i, (before@[i].0, after.entries.buckets@[i].value)),
    {
        assert(after@ =~= before@.update(i, (before@[i].0, after.entries.buckets@[i].value)));
        assert(index_model(&after.entries) =~= index_model(&before.entries)) by {
            assert forall|p: (u64, usize)|
                index_model(&after.entries).contains(p) == index_model(&before.entries).contains(
                    p,
                ) by {
                if p.1 < before.entries.buckets@.len() {
                    assert(after.entries.buckets@[p.1 as int].hash == before.entries.buckets@[p.1 as int].hash);
                }
            }
        }
        assert forall|a: int, b: int| 0 <= a < b < after@.len() implies after@[a].0 != after@[b].0 by {
            assert(after@[a].0 == before@[a].0 && after@[b].0 == before@[b].0);
        }
        assert forall|a: int| 0 <= a < after.entries.buckets@.len() implies (
        #[trigger] after.entries.buckets@[a]).hash@ == hash_of::<K>(after.entries.buckets@[a].key@) by {
            assert(before.entries.buckets@[a].hash@ == hash_of::<K>(before.entries.buckets@[a].key@));
        }
    }

    /// The records of `after` are those of `before`, but for their values.
    spec fn values_changed(before: Self, after: Self) -> bool {
        &&& after.index == before.index
        &&& after.entries.buckets@.len() == before.entries.buckets@.len()
        &&& forall|j: int|
            0 <= j < before.entries.buckets@.len() ==> (#[trigger] after.entries.buckets@[j]).hash
                == before.entries.buckets@[j].hash && after.entries.buckets@[j].key
                == before.entries.buckets@[j].key
    }

    /// The map keeps its keys, in their order, and takes the values of
    /// `after`.
    spec fn values_taken(before: Self, after: Self) -> bool {
        &&& after.wf()
        &&& after.has_index() == before.has_index()
        &&& after@.len() == before@.len()
        &&& forall|j: int|
            0 <= j < before@.len() ==> #[trigger] after@[j] == (
                before@[j].0,
                after.entries.buckets@[j].value,
            )
    }

    /// A map in which only values have changed is as well formed as
    /// before, and has the same keys in the same order.
    proof fn lemma_values_changed(before: Self, after: Self)
        requires
            before.wf(),
            Self::values_changed(before, after),
        ensures
            Self::values_taken(before, after),
    {
        assert(index_model(&after.entries) =~= index_model(&before.entries)) by {
            assert forall|p: (u64, usize)|
                index_model(&after.entries).contains(p) == index_model(&before.entries).contains(
                    p,
                ) by {
                if p.1 < before.entries.buckets@.len() {
                    assert(after.entries.buckets@[p.1 as int].hash == before.entries.buckets@[p.1 as int].hash);
                }
            }
        }
        assert(after@.len() == before@.len());
        assert forall|a: int| 0 <= a < after@.len() implies #[trigger] after@[a] == (
            before@[a].0,
            after.entries.buckets@[a].value,
        ) by {
            assert(after.entries.buckets@[a].key == before.entries.buckets@[a].key);
        }
        assert forall|a: int, b: int| 0 <= a < b < after@.len() implies after@[a].0 != after@[b].0 by {
            assert(after@[a].0 == before@[a].0 && after@[b].0 == before@[b].0);
        }
        assert forall|a: int| 0 <= a < after.entries.buckets@.len() implies (
        #[trigger] after.entries.buckets@[a]).hash@ == hash_of::<K>(after.entries.buckets@[a].key@) by {
            assert(before.entries.buckets@[a].hash@ == hash_of::<K>(before.entries.buckets@[a].key@));
            assert(after.entries.buckets@[a].key == before.entries.buckets@[a].key);
        }
    }

    /// The values, in insertion order, each to be changed in place. The
    /// keys stay as they are, in their order.
    pub fn values_mut(&mut self) -> (r: Vec<&mut V>)
        requires
            old(self).wf(),
        ensures
            final(self).wf(),
            final(self).has_index() == old(self).has_index(),
            r@.len() == old(self)@.len(),
            final(self)@.len() == old(self)@.len(),
            forall|i: int|
                0 <= i < old(self)@.len() ==> {
                    &&& *(#[trigger] r@[i]) == old(self)@[i].1
                    &&& final(self)@[i] == (old(self)@[i].0, *final(r@[i]))
                },
    {
        proof {
            let before = *self;
            assert forall|after: Self| Self::values_changed(before, after) implies #[trigger] after.wf()
                && Self::values_taken(before, after) by {
                Self::lemma_values_changed(before, after);
            }
        }
        self.entries.values_mut()
    }

    /// The entries, in insertion order: each key, and its value to be
    /// changed in place. The keys stay as they are, in their order.
    pub fn iter_mut(&mut self) -> (r: Vec<(&K, &mut V)>)
        requires
            old(self).wf(),
        ensures
            final(self).wf(),
            final(self).has_index() == old(self).has_index(),
            r@.len() == old(self)@.len(),
            final(self)@.len() == old(self)@.len(),
            forall|i: int|
                0 <= i < old(self)@.len() ==> {
                    &&& (#[trigger] r@[i]).0@ == old(self)@[i].0
                    &&& *r@[i].1 == old(self)@[i].1
                    &&& final(self)@[i] == (old(self)@[i].0, *final(r@[i].1))
                },
    {
        proof {
            let before = *self;
            assert forall|after: Self| Self::values_changed(before, after) implies #[trigger] after.wf()
                && Self::values_taken(before, after) by {
                Self::lemma_values_changed(before, after);
            }
        }
        self.entries.iter_mut()
    }

    /// How many positions the index holds, if there is one.
    pub closed spec fn index_len(&self) -> Option<nat> {
        match self.index {
            Some(index) => Some(index_contents(index).len()),
            None => None,
        }
    }

    /// The index of a well-formed map holds one position for each entry.
    pub proof fn lemma_index_len(&self)
        requires
            self.wf(),
            self@.len() <= usize::MAX,
        ensures
            self.index_len() matches Some(n) ==> n == self@.len(),
            self.index_len() is Some == self.has_index(),
    {
        lemma_index_model_len(&self.entries, self.entries.buckets@.len() as int);
    }

    /// Checks what a well-formed map promises: that an index holds as
    /// many positions as there are entries, each the position of an entry
    /// and none of them twice, and that a map without an index is small.
    pub fn state_check(&self) -> (ok: bool)
        requires
            self.wf(),
        ensures
            ok,
    {
        let n = self.entries.len();
        proof {
            lemma_index_model_len(&self.entries, n as int);
        }
        match &self.index {
            Some(index) => {
                if index_len(index) != n {
                    return false;
                }
                let positions = index_positions(index);
                proof {
                    assert(index_contents(*index) == index_model(&self.entries));
                    lemma_positions_distinct(&self.entries, positions@);
                }
                let mut set_fields: Vec<bool> = Vec::with_capacity(n);
                let mut i: usize = 0;
                while i < n
                    invariant
                        i <= n,
                        set_fields@.len() == i,
                        forall|j: int| 0 <= j < i ==> !set_fields@[j],
                    decreases n - i,
                {
                    set_fields.push(false);
                    i += 1;
                }
                let mut k: usize = 0;
                while k < n
                    invariant
                        k <= n,
                        n == positions@.len(),
                        set_fields@.len() == n,
                        positions@.no_duplicates(),
                        forall|j: int| 0 <= j < n ==> (#[trigger] positions@[j]) < n,
                        forall|p: int|
                            0 <= p < n ==> (#[trigger] set_fields@[p] ==> exists|j: int|
                                0 <= j < k && positions@[j] == p),
                    decreases n - k,
                {
                    let p = positions[k];
                    if p >= n || set_fields[p] {
                        return false;
                    }
                    set_fields.set(p, true);
                    k += 1;
                }
                true
            },
            None => n <= NO_INDEX_THRESHOLD,
        }
    }

    /// An empty map, without an index.
    pub fn new() -> (r: Self)
        ensures
            r.wf(),
            r@ == Seq::<(K::V, V)>::empty(),
            !r.has_index(),
            r.index_as_needed(),
    {
        SmallMap { entries: VecMap::new(), index: None }
    }

    /// An empty map with room for `n` entries. Asked for more than
    /// `NO_INDEX_THRESHOLD`, it starts with an index.
    pub fn with_capacity(n: usize) -> (r: Self)
        requires
            n <= capacity_limit(),
        ensures
            r.wf(),
            r@ == Seq::<(K::V, V)>::empty(),
            r.has_index() == (n > NO_INDEX_THRESHOLD),
    {
        if n <= NO_INDEX_THRESHOLD {
            SmallMap { entries: VecMap::with_capacity(n), index: None }
        } else {
            let r = SmallMap { entries: VecMap::with_capacity(n), index: Some(index_with_capacity(n)) };
            assert(index_model(&r.entries) =~= Set::<(u64, usize)>::empty());
            r
        }
    }

    /// An empty map with the largest capacity that needs no index.
    pub fn with_capacity_largest_vec() -> (r: Self)
        ensures
            r.wf(),
            r@ == Seq::<(K::V, V)>::empty(),
            !r.has_index(),
    {
        Self::with_capacity(NO_INDEX_THRESHOLD)
    }

    /// Drops the index if the map is small enough to do without. An index
    /// is not built before it is needed, but it is kept when entries are
    /// removed; this gives its memory back. No lookup changes.
    pub fn maybe_drop_index(&mut self)
        requires
            old(self).wf(),
        ensures
            final(self).wf(),
            final(self)@ == old(self)@,
            final(self).has_index() == (old(self).has_index() && old(self)@.len() > NO_INDEX_THRESHOLD),
            final(self).index_as_needed(),
    {
        proof {
            self.lemma_wf();
        }
        if self.entries.len() <= NO_INDEX_THRESHOLD {
            self.index = None;
        }
    }

    /// The largest capacity that a map can be asked for.
    pub fn max_capacity() -> (n: usize)
        ensures
            n == capacity_limit(),
    {
        usize::MAX / 64
    }

    /// The number of entries.
    pub fn len(&self) -> (n: usize)
        ensures
            n == self@.len(),
    {
        self.entries.len()
    }

    /// Has the index been built?
    pub fn is_indexed(&self) -> (b: bool)
        ensures
            b == self.has_index(),
    {
        self.index.is_some()
    }

    /// Is the map without entries?
    pub fn is_empty(&self) -> (b: bool)
        ensures
            b == (self@.len() == 0),
    {
        self.entries.is_empty()
    }

    /// The position of the entry with this key: by a scan of the records in
    /// a map without an index, through the index otherwise.
    pub fn get_index_of_hashed(&self, key: BorrowHashed<K>) -> (r: Option<usize>)
        requires
            self.wf(),
            key.wf(),
        ensures
            r matches Some(i) ==> index_of_key(self@, key.spec_key()@) == Some(i as int),
            r is None ==> index_of_key(self@, key.spec_key()@) is None,
    {
        match &self.index {
            None => self.entries.get_index_of_hashed(key),
            Some(index) => {
                // A position found is a position among the records, whose
                // number fits a `usize`.
                let _ = self.entries.len();
                let r = index_find(index, key.hash().promote(), &self.entries, key.key());
                proof {
                    let k = key.spec_key()@;
                    match r {
                        Some(i) => {
                            let h = choose|h: u64| index_contents(*index).contains((h, i));
                            assert(index_model(&self.entries).contains((h, i)));
                            lemma_index_of_key_is(self@, k, i as int);
                        },
                        None => {
                            assert forall|j: int| 0 <= j < self@.len() implies self@[j].0 != k by {
                                if self@[j].0 == k {
                                    let b = self.entries.buckets@[j];
                                    assert(b.hash@ == hash_of::<K>(b.key@));
                                    assert(index_model(&self.entries).contains(
                                        (self.entries.promoted(j), j as usize),
                                    ));
                                }
                            }
                            lemma_index_of_key_none(self@, k);
                        },
                    }
                }
                r
            },
        }
    }

    /// The value that this key maps to.
    pub fn get_hashed(&self, key: BorrowHashed<K>) -> (r: Option<&V>)
        requires
            self.wf(),
            key.wf(),
        ensures
            r matches Some(v) ==> lookup(self@, key.spec_key()@) == Some(*v),
            r is None ==> lookup(self@, key.spec_key()@) is None,
    {
        match self.get_index_of_hashed(key) {
            None => None,
            Some(index) => {
                proof {
                    lemma_index_of_key_some(self@, key.spec_key()@);
                }
                Some(&self.entries.buckets[index].value)
            },
        }
    }

    /// The value that `key` maps to.
    pub fn get(&self, key: &K) -> (r: Option<&V>)
        requires
            self.wf(),
        ensures
            r matches Some(v) ==> lookup(self@, key@) == Some(*v),
            r is None ==> lookup(self@, key@) is None,
    {
        self.get_hashed(BorrowHashed::new(key))
    }

    /// The position, key and value of the entry with key `key`.
    pub fn get_full(&self, key: &K) -> (r: Option<(usize, &K, &V)>)
        requires
            self.wf(),
        ensures
            r matches Some(e) ==> index_of_key(self@, key@) == Some(e.0 as int) && e.1@ == key@
                && *e.2 == self@[e.0 as int].1,
            r is None ==> index_of_key(self@, key@) is None,
    {
        match self.get_index_of_hashed(BorrowHashed::new(key)) {
            None => None,
            Some(index) => {
                proof {
                    lemma_index_of_key_some(self@, key@);
                }
                let b = &self.entries.buckets[index];
                Some((index, &b.key, &b.value))
            },
        }
    }

    /// The entry at position `index`, if the map has that many.
    pub fn get_index(&self, index: usize) -> (r: Option<(&K, &V)>)
        ensures
            r is Some == (index < self@.len()),
            r matches Some(e) ==> e.0@ == self@[index as int].0 && *e.1 == self@[index as int].1,
    {
        if index < self.entries.len() {
            let b = &self.entries.buckets[index];
            Some((&b.key, &b.value))
        } else {
            None
        }
    }

    /// The position of the entry with key `key`.
    pub fn get_index_of(&self, key: &K) -> (r: Option<usize>)
        requires
            self.wf(),
        ensures
            r matches Some(i) ==> index_of_key(self@, key@) == Some(i as int),
            r is None ==> index_of_key(self@, key@) is None,
    {
        self.get_index_of_hashed(BorrowHashed::new(key))
    }

    /// Does the map have an entry with this key?
    pub fn contains_key_hashed(&self, key: BorrowHashed<K>) -> (b: bool)
        requires
            self.wf(),
            key.wf(),
        ensures
            b == index_of_key(self@, key.spec_key()@).is_some(),
    {
        self.get_index_of_hashed(key).is_some()
    }

    /// Does the map have an entry with key `key`?
    pub fn contains_key(&self, key: &K) -> (b: bool)
        requires
            self.wf(),
        ensures
            b == index_of_key(self@, key@).is_some(),
    {
        self.contains_key_hashed(BorrowHashed::new(key))
    }

    /// Builds the index of a map that has none.
    fn create_index(&mut self, capacity: usize)
        requires
            old(self).entries.wf(),
            old(self).index is None,
            capacity <= capacity_limit(),
        ensures
            final(self).wf(),
            final(self).has_index(),
            final(self).entries == old(self).entries,
    {
        let mut index = index_with_capacity(capacity);
        let n = self.entries.len();
        let mut i: usize = 0;
        while i < n
            invariant
                n == self.entries.buckets@.len(),
                i <= n,
                self.entries == old(self).entries,
                index_contents(index) == Set::new(
                    |p: (u64, usize)| p.1 < i && p.0 == self.entries.promoted(p.1 as int),
                ),
            decreases n - i,
        {
            let h = self.entries.promoted_hash_at(i);
            index_insert(&mut index, h, i, &self.entries);
            i += 1;
            assert(index_contents(index) =~= Set::new(
                |p: (u64, usize)| p.1 < i && p.0 == self.entries.promoted(p.1 as int),
            ));
        }
        assert(index_contents(index) =~= index_model(&self.entries));
        self.index = Some(index);
    }

    /// Adds an entry at the end. The key must not be there yet.
    fn insert_unique_unchecked(&mut self, key: Hashed<K>, val: V)
        requires
            old(self).wf(),
            key.wf(),
            index_of_key(old(self)@, key.spec_key()@) is None,
        ensures
            final(self).wf(),
            final(self)@ == old(self)@.push((key.spec_key()@, val)),
            final(self).has_index() == (old(self).has_index() || final(self)@.len()
                > NO_INDEX_THRESHOLD),
    {
        let hash = key.hash();
        let entry_index = self.entries.len();
        self.entries.insert_unique_unchecked(key, val);
        match &mut self.index {
            Some(index) => {
                index_insert(index, hash.promote(), entry_index, &self.entries);
                assert(index_contents(*index) =~= index_model(&self.entries));
            },
            None => {
                if self.entries.len() == NO_INDEX_THRESHOLD + 1 {
                    self.create_index(self.entries.len());
                }
            },
        }
    }

    /// Sets this key to `val`. A key that is in the map keeps its place and
    /// its old value is returned; a new key goes to the end.
    pub fn insert_hashed(&mut self, key: Hashed<K>, val: V) -> (r: Option<V>)
        requires
            old(self).wf(),
            key.wf(),
        ensures
            final(self).wf(),
            final(self)@ == inserted(old(self)@, key.spec_key()@, val),
            r == lookup(old(self)@, key.spec_key()@),
            final(self).has_index() == (old(self).has_index() || final(self)@.len()
                > NO_INDEX_THRESHOLD),
            old(self).index_as_needed() ==> final(self).index_as_needed(),
    {
        match self.get_index_of_hashed(key.borrow()) {
            None => {
                self.insert_unique_unchecked(key, val);
                None
            },
            Some(i) => {
                proof {
                    lemma_index_of_key_some(self@, key.spec_key()@);
                }
                let ghost before = self.entries;
                let mut prev = val;
                std::mem::swap(&mut self.entries.buckets[i].value, &mut prev);
                proof {
                    assert(self.entries.buckets@.len() == before.buckets@.len());
                    assert(self@ =~= old(self)@.update(i as int, (key.spec_key()@, val)));
                    assert(index_model(&self.entries) =~= index_model(&before));
                    lemma_inserted_distinct(old(self)@, key.spec_key()@, val);
                }
                Some(prev)
            },
        }
    }

    /// Sets `key` to `val`. A key that is in the map keeps its place and
    /// its old value is returned; a new key goes to the end.
    pub fn insert(&mut self, key: K, val: V) -> (r: Option<V>)
        requires
            old(self).wf(),
        ensures
            final(self).wf(),
            final(self)@ == inserted(old(self)@, key@, val),
            r == lookup(old(self)@, key@),
            final(self).has_index() == (old(self).has_index() || final(self)@.len()
                > NO_INDEX_THRESHOLD),
            old(self).index_as_needed() ==> final(self).index_as_needed(),
    {
        self.insert_hashed(Hashed::new(key), val)
    }

    /// Takes out the entry with this key and returns its value. The entries
    /// behind it move up by one.
    pub fn remove_hashed(&mut self, key: BorrowHashed<K>) -> (r: Option<V>)
        requires
            old(self).wf(),
            key.wf(),
        ensures
            final(self).wf(),
            final(self)@ == removed(old(self)@, key.spec_key()@),
            r == lookup(old(self)@, key.spec_key()@),
            final(self).has_index() == old(self).has_index(),
    {
        match self.remove_hashed_entry(key) {
            Some(e) => Some(e.1),
            None => None,
        }
    }

    /// Takes out the entry with this key and returns it. The entries behind
    /// it move up by one; in a map with an index, so does every position
    /// in the index behind it, which takes time in proportion to the size
    /// of the map.
    pub fn remove_hashed_entry(&mut self, key: BorrowHashed<K>) -> (r: Option<(K, V)>)
        requires
            old(self).wf(),
            key.wf(),
        ensures
            final(self).wf(),
            final(self)@ == removed(old(self)@, key.spec_key()@),
            r matches Some(e) ==> e.0@ == key.spec_key()@ && Some(e.1) == lookup(
                old(self)@,
                key.spec_key()@,
            ),
            r is None ==> lookup(old(self)@, key.spec_key()@) is None,
            final(self).has_index() == old(self).has_index(),
    {
        let hash = key.hash();
        if self.index.is_some() {
            let i = match self.get_index_of_hashed(key) {
                Some(i) => i,
                None => {
                    return None;
                },
            };
            let _ = self.entries.len();
            proof {
                lemma_index_of_key_some(self@, key.spec_key()@);
            }
            let h = self.entries.promoted_hash_at(i);
            let ghost before = self.entries;
            match &mut self.index {
                Some(index) => {
                    assert(index_model(&before).contains((h, i)));
                    let found = index_remove(index, h, i);
                    assert(index_contents(*index) == index_model(&before).remove((h, i)));
                    index_shift(index, i);
                    let e = self.entries.remove_at(i);
                    proof {
                        lemma_shift_model(&before, &self.entries, i);
                    }
                    Some(e)
                },
                None => None,
            }
        } else {
            let r = self.entries.remove_hashed_entry(key);
            proof {
                lemma_index_of_key_some(old(self)@, key.spec_key()@);
            }
            r
        }
    }

    /// Takes out the entry with key `key` and returns its value.
    pub fn remove(&mut self, key: &K) -> (r: Option<V>)
        requires
            old(self).wf(),
        ensures
            final(self).wf(),
            final(self)@ == removed(old(self)@, key@),
            r == lookup(old(self)@, key@),
            final(self).has_index() == old(self).has_index(),
    {
        self.remove_hashed(BorrowHashed::new(key))
    }

    /// Takes out the entry with key `key` and returns it.
    pub fn remove_entry(&mut self, key: &K) -> (r: Option<(K, V)>)
        requires
            old(self).wf(),
        ensures
            final(self).wf(),
            final(self)@ == removed(old(self)@, key@),
            r matches Some(e) ==> e.0@ == key@ && Some(e.1) == lookup(old(self)@, key@),
            r is None ==> lookup(old(self)@, key@) is None,
            final(self).has_index() == old(self).has_index(),
    {
        self.remove_hashed_entry(BorrowHashed::new(key))
    }

    /// Takes out the last entry.
    pub fn pop(&mut self) -> (r: Option<(K, V)>)
        requires
            old(self).wf(),
        ensures
            final(self).wf(),
            final(self).has_index() == old(self).has_index(),
            old(self)@.len() == 0 ==> r is None && final(self)@ == old(self)@,
            old(self)@.len() > 0 ==> final(self)@ == old(self)@.drop_last(),
            old(self)@.len() > 0 ==> (r matches Some(e) && e.0@ == old(self)@.last().0 && e.1
                == old(self)@.last().1),
    {
        let ghost before = self.entries;
        match self.entries.buckets.pop() {
            None => {
                assert(index_model(&self.entries) =~= index_model(&before));
                None
            },
            Some(bucket) => {
                let n = self.entries.len();
                proof {
                    assert(self.entries.buckets@ == before.buckets@.drop_last());
                    assert(self@ =~= old(self)@.drop_last());
                    assert(bucket == before.buckets@.last());
                    assert(old(self)@.last() == (bucket.key@, bucket.value));
                    assert forall|i: int| 0 <= i < self.entries.buckets@.len() implies (
                    #[trigger] self.entries.buckets@[i]).hash@ == hash_of::<K>(
                        self.entries.buckets@[i].key@,
                    ) by {
                        assert(self.entries.buckets@[i] == before.buckets@[i]);
                    }
                    assert forall|i: int, j: int| 0 <= i < j < self@.len() implies self@[i].0
                        != self@[j].0 by {
                        assert(self@[i] == old(self)@[i] && self@[j] == old(self)@[j]);
                    }
                }
                match &mut self.index {
                    Some(index) => {
                        let h = bucket.hash.promote();
                        assert(index_model(&before).contains((h, n)));
                        let found = index_remove(index, h, n);
                        proof {
                            let left = index_model(&before).remove((h, n));
                            assert(index_contents(*index) == left);
                            assert forall|p: (u64, usize)| left.contains(p) == index_model(
                                &self.entries,
                            ).contains(p) by {
                                if p.1 < n {
                                    assert(self.entries.buckets@[p.1 as int] == before.buckets@[p.1 as int]);
                                }
                            }
                            assert(left =~= index_model(&self.entries));
                        }
                    },
                    None => {},
                }
                Some((bucket.key, bucket.value))
            },
        }
    }

    /// Takes out every entry. An index is emptied and kept, so that the map
    /// need not build it anew when it is filled again.
    pub fn clear(&mut self)
        requires
            old(self).wf(),
        ensures
            final(self).wf(),
            final(self)@ == Seq::<(K::V, V)>::empty(),
            final(self).has_index() == old(self).has_index(),
    {
        self.entries.clear();
        match &mut self.index {
            Some(index) => {
                index_clear(index);
                assert(index_contents(*index) =~= index_model(&self.entries));
            },
            None => {},
        }
    }

    /// Makes room for `additional` more entries: in the records, and in the
    /// index; a map without an index gets one if it would need it by then.
    pub fn reserve(&mut self, additional: usize)
        requires
            old(self).wf(),
            old(self)@.len() + additional <= capacity_limit(),
        ensures
            final(self).wf(),
            final(self)@ == old(self)@,
            final(self).has_index() == (old(self).has_index() || old(self)@.len() + additional
                > NO_INDEX_THRESHOLD),
    {
        self.entries.buckets.reserve(additional);
        let n = self.entries.len();
        assert(self.entries.buckets@ == old(self).entries.buckets@);
        assert(self@ =~= old(self)@);
        match &mut self.index {
            Some(index) => {
                assert(index_model(&self.entries) =~= index_model(&old(self).entries));
                index_reserve(index, additional, &self.entries);
            },
            None => {
                if n + additional > NO_INDEX_THRESHOLD {
                    self.create_index(n + additional);
                }
            },
        }
    }

    /// The keys, in insertion order.
    pub fn keys(&self) -> (r: Vec<&K>)
        ensures
            r@.len() == self@.len(),
            forall|i: int| 0 <= i < r@.len() ==> (#[trigger] r@[i])@ == self@[i].0,
    {
        let mut r: Vec<&K> = Vec::new();
        let n = self.entries.len();
        let mut i: usize = 0;
        while i < n
            invariant
                n == self.entries.buckets@.len(),
                i <= n,
                r@.len() == i,
                forall|j: int| 0 <= j < i ==> (#[trigger] r@[j])@ == self@[j].0,
            decreases n - i,
        {
            r.push(&self.entries.buckets[i].key);
            i += 1;
        }
        r
    }

    /// The values, in insertion order.
    pub fn values(&self) -> (r: Vec<&V>)
        ensures
            r@.len() == self@.len(),
            forall|i: int| 0 <= i < r@.len() ==> *(#[trigger] r@[i]) == self@[i].1,
    {
        let mut r: Vec<&V> = Vec::new();
        let n = self.entries.len();
        let mut i: usize = 0;
        while i < n
            invariant
                n == self.entries.buckets@.len(),
                i <= n,
                r@.len() == i,
                forall|j: int| 0 <= j < i ==> *(#[trigger] r@[j]) == self@[j].1,
            decreases n - i,
        {
            r.push(&self.entries.buckets[i].value);
            i += 1;
        }
        r
    }

    /// The entries, in insertion order.
    pub fn iter(&self) -> (r: Vec<(&K, &V)>)
        ensures
            r@.len() == self@.len(),
            forall|i: int|
                0 <= i < r@.len() ==> (#[trigger] r@[i]).0@ == self@[i].0 && *r@[i].1 == self@[i].1,
    {
        let mut r: Vec<(&K, &V)> = Vec::new();
        let n = self.entries.len();
        let mut i: usize = 0;
        while i < n
            invariant
                n == self.entries.buckets@.len(),
                i <= n,
                r@.len() == i,
                forall|j: int|
                    0 <= j < i ==> (#[trigger] r@[j]).0@ == self@[j].0 && *r@[j].1 == self@[j].1,
            decreases n - i,
        {
            let b = &self.entries.buckets[i];
            r.push((&b.key, &b.value));
            i += 1;
        }
        r
    }

    /// The entries, in insertion order, each key with its hash.
    pub fn iter_hashed(&self) -> (r: Vec<(BorrowHashed<'_, K>, &V)>)
        requires
            self.wf(),
        ensures
            r@.len() == self@.len(),
            forall|i: int|
                0 <= i < r@.len() ==> {
                    &&& (#[trigger] r@[i]).0.spec_key()@ == self@[i].0
                    &&& r@[i].0.wf()
                    &&& *r@[i].1 == self@[i].1
                },
    {
        let mut r: Vec<(BorrowHashed<'_, K>, &V)> = Vec::new();
        let n = self.entries.len();
        let mut i: usize = 0;
        while i < n
            invariant
                self.wf(),
                n == self.entries.buckets@.len(),
                i <= n,
                r@.len() == i,
                forall|j: int|
                    0 <= j < i ==> {
                        &&& (#[trigger] r@[j]).0.spec_key()@ == self@[j].0
                        &&& r@[j].0.wf()
                        &&& *r@[j].1 == self@[j].1
                    },
            decreases n - i,
        {
            let b = &self.entries.buckets[i];
            r.push((BorrowHashed::new_unchecked(b.hash, &b.key), &b.value));
            i += 1;
        }
        r
    }

    /// The entries, in insertion order, taken out of the map.
    pub fn into_iter(self) -> (r: Vec<(K, V)>)
        ensures
            r@.len() == self@.len(),
            forall|i: int|
                0 <= i < r@.len() ==> (#[trigger] r@[i]).0@ == self@[i].0 && r@[i].1 == self@[i].1,
    {
        let mut buckets = self.entries.buckets;
        let ghost all = buckets@;
        let mut back: Vec<(K, V)> = Vec::new();
        while buckets.len() > 0
            invariant
                buckets@.len() + back@.len() == all.len(),
                buckets@ == all.subrange(0, buckets@.len() as int),
                forall|j: int|
                    0 <= j < back@.len() ==> (#[trigger] back@[j]).0@ == all[all.len() - 1 - j].key@
                        && back@[j].1 == all[all.len() - 1 - j].value,
            decreases buckets@.len(),
        {
            let b = buckets.pop().unwrap();
            back.push((b.key, b.value));
            assert(buckets@ =~= all.subrange(0, buckets@.len() as int));
        }
        let mut r: Vec<(K, V)> = Vec::new();
        while back.len() > 0
            invariant
                back@.len() + r@.len() == all.len(),
                forall|j: int|
                    0 <= j < back@.len() ==> (#[trigger] back@[j]).0@ == all[all.len() - 1 - j].key@
                        && back@[j].1 == all[all.len() - 1 - j].value,
                forall|j: int|
                    0 <= j < r@.len() ==> (#[trigger] r@[j]).0@ == all[j].key@ && r@[j].1
                        == all[j].value,
            decreases back@.len(),
        {
            let e = back.pop().unwrap();
            r.push(e);
        }
        r
    }

    /// The entries, in insertion order, taken out of the map, each key with
    /// its hash.
    pub fn into_iter_hashed(self) -> (r: Vec<(Hashed<K>, V)>)
        requires
            self.wf(),
        ensures
            r@.len() == self@.len(),
            forall|i: int|
                0 <= i < r@.len() ==> {
                    &&& (#[trigger] r@[i]).0.spec_key()@ == self@[i].0
                    &&& r@[i].0.wf()
                    &&& r@[i].1 == self@[i].1
                },
    {
        let mut buckets = self.entries.buckets;
        let ghost all = buckets@;
        let mut back: Vec<(Hashed<K>, V)> = Vec::new();
        while buckets.len() > 0
            invariant
                forall|i: int|
                    0 <= i < all.len() ==> (#[trigger] all[i]).hash@ == hash_of::<K>(all[i].key@),
                buckets@.len() + back@.len() == all.len(),
                buckets@ == all.subrange(0, buckets@.len() as int),
                forall|j: int|
                    0 <= j < back@.len() ==> {
                        &&& (#[trigger] back@[j]).0.spec_key()@ == all[all.len() - 1 - j].key@
                        &&& back@[j].0.wf()
                        &&& back@[j].1 == all[all.len() - 1 - j].value
                    },
            decreases buckets@.len(),
        {
            let b = buckets.pop().unwrap();
            assert(b == all[buckets@.len() as int]);
            back.push((Hashed::new_unchecked(b.hash, b.key), b.value));
            assert(buckets@ =~= all.subrange(0, buckets@.len() as int));
        }
        let mut r: Vec<(Hashed<K>, V)> = Vec::new();
        while back.len() > 0
            invariant
                back@.len() + r@.len() == all.len(),
                forall|j: int|
                    0 <= j < back@.len() ==> {
                        &&& (#[trigger] back@[j]).0.spec_key()@ == all[all.len() - 1 - j].key@
                        &&& back@[j].0.wf()
                        &&& back@[j].1 == all[all.len() - 1 - j].value
                    },
                forall|j: int|
                    0 <= j < r@.len() ==> {
                        &&& (#[trigger] r@[j]).0.spec_key()@ == all[j].key@
                        &&& r@[j].0.wf()
                        &&& r@[j].1 == all[j].value
                    },
            decreases back@.len(),
        {
            let e = back.pop().unwrap();
            r.push(e);
        }
        r
    }

    /// The value that this key maps to, to be changed in place.
    pub fn get_mut_hashed(&mut self, key: BorrowHashed<K>) -> (r: Option<&mut V>)
        requires
            old(self).wf(),
            key.wf(),
        ensures
            final(self).wf(),
            final(self).has_index() == old(self).has_index(),
            r matches Some(v) ==> lookup(old(self)@, key.spec_key()@) == Some(*v)
                && final(self)@ == inserted(old(self)@, key.spec_key()@, *final(v)),
            r is None ==> lookup(old(self)@, key.spec_key()@) is None && final(self)@ == old(self)@,
    {
        match self.get_index_of_hashed(key) {
            None => None,
            Some(i) => {
                proof {
                    lemma_index_of_key_some(self@, key.spec_key()@);
                }
                proof {
                    let before = *self;
                    assert forall|after: Self|
                        after.index == before.index && after.entries.buckets@.len()
                            == before.entries.buckets@.len() && (forall|j: int|
                            0 <= j < before.entries.buckets@.len() && j != i
                                ==> after.entries.buckets@[j] == before.entries.buckets@[j])
                            && after.entries.buckets@[i as int].hash
                            == before.entries.buckets@[i as int].hash
                            && after.entries.buckets@[i as int].key
                            == before.entries.buckets@[i as int].key implies #[trigger] after.wf()
                        && after@ == before@.update(
                        i as int,
                        (before@[i as int].0, after.entries.buckets@[i as int].value),
                    ) by {
                        Self::lemma_value_changed(before, after, i as int);
                    }
                }
                Some(&mut self.entries.buckets[i].value)
            },
        }
    }
}

/// An entry of a map that is there.
pub struct OccupiedEntry<'a, K, V> {
    pub key: &'a K,
    pub value: &'a mut V,
}

/// The place at the end of a map for a key that is not there.
pub struct VacantEntry<'a, K, V> {
    pub key: Hashed<K>,
    pub map: &'a mut SmallMap<K, V>,
}

/// What a map has for a key: an entry, or the place for one.
pub enum Entry<'a, K, V> {
    Occupied(OccupiedEntry<'a, K, V>),
    Vacant(VacantEntry<'a, K, V>),
}

impl<'a, K: Hashable, V> OccupiedEntry<'a, K, V> {
    /// The key of the entry.
    pub fn key(&self) -> (k: &K)
        ensures
            k == self.key,
    {
        self.key
    }

    /// The value of the entry.
    pub fn get(&self) -> (v: &V)
        ensures
            *v == *old(self.value),
    {
        self.value
    }

    /// The value of the entry, to be changed in place.
    pub fn get_mut(&mut self) -> (v: &mut V)
        ensures
            *v == *old(self).value,
            *final(self).value == *final(v),
            final(self).key == old(self).key,
            *final(final(self).value) == *final(old(self).value),
    {
        self.value
    }
}

impl<'a, K: Hashable, V> VacantEntry<'a, K, V> {
    /// The place is sound: the map is well formed, the key carries its
    /// canonical hash, and the map has no entry for it.
    pub open spec fn wf(&self) -> bool {
        &&& self.map.wf()
        &&& self.key.wf()
        &&& index_of_key(self.map@, self.key.spec_key()@) is None
    }

    /// The key that the place is for.
    pub fn key(&self) -> (k: &K)
        ensures
            *k == self.key.spec_key(),
    {
        self.key.key()
    }

    /// Puts `value` in the place: the map gets the entry at its end.
    pub fn insert(self, value: V)
        requires
            self.wf(),
        ensures
            final(self.map).wf(),
            final(self.map)@ == old(self.map)@.push((self.key.spec_key()@, value)),
            final(self.map).has_index() == (old(self.map).has_index() || final(self.map)@.len()
                > NO_INDEX_THRESHOLD),
    {
        self.map.insert_unique_unchecked(self.key, value);
    }
}

impl<'a, K: Hashable, V> Entry<'a, K, V> {
    /// The key's view.
    pub open spec fn spec_key(&self) -> K::V {
        match self {
            Entry::Occupied(e) => e.key@,
            Entry::Vacant(e) => e.key.spec_key()@,
        }
    }

    /// The key of the entry.
    pub fn key(&self) -> (k: &K)
        ensures
            k@ == self.spec_key(),
    {
        match self {
            Entry::Occupied(e) => e.key(),
            Entry::Vacant(e) => e.key(),
        }
    }
}

impl<K: Hashable, V> SmallMap<K, V> {
    /// The entry for this key, or the place for one. Whatever is done with
    /// it, the map stays well formed: a value may change, or the key may be
    /// given a value at the end of the map.
    pub fn entry_hashed(&mut self, key: Hashed<K>) -> (r: Entry<'_, K, V>)
        requires
            old(self).wf(),
            key.wf(),
        ensures
            r.spec_key() == key.spec_key()@,
            match r {
                Entry::Occupied(e) => {
                    &&& lookup(old(self)@, key.spec_key()@) == Some(*e.value)
                    &&& final(self).wf()
                    &&& final(self).has_index() == old(self).has_index()
                    &&& final(self)@ == inserted(old(self)@, key.spec_key()@, *final(e.value))
                },
                Entry::Vacant(e) => {
                    &&& lookup(old(self)@, key.spec_key()@) is None
                    &&& e.wf()
                    &&& *e.map == *old(self)
                    &&& *final(e.map) == *final(self)
                },
            },
    {
        match self.get_index_of_hashed(key.borrow()) {
            Some(i) => {
                proof {
                    lemma_index_of_key_some(self@, key.spec_key()@);
                    let before = *self;
                    assert forall|after: Self|
                        after.index == before.index && after.entries.buckets@.len()
                            == before.entries.buckets@.len() && (forall|j: int|
                            0 <= j < before.entries.buckets@.len() && j != i
                                ==> after.entries.buckets@[j] == before.entries.buckets@[j])
                            && after.entries.buckets@[i as int].hash
                            == before.entries.buckets@[i as int].hash
                            && after.entries.buckets@[i as int].key
                            == before.entries.buckets@[i as int].key implies #[trigger] after.wf()
                        && after@ == before@.update(
                        i as int,
                        (before@[i as int].0, after.entries.buckets@[i as int].value),
                    ) by {
                        Self::lemma_value_changed(before, after, i as int);
                    }
                }
                let entry = &mut self.entries.buckets[i];
                Entry::Occupied(OccupiedEntry { key: &entry.key, value: &mut entry.value })
            },
            None => Entry::Vacant(VacantEntry { key, map: self }),
        }
    }

    /// The entry for `key`, or the place for one.
    pub fn entry(&mut self, key: K) -> (r: Entry<'_, K, V>)
        requires
            old(self).wf(),
        ensures
            r.spec_key() == key@,
            match r {
                Entry::Occupied(e) => {
                    &&& lookup(old(self)@, key@) == Some(*e.value)
                    &&& final(self).wf()
                    &&& final(self).has_index() == old(self).has_index()
                    &&& final(self)@ == inserted(old(self)@, key@, *final(e.value))
                },
                Entry::Vacant(e) => {
                    &&& lookup(old(self)@, key@) is None
                    &&& e.wf()
                    &&& *e.map == *old(self)
                    &&& *final(e.map) == *final(self)
                },
            },
    {
        self.entry_hashed(Hashed::new(key))
    }

    /// The value that `key` maps to, to be changed in place.
    pub fn get_mut(&mut self, key: &K) -> (r: Option<&mut V>)
        requires
            old(self).wf(),
        ensures
            final(self).wf(),
            final(self).has_index() == old(self).has_index(),
            r matches Some(v) ==> lookup(old(self)@, key@) == Some(*v) && final(self)@ == inserted(
                old(self)@,
                key@,
                *final(v),
            ),
            r is None ==> lookup(old(self)@, key@) is None && final(self)@ == old(self)@,
    {
        self.get_mut_hashed(BorrowHashed::new(key))
    }
}

/// Two maps are equal when they have as many entries and every entry of
/// the first is in the second, with an equal value. The order of the
/// entries does not count.
pub open spec fn same_entries<KV, V: View>(a: Seq<(KV, V)>, b: Seq<(KV, V)>) -> bool {
    &&& a.len() == b.len()
    &&& forall|i: int|
        0 <= i < a.len() ==> index_of_key(b, (#[trigger] a[i]).0) is Some && b[index_of_key(
            b,
            a[i].0,
        )->Some_0].1@ == a[i].1@
}

/// The hash of one entry: the digest of the key and the value, fed one
/// after the other to a hasher of their own.
pub open spec fn entry_digest<K: Hashable, V: Hashable>(key: K::V, value: V::V) -> u64 {
    digest(V::fed(K::fed(Seq::empty(), key), value))
}

/// The hash of the entries of a map: the sum of the hashes of the entries,
/// which wraps around. A sum does not depend on the order, so that two
/// maps that are equal have the same hash.
pub open spec fn entries_digest<K: Hashable, V: Hashable>(s: Seq<(K::V, V)>) -> u64
    decreases s.len(),
{
    if s.len() == 0 {
        0
    } else {
        entries_digest::<K, V>(s.drop_last()).wrapping_add(
            entry_digest::<K, V>(s.last().0, s.last().1@),
        )
    }
}

/// A wrapping sum can be taken in any order.
proof fn lemma_wrapping_add(x: u64, y: u64, z: u64)
    ensures
        x.wrapping_add(y) == y.wrapping_add(x),
        x.wrapping_add(y).wrapping_add(z) == x.wrapping_add(y.wrapping_add(z)),
        x.wrapping_add(0) == x,
{
}

/// The hash of the entries is the hash of any one entry added to the hash
/// of the others.
proof fn lemma_entries_digest_remove<K: Hashable, V: Hashable>(s: Seq<(K::V, V)>, j: int)
    requires
        0 <= j < s.len(),
    ensures
        entries_digest::<K, V>(s) == entries_digest::<K, V>(s.remove(j)).wrapping_add(
            entry_digest::<K, V>(s[j].0, s[j].1@),
        ),
    decreases s.len(),
{
    if j == s.len() - 1 {
        assert(s.remove(j) =~= s.drop_last());
    } else {
        lemma_entries_digest_remove::<K, V>(s.drop_last(), j);
        assert(s.remove(j).drop_last() =~= s.drop_last().remove(j));
        assert(s.remove(j).last() == s.last());
        assert(s.drop_last()[j] == s[j]);
        let rest = entries_digest::<K, V>(s.drop_last().remove(j));
        let ej = entry_digest::<K, V>(s[j].0, s[j].1@);
        let el = entry_digest::<K, V>(s.last().0, s.last().1@);
        lemma_wrapping_add(rest, ej, el);
        lemma_wrapping_add(rest, el, ej);
        lemma_wrapping_add(ej, el, 0);
    }
}

/// Two maps that are equal have the same hash, whatever the order of their
/// entries.
pub proof fn lemma_equal_maps_hash_equal<K: Hashable, V: Hashable>(
    a: Seq<(K::V, V)>,
    b: Seq<(K::V, V)>,
)
    requires
        distinct_keys(a),
        distinct_keys(b),
        same_entries(a, b),
    ensures
        entries_digest::<K, V>(a) == entries_digest::<K, V>(b),
    decreases a.len(),
{
    if a.len() > 0 {
        let e = a.last();
        assert(a[a.len() - 1] == e);
        lemma_index_of_key_some(b, e.0);
        let j = index_of_key(b, e.0)->Some_0;
        let a1 = a.drop_last();
        let b1 = b.remove(j);
        assert forall|x: int, y: int| 0 <= x < y < b1.len() implies b1[x].0 != b1[y].0 by {
            let x0 = if x < j { x } else { x + 1 };
            let y0 = if y < j { y } else { y + 1 };
            assert(b1[x] == b[x0] && b1[y] == b[y0]);
        }
        assert forall|i: int| 0 <= i < a1.len() implies index_of_key(b1, (#[trigger] a1[i]).0) is Some
            && b1[index_of_key(b1, a1[i].0)->Some_0].1@ == a1[i].1@ by {
            assert(a1[i] == a[i]);
            lemma_index_of_key_some(b, a[i].0);
            let p = index_of_key(b, a[i].0)->Some_0;
            assert(a[i].0 != a[a.len() - 1].0);
            assert(p != j);
            let p1 = if p < j { p } else { p - 1 };
            assert(b1[p1] == b[p]);
            lemma_index_of_key_is(b1, a1[i].0, p1);
        }
        lemma_equal_maps_hash_equal::<K, V>(a1, b1);
        lemma_entries_digest_remove::<K, V>(b, j);
    } else {
        assert(b.len() == 0);
    }
}

impl<K: Hashable, V: Hashable> SmallMap<K, V> {
    /// Are the two maps equal: as many entries, and every entry of this
    /// map in the other, with an equal value? The order of the entries
    /// does not count.
    pub fn eq(&self, other: &Self) -> (b: bool)
        requires
            self.wf(),
            other.wf(),
        ensures
            b == same_entries(self@, other@),
    {
        if self.len() != other.len() {
            return false;
        }
        let entries = self.iter_hashed();
        let n = entries.len();
        let mut i: usize = 0;
        while i < n
            invariant
                self.wf(),
                other.wf(),
                n == entries@.len(),
                n == self@.len(),
                self@.len() == other@.len(),
                i <= n,
                forall|j: int|
                    0 <= j < n ==> {
                        &&& (#[trigger] entries@[j]).0.spec_key()@ == self@[j].0
                        &&& entries@[j].0.wf()
                        &&& *entries@[j].1 == self@[j].1
                    },
                forall|j: int|
                    0 <= j < i ==> index_of_key(other@, (#[trigger] self@[j]).0) is Some
                        && other@[index_of_key(other@, self@[j].0)->Some_0].1@ == self@[j].1@,
            decreases n - i,
        {
            let e = &entries[i];
            proof {
                lemma_index_of_key_some(other@, self@[i as int].0);
            }
            let found = match other.get_hashed(e.0) {
                Some(v) => v.same(e.1),
                None => false,
            };
            if !found {
                assert(!(index_of_key(other@, self@[i as int].0) is Some && other@[index_of_key(
                    other@,
                    self@[i as int].0,
                )->Some_0].1@ == self@[i as int].1@));
                return false;
            }
            i += 1;
        }
        true
    }

    /// Feeds the map to a hasher: the sum of the hashes of its entries.
    pub fn hash(&self, state: &mut StarlarkHasher)
        ensures
            final(state)@ == old(state)@.push(
                vstd::bytes::spec_u64_to_le_bytes(entries_digest::<K, V>(self@)),
            ),
    {
        state.write_u64(self.entries_hash());
    }

    /// The sum of the hashes of the entries, which wraps around: what the
    /// map feeds to a hasher.
    pub fn entries_hash(&self) -> (sum: u64)
        ensures
            sum == entries_digest::<K, V>(self@),
    {
        let entries = self.iter();
        let n = entries.len();
        let mut sum: u64 = 0;
        let mut i: usize = 0;
        assert(self@.take(0) =~= Seq::<(K::V, V)>::empty());
        while i < n
            invariant
                n == entries@.len(),
                n == self@.len(),
                i <= n,
                forall|j: int|
                    0 <= j < n ==> (#[trigger] entries@[j]).0@ == self@[j].0 && *entries@[j].1
                        == self@[j].1,
                sum == entries_digest::<K, V>(self@.take(i as int)),
            decreases n - i,
        {
            let e = &entries[i];
            let mut s = StarlarkHasher::new();
            e.0.feed(&mut s);
            e.1.feed(&mut s);
            proof {
                assert(self@.take(i as int + 1).drop_last() =~= self@.take(i as int));
                assert(self@.take(i as int + 1).last() == self@[i as int]);
            }
            sum = sum.wrapping_add(s.finish());
            i += 1;
        }
        assert(self@.take(n as int) =~= self@);
        sum
    }
}

impl<K: Hashable, V> SmallMap<K, V> {
    /// The map of the entries of `items`, put in one after the other: a key
    /// that comes again replaces the value and keeps the place.
    pub fn from_iter(items: Vec<(K, V)>) -> (r: Self)
        ensures
            r.wf(),
            r@ == collected::<K, V>(items@, items@.len()),
    {
        let mut back = items;
        let ghost all = back@;
        // Take the items from the back, so that they can be put in from
        // the front.
        let mut front: Vec<(K, V)> = Vec::new();
        while back.len() > 0
            invariant
                back@.len() + front@.len() == all.len(),
                back@ == all.subrange(0, back@.len() as int),
                forall|j: int| 0 <= j < front@.len() ==> front@[j] == all[all.len() - 1 - j],
            decreases back@.len(),
        {
            let e = back.pop().unwrap();
            front.push(e);
            assert(back@ =~= all.subrange(0, back@.len() as int));
        }
        let mut mp = if front.len() <= usize::MAX / 64 {
            Self::with_capacity(front.len())
        } else {
            Self::new()
        };
        while front.len() > 0
            invariant
                front@.len() <= all.len(),
                forall|j: int| 0 <= j < front@.len() ==> front@[j] == all[all.len() - 1 - j],
                mp.wf(),
                mp@ == collected::<K, V>(all, (all.len() - front@.len()) as nat),
            decreases front@.len(),
        {
            let e = front.pop().unwrap();
            mp.insert(e.0, e.1);
        }
        mp
    }

    /// How many entries the map has room for before its records are moved.
    pub fn capacity(&self) -> (n: usize)
        ensures
            n >= self@.len(),
    {
        self.entries.capacity()
    }
}

/// Entries with distinct keys, put into an empty map one after the other,
/// are in the map in the order in which they were put in.
pub proof fn lemma_distinct_inserts_keep_order<K: Hashable, V>(items: Seq<(K, V)>, n: nat)
    requires
        n <= items.len(),
        forall|i: int, j: int| 0 <= i < j < n ==> items[i].0@ != items[j].0@,
    ensures
        collected::<K, V>(items, n) == Seq::new(n, |i: int| (items[i].0@, items[i].1)),
    decreases n,
{
    if n > 0 {
        lemma_distinct_inserts_keep_order::<K, V>(items, (n - 1) as nat);
        let before = collected::<K, V>(items, (n - 1) as nat);
        lemma_index_of_key_none(before, items[n - 1].0@);
        assert(before.push((items[n - 1].0@, items[n - 1].1)) =~= Seq::new(
            n,
            |i: int| (items[i].0@, items[i].1),
        ));
    } else {
        assert(collected::<K, V>(items, n) =~= Seq::new(n, |i: int| (items[i].0@, items[i].1)));
    }
}

/// A map that has an index exactly when it needs one still does after an
/// entry has been put in. (After a removal it may not: an index that is
/// there is kept.)
pub proof fn lemma_index_as_needed_kept<K: Hashable, V>(before: SmallMap<K, V>, after: SmallMap<K, V>)
    requires
        before.index_as_needed(),
        after@.len() >= before@.len(),
        after.has_index() == (before.has_index() || after@.len() > NO_INDEX_THRESHOLD),
    ensures
        after.index_as_needed(),
{
}

/// The map of the first `n` of `items`, put in one after the other.
pub open spec fn collected<K: Hashable, V>(items: Seq<(K, V)>, n: nat) -> Seq<(K::V, V)>
    decreases n,
{
    if n == 0 {
        Seq::empty()
    } else {
        inserted(collected::<K, V>(items, (n - 1) as nat), items[n - 1].0@, items[n - 1].1)
    }
}

} // verus!
