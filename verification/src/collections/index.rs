//! The index of a map: an open-addressed table of positions into the
//! records, filed under the promoted hash of the record's key.
//!
//! The table is `hashbrown::HashTable<usize>`. Of the functions that call
//! it nothing is proved: each states what the table's own documentation
//! and source say of the method it calls. What the map proves about its
//! index rests on them. The small functions that the table is handed, and
//! the count of the positions that an index holds and hands out, are
//! proved here.

use vstd::prelude::*;

use crate::collections::hasher::Hashable;
use crate::collections::vec_map::{capacity_limit, VecMap};

verus! {

/// An open-addressed table of positions.
#[verifier::external_body]
pub struct Index {
    table: hashbrown::HashTable<usize>,
}

impl Clone for Index {
    /// `HashTable::clone`: a table that holds what this one holds.
    #[verifier::external_body]
    fn clone(&self) -> (r: Self)
        ensures
            index_contents(r) == index_contents(*self),
    {
        Index { table: self.table.clone() }
    }
}

/// What the table holds: each position with the hash it was filed under.
pub uninterp spec fn index_contents(index: Index) -> Set<(u64, usize)>;

/// Every position in the table is the position of a record, filed under
/// that record's promoted hash.
pub open spec fn index_within<K: Hashable, V>(contents: Set<(u64, usize)>, entries: &VecMap<K, V>) -> bool {
    forall|p: (u64, usize)| #[trigger]
        contents.contains(p) ==> p.1 < entries.buckets@.len() && p.0 == entries.promoted(p.1 as int)
}

/// The table that indexes `entries`: every position, filed under its
/// record's promoted hash.
pub open spec fn index_model<K: Hashable, V>(entries: &VecMap<K, V>) -> Set<(u64, usize)> {
    Set::new(
        |p: (u64, usize)| p.1 < entries.buckets@.len() && p.0 == entries.promoted(p.1 as int),
    )
}

/// The positions below `k`, each filed under its record's promoted hash.
pub open spec fn index_model_below<K: Hashable, V>(entries: &VecMap<K, V>, k: int) -> Set<(u64, usize)> {
    Set::new(|p: (u64, usize)| p.1 < k && p.0 == entries.promoted(p.1 as int))
}

/// The table that indexes `entries` holds as many positions as there are
/// records.
pub proof fn lemma_index_model_len<K: Hashable, V>(entries: &VecMap<K, V>, k: int)
    requires
        0 <= k <= entries.buckets@.len() <= usize::MAX,
    ensures
        index_model_below(entries, k).finite(),
        index_model_below(entries, k).len() == k,
        k == entries.buckets@.len() ==> index_model_below(entries, k) == index_model(entries),
    decreases k,
{
    if k == 0 {
        assert(index_model_below(entries, k) =~= Set::<(u64, usize)>::empty());
    } else {
        lemma_index_model_len(entries, k - 1);
        let last = (entries.promoted(k - 1), (k - 1) as usize);
        assert(index_model_below(entries, k) =~= index_model_below(entries, k - 1).insert(last));
    }
    if k == entries.buckets@.len() {
        assert(index_model_below(entries, k) =~= index_model(entries));
    }
}

/// The table holds the position `p`, under some hash.
pub open spec fn holds_position(contents: Set<(u64, usize)>, p: usize) -> bool {
    exists|hash: u64| contents.contains((hash, p))
}

/// The positions below `k`.
pub open spec fn positions_below(k: int) -> Set<usize> {
    Set::new(|p: usize| p < k)
}

/// There are `k` positions below `k`.
pub proof fn lemma_positions_below(k: int)
    requires
        0 <= k <= usize::MAX,
    ensures
        positions_below(k).finite(),
        positions_below(k).len() == k,
    decreases k,
{
    if k == 0 {
        assert(positions_below(k) =~= Set::<usize>::empty());
    } else {
        lemma_positions_below(k - 1);
        assert(positions_below(k) =~= positions_below(k - 1).insert((k - 1) as usize));
    }
}

/// The positions that are handed out of the index of `entries` are those of
/// the records, each once.
pub proof fn lemma_positions_distinct<K: Hashable, V>(
    entries: &VecMap<K, V>,
    positions: Seq<usize>,
)
    requires
        entries.buckets@.len() <= usize::MAX,
        positions.len() == entries.buckets@.len(),
        forall|k: int|
            0 <= k < positions.len() ==> holds_position(
                index_model(entries),
                #[trigger] positions[k],
            ),
        forall|p: (u64, usize)| #[trigger]
            index_model(entries).contains(p) ==> positions.contains(p.1),
    ensures
        positions.no_duplicates(),
        forall|k: int| 0 <= k < positions.len() ==> (#[trigger] positions[k]) < entries.buckets@.len(),
{
    let n = entries.buckets@.len() as int;
    lemma_positions_below(n);
    assert forall|k: int| 0 <= k < positions.len() implies (#[trigger] positions[k]) < n by {
        assert(holds_position(index_model(entries), positions[k]));
        let hash = choose|hash: u64| index_model(entries).contains((hash, positions[k]));
        assert(index_model(entries).contains((hash, positions[k])));
    }
    assert(positions.to_set() =~= positions_below(n)) by {
        assert forall|p: usize| positions.to_set().contains(p) == positions_below(n).contains(
            p,
        ) by {
            if positions.to_set().contains(p) {
                let k = choose|k: int| 0 <= k < positions.len() && positions[k] == p;
                assert(positions[k] < n);
            }
            if p < n {
                assert(index_model(entries).contains((entries.promoted(p as int), p)));
                assert(positions.contains(p));
            }
        }
    }
    positions.lemma_no_dup_set_cardinality();
}

/// Where a position stands once the record at `removed` is gone.
pub open spec fn shifted(i: usize, removed: usize) -> usize {
    if i >= removed {
        (i - 1) as usize
    } else {
        i
    }
}

/// Where a position stands once the record at `removed` is gone.
pub fn shifted_position(i: usize, removed: usize) -> (r: usize)
    requires
        i != removed,
    ensures
        r == shifted(i, removed),
{
    if i >= removed {
        i - 1
    } else {
        i
    }
}

/// Is `i` the position looked for?
pub fn is_position(i: usize, position: usize) -> (b: bool)
    ensures
        b == (i == position),
{
    i == position
}

/// `HashTable::with_capacity`: an empty table with room for `n` positions.
#[verifier::external_body]
pub(crate) fn index_with_capacity(n: usize) -> (index: Index)
    requires
        n <= capacity_limit(),
    ensures
        index_contents(index) == Set::<(u64, usize)>::empty(),
{
    Index { table: hashbrown::HashTable::with_capacity(n) }
}

/// `HashTable::find`: a position in the table whose record has the key
/// `key`. The table calls the test for every position filed under `hash`,
/// and may call it for others; it returns a position for which the test
/// held, and none only if it held for no position filed under `hash`.
#[verifier::external_body]
pub(crate) fn index_find<K: Hashable, V>(index: &Index, hash: u64, entries: &VecMap<K, V>, key: &K) -> (r:
    Option<usize>)
    requires
        index_within(index_contents(*index), entries),
    ensures
        r matches Some(i) ==> (exists|h: u64| index_contents(*index).contains((h, i)))
            && entries@[i as int].0 == key@,
        r is None ==> forall|i: usize|
            index_contents(*index).contains((hash, i)) ==> entries@[i as int].0 != key@,
{
    index.table.find(hash, |&i| entries.key_matches(i, key)).copied()
}

/// `HashTable::insert_unique`: files `position` under `hash`, without
/// looking whether it is there already. When the table grows, it asks for
/// the hash of each position it holds, which is the promoted hash of that
/// position's record. Like `Vec::push`, it does not return if the memory
/// for the table to grow cannot be had.
#[verifier::external_body]
pub(crate) fn index_insert<K: Hashable, V>(index: &mut Index, hash: u64, position: usize, entries: &VecMap<K, V>)
    requires
        index_within(index_contents(*old(index)), entries),
        !index_contents(*old(index)).contains((hash, position)),
    ensures
        index_contents(*final(index)) == index_contents(*old(index)).insert((hash, position)),
{
    index.table.insert_unique(hash, position, |&i| entries.promoted_hash_at(i));
}

/// `HashTable::find_entry`, then `OccupiedEntry::remove`: takes `position`
/// out of the table, if it is found under `hash`.
#[verifier::external_body]
pub(crate) fn index_remove(index: &mut Index, hash: u64, position: usize) -> (found: bool)
    ensures
        found ==> exists|h: u64|
            index_contents(*old(index)).contains((h, position)) && index_contents(*final(index))
                == index_contents(*old(index)).remove((h, position)),
        !found ==> index_contents(*final(index)) == index_contents(*old(index))
            && !index_contents(*old(index)).contains((hash, position)),
{
    match index.table.find_entry(hash, |&i| is_position(i, position)) {
        Ok(entry) => {
            entry.remove();
            true
        },
        Err(_) => false,
    }
}

/// `HashTable::iter_mut`: moves every position behind `removed` up by one,
/// in place. No position changes the hash it is filed under.
#[verifier::external_body]
pub(crate) fn index_shift(index: &mut Index, removed: usize)
    requires
        forall|p: (u64, usize)| index_contents(*old(index)).contains(p) ==> p.1 != removed,
    ensures
        index_contents(*final(index)) == index_contents(*old(index)).map(
            |p: (u64, usize)| (p.0, shifted(p.1, removed)),
        ),
{
    index.table.iter_mut().for_each(|i| *i = shifted_position(*i, removed));
}

/// `HashTable::clear`: empties the table and keeps its allocation.
#[verifier::external_body]
pub(crate) fn index_clear(index: &mut Index)
    ensures
        index_contents(*final(index)) == Set::<(u64, usize)>::empty(),
{
    index.table.clear();
}

/// `HashTable::reserve`: makes room for `additional` more positions. What
/// the table holds does not change.
#[verifier::external_body]
pub(crate) fn index_reserve<K: Hashable, V>(index: &mut Index, additional: usize, entries: &VecMap<K, V>)
    requires
        index_within(index_contents(*old(index)), entries),
        entries.buckets@.len() + additional <= capacity_limit(),
    ensures
        index_contents(*final(index)) == index_contents(*old(index)),
{
    index.table.reserve(additional, |&i| entries.promoted_hash_at(i));
}

/// `HashTable::iter`: the positions that the table holds, each as often as
/// the table holds it. The table is walked in an order of its own, of
/// which nothing is said.
#[verifier::external_body]
pub(crate) fn index_positions(index: &Index) -> (positions: Vec<usize>)
    requires
        index_contents(*index).finite(),
    ensures
        positions@.len() == index_contents(*index).len(),
        forall|k: int|
            0 <= k < positions@.len() ==> holds_position(
                index_contents(*index),
                #[trigger] positions@[k],
            ),
        forall|p: (u64, usize)| #[trigger]
            index_contents(*index).contains(p) ==> positions@.contains(p.1),
{
    index.table.iter().copied().collect()
}

/// `HashTable::len`: how many positions the table holds.
#[verifier::external_body]
pub(crate) fn index_len(index: &Index) -> (n: usize)
    requires
        index_contents(*index).finite(),
    ensures
        n == index_contents(*index).len(),
{
    index.table.len()
}

} // verus!
