//! Names with their hashes computed ahead, and a map from names.

use vstd::prelude::*;

use crate::collections::hash::{BorrowHashed, Hashed, StarlarkHashValue};
use crate::collections::hasher::{hash_of, Hashable};
use crate::collections::small_map::{SmallMap, NO_INDEX_THRESHOLD};
use crate::collections::vec_map::{capacity_limit, distinct_keys, inserted, lookup};

verus! {

/// A name as a call site holds it: the text and its canonical hash,
/// computed once.
pub struct Symbol {
    hash: StarlarkHashValue,
    payload: String,
}

impl View for Symbol {
    type V = Seq<char>;

    /// The text of the name.
    closed spec fn view(&self) -> Seq<char> {
        self.payload@
    }
}

impl Symbol {
    #[verifier::type_invariant]
    spec fn type_inv(self) -> bool {
        self.hash@ == hash_of::<String>(self.payload@)
    }

    /// The hash carried.
    pub closed spec fn spec_hash(&self) -> StarlarkHashValue {
        self.hash
    }

    /// The symbol of `name`.
    pub fn new(name: &str) -> (s: Symbol)
        ensures
            s@ == name@,
            s.spec_hash()@ == hash_of::<String>(name@),
    {
        let payload = name.to_owned();
        let hash = StarlarkHashValue::new(&payload);
        Symbol { hash, payload }
    }

    /// The text of the name.
    pub fn as_str(&self) -> (s: &str)
        ensures
            s@ == self@,
    {
        self.payload.as_str()
    }

    /// The canonical hash of the name.
    pub fn small_hash(&self) -> (h: StarlarkHashValue)
        ensures
            h == self.spec_hash(),
            h@ == hash_of::<String>(self@),
    {
        proof {
            use_type_invariant(self);
        }
        self.hash
    }

    /// The name as a key with its hash.
    pub fn hashed(&self) -> (h: Hashed<String>)
        ensures
            h.wf(),
            h.spec_key()@ == self@,
    {
        proof {
            use_type_invariant(self);
        }
        Hashed::new_unchecked(self.hash, self.payload.clone())
    }
}

/// A map from names to values of type `T`, in insertion order.
pub struct SymbolMap<T> {
    map: SmallMap<String, T>,
}

impl<T> View for SymbolMap<T> {
    type V = Seq<(Seq<char>, T)>;

    /// The entries in insertion order.
    closed spec fn view(&self) -> Seq<(Seq<char>, T)> {
        self.map@
    }
}

impl<T> SymbolMap<T> {
    /// The map inside is well formed.
    pub closed spec fn wf(&self) -> bool {
        self.map.wf()
    }

    /// No two entries of a well-formed map have the same name.
    pub proof fn lemma_wf(&self)
        requires
            self.wf(),
        ensures
            distinct_keys(self@),
    {
        self.map.lemma_wf();
    }

    /// Does the map inside have an index?
    pub closed spec fn has_index(&self) -> bool {
        self.map.has_index()
    }

    /// An empty map, without an index.
    pub fn new() -> (r: Self)
        ensures
            r.wf(),
            r@ == Seq::<(Seq<char>, T)>::empty(),
            !r.has_index(),
    {
        SymbolMap { map: SmallMap::new() }
    }

    /// An empty map with room for `n` names. Asked for more than
    /// `NO_INDEX_THRESHOLD`, it starts with an index, unless `n` is more
    /// than any map has room for: then nothing is set aside.
    pub fn with_capacity(n: usize) -> (r: Self)
        ensures
            r.wf(),
            r@ == Seq::<(Seq<char>, T)>::empty(),
            r.has_index() == (NO_INDEX_THRESHOLD < n && n <= capacity_limit()),
    {
        if n <= SmallMap::<String, T>::max_capacity() {
            SymbolMap { map: SmallMap::with_capacity(n) }
        } else {
            SymbolMap { map: SmallMap::new() }
        }
    }

    /// Has the index of the map inside been built?
    pub fn is_indexed(&self) -> (b: bool)
        ensures
            b == self.has_index(),
    {
        self.map.is_indexed()
    }

    /// The number of names.
    pub fn len(&self) -> (n: usize)
        ensures
            n == self@.len(),
    {
        self.map.len()
    }

    /// Sets `name` to `value`, and returns the value it had.
    pub fn insert(&mut self, name: &str, value: T) -> (r: Option<T>)
        requires
            old(self).wf(),
        ensures
            final(self).wf(),
            final(self)@ == inserted(old(self)@, name@, value),
            r == lookup(old(self)@, name@),
            final(self).has_index() == (old(self).has_index() || final(self)@.len()
                > NO_INDEX_THRESHOLD),
    {
        self.map.insert(name.to_owned(), value)
    }

    /// The value of the name of `symbol`.
    pub fn get(&self, symbol: &Symbol) -> (r: Option<&T>)
        requires
            self.wf(),
        ensures
            r matches Some(v) ==> lookup(self@, symbol@) == Some(*v),
            r is None ==> lookup(self@, symbol@) is None,
    {
        proof {
            use_type_invariant(symbol);
        }
        self.map.get_hashed(BorrowHashed::new_unchecked(symbol.hash, &symbol.payload))
    }

    /// The value of `name`.
    pub fn get_str(&self, name: &str) -> (r: Option<&T>)
        requires
            self.wf(),
        ensures
            r matches Some(v) ==> lookup(self@, name@) == Some(*v),
            r is None ==> lookup(self@, name@) is None,
    {
        let owned = name.to_owned();
        self.map.get(&owned)
    }

    /// The value of `name`, whose canonical hash the caller has already.
    pub fn get_hashed_str(&self, hash: StarlarkHashValue, name: &str) -> (r: Option<&T>)
        requires
            self.wf(),
            hash@ == hash_of::<String>(name@),
        ensures
            r matches Some(v) ==> lookup(self@, name@) == Some(*v),
            r is None ==> lookup(self@, name@) is None,
    {
        let owned = name.to_owned();
        self.map.get_hashed(BorrowHashed::new_unchecked(hash, &owned))
    }

    /// The entries in insertion order.
    pub fn iter(&self) -> (r: Vec<(&String, &T)>)
        ensures
            r@.len() == self@.len(),
            forall|i: int|
                0 <= i < r@.len() ==> (#[trigger] r@[i]).0@ == self@[i].0 && *r@[i].1 == self@[i].1,
    {
        self.map.iter()
    }

    /// The names in insertion order.
    pub fn keys(&self) -> (r: Vec<&String>)
        ensures
            r@.len() == self@.len(),
            forall|i: int| 0 <= i < r@.len() ==> (#[trigger] r@[i])@ == self@[i].0,
    {
        self.map.keys()
    }
}

} // verus!
