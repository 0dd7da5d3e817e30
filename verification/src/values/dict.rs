//! The dictionary of the language: a map from hashable keys to values that
//! keeps its entries in insertion order.

use vstd::prelude::*;

use crate::collections::hash::{BorrowHashed, Hashed};
use crate::collections::hasher::{fed_str, feed_str, Hashable, StarlarkHasher};
use crate::collections::small_map::SmallMap;
use crate::values::value::Value;

verus! {

/// A key of a dictionary. Keys are compared by what they hold, not by
/// where they live.
#[derive(Debug)]
pub enum DictKey {
    Null,
    Bool(bool),
    Int(i32),
    Str(String),
}

/// What a key holds.
pub enum DictKeyView {
    Null,
    Bool(bool),
    Int(i32),
    Str(Seq<char>),
}

impl View for DictKey {
    type V = DictKeyView;

    open spec fn view(&self) -> DictKeyView {
        match self {
            DictKey::Null => DictKeyView::Null,
            DictKey::Bool(b) => DictKeyView::Bool(*b),
            DictKey::Int(i) => DictKeyView::Int(*i),
            DictKey::Str(s) => DictKeyView::Str(s@),
        }
    }
}

impl Hashable for DictKey {
    /// A string key feeds what the string feeds, and an integer key what
    /// the integer feeds, so that either has the hash of what it holds.
    open spec fn fed(writes: Seq<Seq<u8>>, value: DictKeyView) -> Seq<Seq<u8>> {
        match value {
            DictKeyView::Null => writes.push(seq![0u8]),
            DictKeyView::Bool(b) => <bool as Hashable>::fed(writes, b),
            DictKeyView::Int(i) => <i32 as Hashable>::fed(writes, i),
            DictKeyView::Str(s) => fed_str(writes, s),
        }
    }

    fn feed(&self, state: &mut StarlarkHasher) {
        match self {
            DictKey::Null => {
                let bytes: [u8; 1] = [0u8];
                assert(bytes@ =~= seq![0u8]);
                state.write(bytes.as_slice());
            },
            DictKey::Bool(b) => b.feed(state),
            DictKey::Int(i) => i.feed(state),
            DictKey::Str(s) => feed_str(s.as_str(), state),
        }
    }

    fn same(&self, other: &Self) -> (b: bool) {
        match (self, other) {
            (DictKey::Null, DictKey::Null) => true,
            (DictKey::Bool(a), DictKey::Bool(b)) => *a == *b,
            (DictKey::Int(a), DictKey::Int(b)) => *a == *b,
            (DictKey::Str(a), DictKey::Str(b)) => *a == *b,
            _ => false,
        }
    }
}

impl DictKey {
    /// The string in the key, if it holds one.
    pub fn unpack_str(&self) -> (r: Option<&str>)
        ensures
            r matches Some(s) ==> self@ == DictKeyView::Str(s@),
            r is None ==> !(self@ is Str),
    {
        match self {
            DictKey::Str(s) => Some(s.as_str()),
            _ => None,
        }
    }

    /// A copy of the key.
    pub fn duplicate(&self) -> (r: DictKey)
        ensures
            r@ == self@,
    {
        match self {
            DictKey::Null => DictKey::Null,
            DictKey::Bool(b) => DictKey::Bool(*b),
            DictKey::Int(i) => DictKey::Int(*i),
            DictKey::Str(s) => DictKey::Str(s.clone()),
        }
    }
}

/// A dictionary.
pub struct Dict {
    content: SmallMap<DictKey, Value>,
}

impl View for Dict {
    type V = Seq<(DictKeyView, Value)>;

    /// The entries in insertion order.
    closed spec fn view(&self) -> Seq<(DictKeyView, Value)> {
        self.content@
    }
}

impl Dict {
    /// The map inside is well formed.
    pub closed spec fn wf(&self) -> bool {
        self.content.wf()
    }

    /// No two entries of a well-formed dictionary have the same key.
    pub proof fn lemma_wf(&self)
        requires
            self.wf(),
        ensures
            crate::collections::vec_map::distinct_keys(self@),
    {
        self.content.lemma_wf();
    }

    /// The dictionary with the entries of `content`.
    pub fn new(content: SmallMap<DictKey, Value>) -> (d: Dict)
        requires
            content.wf(),
        ensures
            d.wf(),
            d@ == content@,
    {
        Dict { content }
    }

    /// The empty dictionary.
    pub fn empty() -> (d: Dict)
        ensures
            d.wf(),
            d@ == Seq::<(DictKeyView, Value)>::empty(),
    {
        Dict { content: SmallMap::new() }
    }

    /// The number of entries.
    pub fn len(&self) -> (n: usize)
        ensures
            n == self@.len(),
    {
        self.content.len()
    }

    /// The map inside.
    pub fn content(&self) -> (m: &SmallMap<DictKey, Value>)
        ensures
            m@ == self@,
            m.wf() == self.wf(),
    {
        &self.content
    }

    /// The entries in insertion order, each key with its hash.
    pub fn iter_hashed(&self) -> (r: Vec<(BorrowHashed<'_, DictKey>, Value)>)
        requires
            self.wf(),
        ensures
            r@.len() == self@.len(),
            forall|i: int|
                0 <= i < r@.len() ==> {
                    &&& (#[trigger] r@[i]).0.spec_key()@ == self@[i].0
                    &&& r@[i].0.wf()
                    &&& r@[i].1 == self@[i].1
                },
    {
        let items = self.content.iter_hashed();
        let mut r: Vec<(BorrowHashed<'_, DictKey>, Value)> = Vec::new();
        let n = items.len();
        let mut i: usize = 0;
        while i < n
            invariant
                n == items@.len(),
                n == self@.len(),
                i <= n,
                r@.len() == i,
                forall|j: int|
                    0 <= j < n ==> {
                        &&& (#[trigger] items@[j]).0.spec_key()@ == self@[j].0
                        &&& items@[j].0.wf()
                        &&& *items@[j].1 == self@[j].1
                    },
                forall|j: int|
                    0 <= j < i ==> {
                        &&& (#[trigger] r@[j]).0.spec_key()@ == self@[j].0
                        &&& r@[j].0.wf()
                        &&& r@[j].1 == self@[j].1
                    },
            decreases n - i,
        {
            let e = &items[i];
            r.push((e.0, *e.1));
            i += 1;
        }
        r
    }
}

} // verus!
