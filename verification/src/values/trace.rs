//! Tracing: finding the objects of a heap that are in use.
//!
//! An object is in use if a root points to it, or an object in use holds a
//! value that points to it. Tracing starts at the roots and follows the
//! values that the objects hold, until no new object turns up.

use vstd::prelude::*;

use crate::values::heap::{children, place_in, Heap, ObjectView};
use crate::values::value::Value;

verus! {

/// The objects of a heap that are in use.
pub struct Reached {
    /// The places of the objects in use, in the order in which they were
    /// found.
    order: Vec<usize>,
    /// For each place of the heap, where it stands in `order`, if its
    /// object is in use.
    forward: Vec<Option<usize>>,
}

/// Every object in `order` is numbered by its place in `order`, and no
/// other object has a number.
pub open spec fn numbered(order: Seq<usize>, forward: Seq<Option<usize>>) -> bool {
    &&& forall|k: int|
        0 <= k < order.len() ==> (#[trigger] order[k]) < forward.len() && forward[order[k] as int]
            == Some(k as usize)
    &&& forall|i: int|
        0 <= i < forward.len() ==> ((#[trigger] forward[i]) matches Some(k) ==> k < order.len()
            && order[k as int] == i)
}

/// If the value points to an object of the heap, the object has a number.
pub open spec fn marked(forward: Seq<Option<usize>>, v: Value) -> bool {
    place_in(forward.len(), v) matches Some(j) ==> forward[j] is Some
}

/// Every value that one of the first `p` objects in `order` holds is
/// marked.
pub open spec fn closed_up_to(
    objects: Seq<ObjectView>,
    order: Seq<usize>,
    forward: Seq<Option<usize>>,
    p: int,
) -> bool {
    forall|k: int, c: int|
        0 <= k < p && 0 <= c < children(objects[order[k] as int]).len() ==> marked(
            forward,
            #[trigger] children(objects[order[k] as int])[c],
        )
}

/// The `k`-th object in `order` is in use: a root points to it, or an
/// object before it in `order` holds a value that points to it.
pub open spec fn in_use(objects: Seq<ObjectView>, roots: Seq<Value>, order: Seq<usize>, k: int) -> bool {
    ||| exists|r: int|
        0 <= r < roots.len() && place_in(objects.len(), #[trigger] roots[r]) == Some(order[k] as int)
    ||| exists|b: int, c: int|
        0 <= b < k && 0 <= c < children(objects[order[b] as int]).len() && place_in(
            objects.len(),
            #[trigger] children(objects[order[b] as int])[c],
        ) == Some(order[k] as int)
}

/// A sequence of different numbers below `n` has at most `n` of them.
proof fn lemma_distinct_below(s: Seq<usize>, n: nat)
    requires
        forall|i: int| 0 <= i < s.len() ==> (#[trigger] s[i]) < n,
        forall|i: int, j: int| 0 <= i < j < s.len() ==> s[i] != s[j],
    ensures
        s.len() <= n,
    decreases n,
{
    if s.len() > 0 {
        if n == 0 {
            assert(s[0] < n);
        } else {
            if exists|q: int| 0 <= q < s.len() && s[q] == n - 1 {
                let q = choose|q: int| 0 <= q < s.len() && s[q] == n - 1;
                let t = s.remove(q);
                assert forall|i: int| 0 <= i < t.len() implies (#[trigger] t[i]) < (n - 1) as nat by {
                    let i0 = if i < q { i } else { i + 1 };
                    assert(t[i] == s[i0]);
                    if i0 < q {
                        assert(s[i0] != s[q]);
                    } else {
                        assert(s[q] != s[i0]);
                    }
                }
                assert forall|i: int, j: int| 0 <= i < j < t.len() implies t[i] != t[j] by {
                    let i0 = if i < q { i } else { i + 1 };
                    let j0 = if j < q { j } else { j + 1 };
                    assert(t[i] == s[i0] && t[j] == s[j0]);
                }
                lemma_distinct_below(t, (n - 1) as nat);
            } else {
                assert forall|i: int| 0 <= i < s.len() implies (#[trigger] s[i]) < (n - 1) as nat by {
                    assert(s[i] < n);
                }
                lemma_distinct_below(s, (n - 1) as nat);
            }
        }
    }
}

/// There are no more numbered objects than objects.
pub proof fn lemma_numbered_len(order: Seq<usize>, forward: Seq<Option<usize>>)
    requires
        numbered(order, forward),
        order.len() <= usize::MAX,
    ensures
        order.len() <= forward.len(),
{
    assert forall|i: int, j: int| 0 <= i < j < order.len() implies order[i] != order[j] by {
        assert(forward[order[i] as int] == Some(i as usize));
        assert(forward[order[j] as int] == Some(j as usize));
    }
    lemma_distinct_below(order, forward.len());
}

impl Reached {
    /// The places of the objects in use, in the order in which they were
    /// found.
    pub closed spec fn order(&self) -> Seq<usize> {
        self.order@
    }

    /// For each place of the heap, where it stands in the order, if its
    /// object is in use.
    pub closed spec fn forward(&self) -> Seq<Option<usize>> {
        self.forward@
    }

    /// These are the objects of a heap with the objects `objects` that are
    /// in use from the roots `roots`: every object that a root points to
    /// is among them, with every object that one of them points to, and
    /// every one of them is in use.
    pub open spec fn traces(&self, objects: Seq<ObjectView>, roots: Seq<Value>) -> bool {
        &&& self.forward().len() == objects.len()
        &&& numbered(self.order(), self.forward())
        &&& forall|r: int| 0 <= r < roots.len() ==> marked(self.forward(), #[trigger] roots[r])
        &&& closed_up_to(objects, self.order(), self.forward(), self.order().len() as int)
        &&& forall|k: int| 0 <= k < self.order().len() ==> in_use(objects, roots, self.order(), k)
    }

    /// How many objects the heap that was traced holds.
    pub fn heap_len(&self) -> (n: usize)
        ensures
            n == self.forward().len(),
    {
        self.forward.len()
    }

    /// How many objects are in use.
    pub fn len(&self) -> (n: usize)
        ensures
            n == self.order().len(),
    {
        self.order.len()
    }

    /// The place in the heap of the `k`-th object in use.
    pub fn place(&self, k: usize) -> (i: usize)
        requires
            k < self.order().len(),
        ensures
            i == self.order()[k as int],
    {
        self.order[k]
    }

    /// Where the object at place `i` of the heap stands among the objects
    /// in use, if it is in use.
    pub fn number_of(&self, i: usize) -> (k: Option<usize>)
        requires
            i < self.forward().len(),
        ensures
            k == self.forward()[i as int],
    {
        self.forward[i]
    }

    /// Marks the object that `v` points to, if it points to one that is
    /// not marked yet.
    fn mark(&mut self, heap: &Heap, v: Value)
        requires
            old(self).forward@.len() == heap@.len(),
            numbered(old(self).order@, old(self).forward@),
        ensures
            final(self).forward@.len() == heap@.len(),
            numbered(final(self).order@, final(self).forward@),
            marked(final(self).forward@, v),
            forall|j: int|
                0 <= j < heap@.len() && old(self).forward@[j] is Some ==> final(self).forward@[j]
                    == old(self).forward@[j],
            final(self).order@.len() >= old(self).order@.len(),
            final(self).order@.len() <= old(self).order@.len() + 1,
            forall|k: int|
                0 <= k < old(self).order@.len() ==> final(self).order@[k] == old(self).order@[k],
            final(self).order@.len() > old(self).order@.len() ==> place_in(heap@.len(), v) == Some(
                final(self).order@.last() as int,
            ),
    {
        match heap.place_of(v) {
            None => {},
            Some(j) => {
                if self.forward[j].is_none() {
                    let k = self.order.len();
                    self.forward[j] = Some(k);
                    self.order.push(j);
                    proof {
                        assert forall|a: int| 0 <= a < self.order@.len() implies (
                        #[trigger] self.order@[a]) < self.forward@.len() && self.forward@[self.order@[a] as int]
                            == Some(a as usize) by {
                            if a < k {
                                assert(self.order@[a] == old(self).order@[a]);
                                assert(old(self).forward@[old(self).order@[a] as int] == Some(
                                    a as usize,
                                ));
                            }
                        }
                        assert forall|i: int| 0 <= i < self.forward@.len() implies ((
                        #[trigger] self.forward@[i]) matches Some(q) ==> q < self.order@.len()
                            && self.order@[q as int] == i) by {
                            if i != j {
                                assert(self.forward@[i] == old(self).forward@[i]);
                                match old(self).forward@[i] {
                                    Some(q) => {
                                        assert(self.order@[q as int] == old(self).order@[q as int]);
                                    },
                                    None => {},
                                }
                            }
                        }
                    }
                }
            },
        }
    }
}

impl Heap {
    /// Finds the objects that are in use from `roots`.
    pub fn trace(&self, roots: &[Value]) -> (reached: Reached)
        requires
            self.wf(),
        ensures
            reached.traces(self@, roots@),
    {
        let n = self.allocated();
        let mut forward: Vec<Option<usize>> = Vec::new();
        let mut i: usize = 0;
        while i < n
            invariant
                i <= n,
                forward@.len() == i,
                forall|j: int| 0 <= j < i ==> forward@[j] is None,
            decreases n - i,
        {
            forward.push(None);
            i += 1;
        }
        let mut reached = Reached { order: Vec::new(), forward };
        // Start at the roots.
        let mut r: usize = 0;
        while r < roots.len()
            invariant
                r <= roots@.len(),
                n == self@.len(),
                reached.forward@.len() == n,
                numbered(reached.order@, reached.forward@),
                forall|q: int| 0 <= q < r ==> marked(reached.forward@, #[trigger] roots@[q]),
                forall|k: int| 0 <= k < reached.order@.len() ==> in_use(self@, roots@, reached.order@, k),
            decreases roots@.len() - r,
        {
            let ghost before = reached;
            reached.mark(self, roots[r]);
            proof {
                assert forall|k: int| 0 <= k < reached.order@.len() implies in_use(
                    self@,
                    roots@,
                    reached.order@,
                    k,
                ) by {
                    if k < before.order@.len() {
                        Self::lemma_in_use_stays(self@, roots@, before.order@, reached.order@, k);
                    } else {
                        assert(place_in(self@.len(), roots@[r as int]) == Some(reached.order@[k] as int));
                    }
                }
            }
            r += 1;
        }
        // Follow the values that the objects in use hold.
        let mut p: usize = 0;
        while p < reached.order.len()
            invariant
                self.wf(),
                n == self@.len(),
                reached.forward@.len() == n,
                numbered(reached.order@, reached.forward@),
                p <= reached.order@.len(),
                forall|q: int| 0 <= q < roots@.len() ==> marked(reached.forward@, #[trigger] roots@[q]),
                closed_up_to(self@, reached.order@, reached.forward@, p as int),
                forall|k: int| 0 <= k < reached.order@.len() ==> in_use(self@, roots@, reached.order@, k),
            decreases n - p,
        {
            proof {
                lemma_numbered_len(reached.order@, reached.forward@);
            }
            let place = reached.order[p];
            let held = self.children_at(place);
            let mut c: usize = 0;
            while c < held.len()
                invariant
                    self.wf(),
                    n == self@.len(),
                    reached.forward@.len() == n,
                    numbered(reached.order@, reached.forward@),
                    p < reached.order@.len(),
                    place == reached.order@[p as int],
                    held@ == children(self@[place as int]),
                    c <= held@.len(),
                    forall|q: int|
                        0 <= q < roots@.len() ==> marked(reached.forward@, #[trigger] roots@[q]),
                    closed_up_to(self@, reached.order@, reached.forward@, p as int),
                    forall|q: int| 0 <= q < c ==> marked(reached.forward@, #[trigger] held@[q]),
                    forall|k: int|
                        0 <= k < reached.order@.len() ==> in_use(self@, roots@, reached.order@, k),
                decreases held@.len() - c,
            {
                let ghost before = reached;
                reached.mark(self, held[c]);
                proof {
                    assert forall|k: int| 0 <= k < reached.order@.len() implies in_use(
                        self@,
                        roots@,
                        reached.order@,
                        k,
                    ) by {
                        if k < before.order@.len() {
                            Self::lemma_in_use_stays(self@, roots@, before.order@, reached.order@, k);
                        } else {
                            assert(reached.order@[p as int] == place);
                            assert(place_in(
                                self@.len(),
                                children(self@[reached.order@[p as int] as int])[c as int],
                            ) == Some(reached.order@[k] as int));
                        }
                    }
                    assert forall|a: int, b: int|
                        0 <= a < p && 0 <= b < children(
                            self@[reached.order@[a] as int],
                        ).len() implies marked(
                        reached.forward@,
                        #[trigger] children(self@[reached.order@[a] as int])[b],
                    ) by {
                        assert(reached.order@[a] == before.order@[a]);
                        assert(marked(before.forward@, children(self@[before.order@[a] as int])[b]));
                    }
                    assert forall|q: int| 0 <= q < roots@.len() implies marked(
                        reached.forward@,
                        #[trigger] roots@[q],
                    ) by {
                        assert(marked(before.forward@, roots@[q]));
                    }
                    assert forall|q: int| 0 <= q < c + 1 implies marked(
                        reached.forward@,
                        #[trigger] held@[q],
                    ) by {
                        if q < c {
                            assert(marked(before.forward@, held@[q]));
                        }
                    }
                }
                c += 1;
            }
            p += 1;
        }
        reached
    }

    /// An object that is in use stays in use when more objects are found.
    proof fn lemma_in_use_stays(
        objects: Seq<ObjectView>,
        roots: Seq<Value>,
        before: Seq<usize>,
        after: Seq<usize>,
        k: int,
    )
        requires
            0 <= k < before.len() <= after.len(),
            forall|a: int| 0 <= a < before.len() ==> after[a] == before[a],
            in_use(objects, roots, before, k),
        ensures
            in_use(objects, roots, after, k),
    {
        if exists|r: int|
            0 <= r < roots.len() && place_in(objects.len(), #[trigger] roots[r]) == Some(
                before[k] as int,
            ) {
            let r = choose|r: int|
                0 <= r < roots.len() && place_in(objects.len(), #[trigger] roots[r]) == Some(
                    before[k] as int,
                );
            assert(place_in(objects.len(), roots[r]) == Some(after[k] as int));
        } else {
            let (b, c) = choose|b: int, c: int|
                0 <= b < k && 0 <= c < children(objects[before[b] as int]).len() && place_in(
                    objects.len(),
                    #[trigger] children(objects[before[b] as int])[c],
                ) == Some(before[k] as int);
            assert(after[b] == before[b]);
            assert(place_in(objects.len(), children(objects[after[b] as int])[c]) == Some(
                after[k] as int,
            ));
        }
    }
}

} // verus!
