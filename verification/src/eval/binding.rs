//! The binding of the arguments of a call to the parameters of the
//! function called.
//!
//! What a binding gives is a function of the parameters, the arguments, the
//! slots and the heap (`ParametersSpec::bind`), put together from one
//! function for each step. The code takes the same steps, and each step is
//! proved to do what its function says.

use vstd::prelude::*;

use crate::collections::hash::Hashed;
use crate::collections::small_map::SmallMap;
use crate::collections::vec_map::{
    distinct_keys, inserted, lemma_index_of_key_none, lemma_index_of_key_some, lookup,
};
use crate::eval::arguments::{Arguments, ArgumentsView, FunctionError, FunctionErrorView, ParametersParser};
use crate::eval::parameters::{ParameterKind, ParametersSpec};
use crate::values::dict::{Dict, DictKey, DictKeyView};
use crate::values::heap::{dict_in, elements_in, heap_word, Heap, ObjectView};
use crate::values::value::{Value, ValueLike};

verus! {

/// A binding under way.
pub struct Binding {
    /// The slots of the parameters, as filled so far.
    pub slots: Seq<Option<Value>>,
    /// The positional arguments that no parameter took.
    pub star_args: Seq<Value>,
    /// The named arguments that no parameter has the name of.
    pub kwargs: Seq<(Seq<char>, Value)>,
    /// How many parameters have been filled by position.
    pub next_position: int,
    /// The lowest place that a named argument went to.
    pub lowest_name: int,
}

/// How a binding ends: the slots and the heap as it leaves them, and its
/// result.
pub struct Bound {
    pub slots: Seq<Option<Value>>,
    pub heap: Seq<ObjectView>,
    pub result: Result<(), FunctionErrorView>,
}

/// As many slots as asked for, all empty.
pub open spec fn empty_slots(n: nat) -> Seq<Option<Value>> {
    Seq::new(n, |i: int| None)
}

/// A binding that has seen no argument.
pub open spec fn binding_start(slots: Seq<Option<Value>>) -> Binding {
    Binding {
        slots,
        star_args: Seq::empty(),
        kwargs: Seq::empty(),
        next_position: 0,
        lowest_name: usize::MAX as int,
    }
}

/// How many of `count` values go to positional parameters, when
/// `next_position` of `positional` are filled.
pub open spec fn positional_taken(next_position: int, count: int, positional: int) -> int {
    if positional <= next_position {
        0
    } else if count <= positional - next_position {
        count
    } else {
        positional - next_position
    }
}

/// Positional values continue the positional parameters; those that find
/// none left go to the values for `*args`.
pub open spec fn fill_positional(b: Binding, values: Seq<Value>, positional: int) -> Binding {
    let k = positional_taken(b.next_position, values.len() as int, positional);
    Binding {
        slots: Seq::new(
            b.slots.len(),
            |i: int|
                if b.next_position <= i < b.next_position + k {
                    Some(values[i - b.next_position])
                } else {
                    b.slots[i]
                },
        ),
        star_args: b.star_args + values.skip(k),
        next_position: b.next_position + k,
        ..b
    }
}

/// One named argument goes to the parameter of its name, where it replaces
/// what is there; with no such parameter, it goes to the values for
/// `**kwargs`, where it replaces a value of the same name.
pub open spec fn bind_one_named(
    b: Binding,
    name: Seq<char>,
    v: Value,
    table: Seq<(Seq<char>, usize)>,
) -> Binding {
    match lookup(table, name) {
        Some(i) => Binding {
            slots: b.slots.update(i as int, Some(v)),
            lowest_name: if i < b.lowest_name {
                i as int
            } else {
                b.lowest_name
            },
            ..b
        },
        None => Binding { kwargs: inserted(b.kwargs, name, v), ..b },
    }
}

/// The first `n` named arguments, one after the other.
pub open spec fn bind_named(
    b: Binding,
    names: Seq<Seq<char>>,
    named: Seq<Value>,
    table: Seq<(Seq<char>, usize)>,
    n: nat,
) -> Binding
    decreases n,
{
    if n == 0 {
        b
    } else {
        bind_one_named(
            bind_named(b, names, named, table, (n - 1) as nat),
            names[n - 1],
            named[n - 1],
            table,
        )
    }
}

/// One entry of the `**kwargs` argument. Its key must be a string. It
/// goes where a named argument of that name goes, but must find the place
/// empty.
pub open spec fn bind_one_kwarg(
    b: Binding,
    key: DictKeyView,
    v: Value,
    table: Seq<(Seq<char>, usize)>,
) -> (Binding, Option<FunctionErrorView>) {
    match key {
        DictKeyView::Str(name) => match lookup(table, name) {
            Some(i) => (
                Binding { slots: b.slots.update(i as int, Some(v)), ..b },
                if b.slots[i as int] is Some {
                    Some(FunctionErrorView::RepeatedParameter { name })
                } else {
                    None
                },
            ),
            None => (
                Binding { kwargs: inserted(b.kwargs, name, v), ..b },
                if lookup(b.kwargs, name) is Some {
                    Some(FunctionErrorView::RepeatedParameter { name })
                } else {
                    None
                },
            ),
        },
        _ => (b, Some(FunctionErrorView::ArgsValueIsNotString)),
    }
}

/// The first `n` entries of the `**kwargs` argument, one after the other,
/// up to the first that fails.
pub open spec fn bind_kwargs(
    b: Binding,
    entries: Seq<(DictKeyView, Value)>,
    table: Seq<(Seq<char>, usize)>,
    n: nat,
) -> (Binding, Option<FunctionErrorView>)
    decreases n,
{
    if n == 0 {
        (b, None)
    } else {
        let before = bind_kwargs(b, entries, table, (n - 1) as nat);
        if before.1 is Some {
            before
        } else {
            bind_one_kwarg(before.0, entries[n - 1].0, entries[n - 1].1, table)
        }
    }
}

/// The first place from `from` on whose slot is empty and whose parameter
/// is required.
pub open spec fn first_missing<V>(
    slots: Seq<Option<Value>>,
    kinds: Seq<ParameterKind<V>>,
    from: int,
) -> Option<int>
    decreases kinds.len() - from,
{
    if from < 0 || from >= kinds.len() {
        None
    } else if slots[from] is None && kinds[from] is Required {
        Some(from)
    } else {
        first_missing(slots, kinds, from + 1)
    }
}

/// The slots once every empty slot from `from` up to `to` whose parameter
/// has a default has taken it.
pub open spec fn with_defaults<V: ValueLike>(
    slots: Seq<Option<Value>>,
    kinds: Seq<ParameterKind<V>>,
    from: int,
    to: int,
) -> Seq<Option<Value>> {
    Seq::new(
        slots.len(),
        |i: int|
            if from <= i < to && i < kinds.len() && slots[i] is None {
                match kinds[i] {
                    ParameterKind::Defaulted(x) => Some(x.spec_to_value()),
                    _ => slots[i],
                }
            } else {
                slots[i]
            },
    )
}

/// The entries of the dictionary made of the named arguments that are
/// left.
pub open spec fn kwargs_entries(kwargs: Seq<(Seq<char>, Value)>) -> Seq<(DictKeyView, Value)> {
    Seq::new(kwargs.len(), |i: int| (DictKeyView::Str(kwargs[i].0), kwargs[i].1))
}

/// The names of the named arguments that are left.
pub open spec fn kwargs_names(kwargs: Seq<(Seq<char>, Value)>) -> Seq<Seq<char>> {
    Seq::new(kwargs.len(), |i: int| kwargs[i].0)
}

impl<V: ValueLike> ParametersSpec<V> {
    /// The binding after the positional and the named arguments.
    pub open spec fn bound_explicit(&self, args: ArgumentsView, slots: Seq<Option<Value>>) -> Binding {
        bind_named(
            fill_positional(binding_start(slots), args.pos, self.positional() as int),
            args.names,
            args.named,
            self.names(),
            args.named_count(),
        )
    }

    /// The last steps of a binding, for one whose arguments have all found
    /// their place: the `*args` parameter takes a new tuple of the
    /// positional arguments that are left, and it is an error if there are
    /// some and no such parameter; then the same for `**kwargs`, a new
    /// dictionary and the named arguments that are left.
    pub open spec fn bound_variadic(&self, b: Binding, heap: Seq<ObjectView>) -> Bound {
        let with_tuple = match self.args_index() {
            Some(a) => Some(
                (
                    b.slots.update(a as int, Some(Value::from_word(heap_word(heap.len() as int, false)))),
                    heap.push(ObjectView::Tuple(b.star_args)),
                ),
            ),
            None => if b.star_args.len() > 0 {
                None
            } else {
                Some((b.slots, heap))
            },
        };
        match with_tuple {
            None => Bound {
                slots: b.slots,
                heap,
                result: Err(
                    FunctionErrorView::ExtraPositionalParameters {
                        count: b.star_args.len() as usize,
                        function: self.function_name(),
                    },
                ),
            },
            Some((slots, heap)) => match self.kwargs_index() {
                Some(k) => Bound {
                    slots: slots.update(k as int, Some(Value::from_word(heap_word(heap.len() as int, false)))),
                    heap: heap.push(ObjectView::Dict(kwargs_entries(b.kwargs))),
                    result: Ok(()),
                },
                None => if b.kwargs.len() > 0 {
                    Bound {
                        slots,
                        heap,
                        result: Err(
                            FunctionErrorView::ExtraNamedParameters {
                                names: kwargs_names(b.kwargs),
                                function: self.function_name(),
                            },
                        ),
                    }
                } else {
                    Bound { slots, heap, result: Ok(()) }
                },
            },
        }
    }

    /// A binding from the point where every argument has found its place:
    /// an empty slot of a required parameter is an error, and the first of
    /// them is reported; the other empty slots take their defaults. Only
    /// then are arguments that are left over looked at.
    pub open spec fn bound_defaults(&self, b: Binding, heap: Seq<ObjectView>) -> Bound {
        match first_missing(b.slots, self.kinds(), b.next_position) {
            Some(m) => Bound {
                slots: with_defaults(b.slots, self.kinds(), b.next_position, m),
                heap,
                result: Err(
                    FunctionErrorView::MissingParameter {
                        name: self.name_at(m),
                        function: self.function_name(),
                    },
                ),
            },
            None => self.bound_variadic(
                Binding {
                    slots: with_defaults(
                        b.slots,
                        self.kinds(),
                        b.next_position,
                        self.kinds().len() as int,
                    ),
                    ..b
                },
                heap,
            ),
        }
    }

    /// A binding from the point where the `**kwargs` argument is looked
    /// at. It must be a dictionary.
    pub open spec fn bound_kwargs(&self, b: Binding, args: ArgumentsView, heap: Seq<ObjectView>) -> Bound {
        match args.kwargs {
            None => self.bound_defaults(b, heap),
            Some(kw) => match dict_in(heap, kw) {
                None => Bound { slots: b.slots, heap, result: Err(FunctionErrorView::KwArgsIsNotDict) },
                Some(entries) => {
                    let after = bind_kwargs(b, entries, self.names(), entries.len());
                    match after.1 {
                        Some(e) => Bound { slots: after.0.slots, heap, result: Err(e) },
                        None => self.bound_defaults(after.0, heap),
                    }
                },
            },
        }
    }

    /// A binding from the point where the `*args` argument is looked at.
    /// It must be iterable, and its elements continue the positional
    /// arguments. Then a parameter that got a value both by position and
    /// by name is an error.
    pub open spec fn bound_star(&self, b: Binding, args: ArgumentsView, heap: Seq<ObjectView>) -> Bound {
        let after = match args.args {
            None => Some(b),
            Some(star) => match elements_in(heap, star) {
                None => None,
                Some(items) => Some(fill_positional(b, items, self.positional() as int)),
            },
        };
        match after {
            None => Bound { slots: b.slots, heap, result: Err(FunctionErrorView::ArgsArrayIsNotIterable) },
            Some(b) => if b.next_position > b.lowest_name {
                Bound {
                    slots: b.slots,
                    heap,
                    result: Err(
                        FunctionErrorView::RepeatedParameter { name: self.name_at(b.lowest_name) },
                    ),
                }
            } else {
                self.bound_kwargs(b, args, heap)
            },
        }
    }

    /// What binding the arguments `args` gives, from slots that hold
    /// `slots` and a heap that holds `heap`.
    pub open spec fn bind(&self, args: ArgumentsView, slots: Seq<Option<Value>>, heap: Seq<ObjectView>) -> Bound {
        self.bound_star(self.bound_explicit(args, slots), args, heap)
    }
}

/// The dictionary whose keys are the names of `names` and whose values are
/// theirs, in the same order.
pub fn dict_of_names(names: SmallMap<String, Value>) -> (d: Dict)
    requires
        names.wf(),
    ensures
        d.wf(),
        d@ == kwargs_entries(names@),
{
    proof {
        names.lemma_wf();
    }
    let ghost source = names@;
    let entries = names.into_iter_hashed();
    let mut content: SmallMap<DictKey, Value> = SmallMap::new();
    let n = entries.len();
    let mut i: usize = 0;
    while i < n
        invariant
            n == entries@.len(),
            n == source.len(),
            i <= n,
            distinct_keys(source),
            content.wf(),
            content@ == kwargs_entries(source.take(i as int)),
            forall|j: int|
                0 <= j < n ==> {
                    &&& (#[trigger] entries@[j]).0.spec_key()@ == source[j].0
                    &&& entries@[j].0.wf()
                    &&& entries@[j].1 == source[j].1
                },
        decreases n - i,
    {
        let e = &entries[i];
        let key = Hashed::new_unchecked(e.0.hash(), DictKey::Str(e.0.key().clone()));
        proof {
            let k = DictKeyView::Str(source[i as int].0);
            assert forall|j: int| 0 <= j < content@.len() implies content@[j].0 != k by {
                assert(source[j].0 != source[i as int].0);
            }
            lemma_index_of_key_none(content@, k);
            assert(kwargs_entries(source.take(i as int)).push((k, source[i as int].1))
                =~= kwargs_entries(source.take(i as int + 1)));
        }
        content.insert_hashed(key, e.1);
        i += 1;
    }
    assert(source.take(n as int) =~= source);
    Dict::new(content)
}

/// The named arguments that no parameter has the name of. The map is made
/// when the first of them comes.
struct LazyKwargs {
    kwargs: Option<SmallMap<String, Value>>,
}

impl View for LazyKwargs {
    type V = Seq<(Seq<char>, Value)>;

    closed spec fn view(&self) -> Seq<(Seq<char>, Value)> {
        match self.kwargs {
            Some(m) => m@,
            None => Seq::empty(),
        }
    }
}

impl LazyKwargs {
    /// The map, once made, is well formed and not empty.
    closed spec fn wf(&self) -> bool {
        self.kwargs matches Some(m) ==> m.wf() && m@.len() > 0
    }

    /// Has any argument been put in?
    closed spec fn is_some(&self) -> bool {
        self.kwargs is Some
    }

    /// The map is there exactly when an argument has been put in, and no
    /// name is in it twice.
    proof fn lemma_wf(&self)
        requires
            self.wf(),
        ensures
            self.is_some() == (self@.len() > 0),
            distinct_keys(self@),
    {
        match self.kwargs {
            Some(m) => {
                m.lemma_wf();
            },
            None => {},
        }
    }

    /// No argument, and no map yet.
    fn new() -> (r: Self)
        ensures
            r.wf(),
            r@ == Seq::<(Seq<char>, Value)>::empty(),
    {
        LazyKwargs { kwargs: None }
    }

    /// Sets `key` to `val`. Returns true if the name had a value already.
    fn insert(&mut self, key: Hashed<String>, val: Value) -> (repeated: bool)
        requires
            old(self).wf(),
            key.wf(),
        ensures
            final(self).wf(),
            final(self)@ == inserted(old(self)@, key.spec_key()@, val),
            repeated == lookup(old(self)@, key.spec_key()@).is_some(),
    {
        match &mut self.kwargs {
            None => {
                let mut mp = SmallMap::with_capacity_largest_vec();
                mp.insert_hashed(key, val);
                self.kwargs = Some(mp);
                false
            },
            Some(mp) => {
                let r = mp.insert_hashed(key, val).is_some();
                proof {
                    lemma_index_of_key_some(old(self)@, key.spec_key()@);
                }
                r
            },
        }
    }

    /// The names of the arguments, in the order in which they came.
    fn names(&self) -> (r: Vec<String>)
        ensures
            Seq::new(r@.len(), |i: int| r@[i]@) == kwargs_names(self@),
    {
        let mut r: Vec<String> = Vec::new();
        match &self.kwargs {
            None => {},
            Some(m) => {
                let keys = m.keys();
                let n = keys.len();
                let mut i: usize = 0;
                while i < n
                    invariant
                        n == keys@.len(),
                        n == m@.len(),
                        i <= n,
                        r@.len() == i,
                        forall|j: int| 0 <= j < n ==> (#[trigger] keys@[j])@ == m@[j].0,
                        forall|j: int| 0 <= j < i ==> (#[trigger] r@[j])@ == m@[j].0,
                    decreases n - i,
                {
                    r.push(keys[i].clone());
                    i += 1;
                }
            },
        }
        assert(Seq::new(r@.len(), |i: int| r@[i]@) =~= kwargs_names(self@));
        r
    }

    /// Allocates the dictionary of the arguments.
    fn allocate(self, heap: &mut Heap) -> (v: Value)
        requires
            self.wf(),
            old(heap).wf(),
            old(heap).has_room(1),
        ensures
            final(heap).wf(),
            final(heap).profile() == old(heap).profile(),
            final(heap)@ == old(heap)@.push(ObjectView::Dict(kwargs_entries(self@))),
            v == Value::from_word(heap_word(old(heap)@.len() as int, false)),
    {
        let dict = match self.kwargs {
            Some(kwargs) => dict_of_names(kwargs),
            None => {
                let d = Dict::empty();
                assert(d@ =~= kwargs_entries(self@));
                d
            },
        };
        let v = heap.alloc_dict(dict);
        proof {
            Value::lemma_from_word(heap_word(old(heap)@.len() as int, false));
        }
        v
    }
}

/// Writes positional values to the slots of the positional parameters that
/// are left, from `next_position` on, and puts the values that find no
/// parameter at the end of `star_args`. Returns the new `next_position`.
fn fill_positional_slots(
    values: &[Value],
    positional: usize,
    slots: &mut [Option<Value>],
    star_args: &mut Vec<Value>,
    next_position: usize,
) -> (next: usize)
    requires
        next_position <= positional <= old(slots)@.len(),
    ensures
        ({
            let b = Binding {
                slots: old(slots)@,
                star_args: old(star_args)@,
                kwargs: Seq::empty(),
                next_position: next_position as int,
                lowest_name: 0,
            };
            let after = fill_positional(b, values@, positional as int);
            &&& final(slots)@ == after.slots
            &&& final(star_args)@ == after.star_args
            &&& next == after.next_position
        }),
        next <= positional,
        final(slots)@.len() == old(slots)@.len(),
{
    let ghost b = Binding {
        slots: slots@,
        star_args: star_args@,
        kwargs: Seq::empty(),
        next_position: next_position as int,
        lowest_name: 0,
    };
    let mut next = next_position;
    let n = values.len();
    let mut i: usize = 0;
    while i < n
        invariant
            n == values@.len(),
            i <= n,
            next_position <= next <= positional <= slots@.len(),
            slots@.len() == b.slots.len(),
            b.next_position == next_position,
            ({
                let after = fill_positional(b, values@.take(i as int), positional as int);
                &&& slots@ == after.slots
                &&& star_args@ == after.star_args
                &&& next == after.next_position
            }),
        decreases n - i,
    {
        let ghost before = fill_positional(b, values@.take(i as int), positional as int);
        let ghost after = fill_positional(b, values@.take(i as int + 1), positional as int);
        let v = values[i];
        if next < positional {
            slots[next] = Some(v);
            next += 1;
            proof {
                assert(slots@ =~= after.slots);
                assert(values@.take(i as int).skip(i as int) =~= Seq::<Value>::empty());
                assert(values@.take(i as int + 1).skip(i as int + 1) =~= Seq::<Value>::empty());
                assert(star_args@ =~= after.star_args);
            }
        } else {
            star_args.push(v);
            proof {
                let k = positional - next_position;
                assert(slots@ =~= after.slots);
                assert(values@.take(i as int + 1).skip(k) =~= values@.take(i as int).skip(k).push(v));
                assert(star_args@ =~= after.star_args);
            }
        }
        i += 1;
    }
    assert(values@.take(n as int) =~= values@);
    next
}

/// The named arguments leave alone what the positional ones have settled.
proof fn lemma_bind_named_keeps(
    b: Binding,
    names: Seq<Seq<char>>,
    named: Seq<Value>,
    table: Seq<(Seq<char>, usize)>,
    n: nat,
)
    ensures
        bind_named(b, names, named, table, n).star_args == b.star_args,
        bind_named(b, names, named, table, n).next_position == b.next_position,
        bind_named(b, names, named, table, n).lowest_name <= b.lowest_name,
    decreases n,
{
    if n > 0 {
        lemma_bind_named_keeps(b, names, named, table, (n - 1) as nat);
    }
}

/// The entries of the `**kwargs` argument leave alone what the positional
/// arguments have settled, and once one has failed, those behind it are
/// not looked at.
proof fn lemma_bind_kwargs_keeps(
    b: Binding,
    entries: Seq<(DictKeyView, Value)>,
    table: Seq<(Seq<char>, usize)>,
    n: nat,
    m: nat,
)
    requires
        n <= m,
    ensures
        bind_kwargs(b, entries, table, n).0.star_args == b.star_args,
        bind_kwargs(b, entries, table, n).0.next_position == b.next_position,
        bind_kwargs(b, entries, table, n).0.lowest_name == b.lowest_name,
        bind_kwargs(b, entries, table, n).1 is Some ==> bind_kwargs(b, entries, table, m)
            == bind_kwargs(b, entries, table, n),
    decreases m,
{
    if n > 0 {
        lemma_bind_kwargs_keeps(b, entries, table, (n - 1) as nat, (n - 1) as nat);
    }
    if n < m {
        lemma_bind_kwargs_keeps(b, entries, table, n, (m - 1) as nat);
    }
}

/// From a place on which no required parameter is missing up to `to`, the
/// first missing one is the first from `to` on.
proof fn lemma_first_missing_skips<V>(
    slots: Seq<Option<Value>>,
    kinds: Seq<ParameterKind<V>>,
    from: int,
    to: int,
)
    requires
        0 <= from <= to <= kinds.len(),
        forall|i: int| from <= i < to ==> !(slots[i] is None && kinds[i] is Required),
    ensures
        first_missing(slots, kinds, from) == first_missing(slots, kinds, to),
    decreases to - from,
{
    if from < to {
        lemma_first_missing_skips(slots, kinds, from + 1, to);
    }
}

impl<V: ValueLike> ParametersSpec<V> {
    /// Binds the named arguments.
    fn bind_named_slots(
        &self,
        args: &Arguments,
        slots: &mut [Option<Value>],
        kwargs: &mut LazyKwargs,
        Ghost(b): Ghost<Binding>,
    ) -> (lowest: usize)
        requires
            self.wf(),
            old(slots)@.len() >= self.kinds().len(),
            old(kwargs).wf(),
            old(slots)@ == b.slots,
            old(kwargs)@ == b.kwargs,
            b.lowest_name == usize::MAX,
        ensures
            ({
                let after = bind_named(b, args@.names, args@.named, self.names(), args@.named_count());
                &&& final(slots)@ == after.slots
                &&& final(kwargs)@ == after.kwargs
                &&& lowest == after.lowest_name
                &&& b.star_args == after.star_args
                &&& b.next_position == after.next_position
            }),
            final(kwargs).wf(),
            final(slots)@.len() == old(slots)@.len(),
    {
        let mut lowest: usize = usize::MAX;
        let n = if args.names.len() <= args.named.len() {
            args.names.len()
        } else {
            args.named.len()
        };
        let mut i: usize = 0;
        while i < n
            invariant
                self.wf(),
                n == args@.named_count(),
                i <= n,
                slots@.len() == b.slots.len(),
                slots@.len() >= self.kinds().len(),
                kwargs.wf(),
                ({
                    let cur = bind_named(b, args@.names, args@.named, self.names(), i as nat);
                    &&& slots@ == cur.slots
                    &&& kwargs@ == cur.kwargs
                    &&& lowest == cur.lowest_name
                }),
            decreases n - i,
        {
            let name = &args.names[i];
            let v = args.named[i];
            assert(args@.names[i as int] == name@);
            proof {
                self.lemma_wf();
                lemma_index_of_key_some(self.names(), name@);
            }
            match self.place_of(name) {
                None => {
                    kwargs.insert(name.hashed(), v);
                },
                Some(index) => {
                    slots[index] = Some(v);
                    if index < lowest {
                        lowest = index;
                    }
                },
            }
            i += 1;
        }
        proof {
            lemma_bind_named_keeps(b, args@.names, args@.named, self.names(), n as nat);
        }
        lowest
    }

    /// Binds the entries of the `**kwargs` argument.
    fn bind_kwargs_slots(
        &self,
        dict: &Dict,
        slots: &mut [Option<Value>],
        kwargs: &mut LazyKwargs,
        Ghost(b): Ghost<Binding>,
    ) -> (r: Result<(), FunctionError>)
        requires
            self.wf(),
            dict.wf(),
            old(slots)@.len() >= self.kinds().len(),
            old(kwargs).wf(),
            old(slots)@ == b.slots,
            old(kwargs)@ == b.kwargs,
        ensures
            ({
                let after = bind_kwargs(b, dict@, self.names(), dict@.len());
                &&& final(slots)@ == after.0.slots
                &&& final(kwargs)@ == after.0.kwargs
                &&& b.star_args == after.0.star_args
                &&& b.next_position == after.0.next_position
                &&& b.lowest_name == after.0.lowest_name
                &&& r is Ok ==> after.1 is None
                &&& r matches Err(e) ==> after.1 == Some(e@)
            }),
            final(kwargs).wf(),
            final(slots)@.len() == old(slots)@.len(),
    {
        let entries = dict.iter_hashed();
        let n = entries.len();
        let mut i: usize = 0;
        while i < n
            invariant
                self.wf(),
                n == entries@.len(),
                n == dict@.len(),
                i <= n,
                slots@.len() == b.slots.len(),
                slots@.len() == old(slots)@.len(),
                slots@.len() >= self.kinds().len(),
                kwargs.wf(),
                forall|j: int|
                    0 <= j < n ==> {
                        &&& (#[trigger] entries@[j]).0.spec_key()@ == dict@[j].0
                        &&& entries@[j].0.wf()
                        &&& entries@[j].1 == dict@[j].1
                    },
                ({
                    let cur = bind_kwargs(b, dict@, self.names(), i as nat);
                    &&& slots@ == cur.0.slots
                    &&& kwargs@ == cur.0.kwargs
                    &&& cur.1 is None
                }),
            decreases n - i,
        {
            let e = &entries[i];
            let v = e.1;
            proof {
                lemma_bind_kwargs_keeps(b, dict@, self.names(), (i + 1) as nat, n as nat);
            }
            match e.0.key().unpack_str() {
                None => {
                    return Err(FunctionError::ArgsValueIsNotString);
                },
                Some(s) => {
                    proof {
                        self.lemma_wf();
                        lemma_index_of_key_some(self.names(), s@);
                    }
                    let repeat = match self.place_of_hashed(e.0.hash(), s) {
                        None => kwargs.insert(Hashed::new_unchecked(e.0.hash(), s.to_owned()), v),
                        Some(index) => {
                                    let repeat = slots[index].is_some();
                            slots[index] = Some(v);
                            repeat
                        },
                    };
                    if repeat {
                        return Err(FunctionError::RepeatedParameter { name: s.to_owned() });
                    }
                },
            }
            i += 1;
        }
        proof {
            lemma_bind_kwargs_keeps(b, dict@, self.names(), n as nat, n as nat);
        }
        Ok(())
    }

    /// Gives every empty slot from `next_position` on its default, and
    /// fails at the first that is empty and required.
    fn apply_defaults(&self, slots: &mut [Option<Value>], next_position: usize) -> (r: Result<
        (),
        FunctionError,
    >)
        requires
            self.wf(),
            next_position <= self.kinds().len() <= old(slots)@.len(),
        ensures
            final(slots)@.len() == old(slots)@.len(),
            match first_missing(old(slots)@, self.kinds(), next_position as int) {
                Some(m) => {
                    &&& r matches Err(e) && e@ == (FunctionErrorView::MissingParameter {
                        name: self.name_at(m),
                        function: self.function_name(),
                    })
                    &&& final(slots)@ == with_defaults(old(slots)@, self.kinds(), next_position as int, m)
                },
                None => {
                    &&& r is Ok
                    &&& final(slots)@ == with_defaults(
                        old(slots)@,
                        self.kinds(),
                        next_position as int,
                        self.kinds().len() as int,
                    )
                },
            },
    {
        let n = self.len();
        let mut index = next_position;
        while index < n
            invariant
                self.wf(),
                n == self.kinds().len(),
                next_position <= index <= n <= slots@.len(),
                slots@.len() == old(slots)@.len(),
                slots@ == with_defaults(old(slots)@, self.kinds(), next_position as int, index as int),
                first_missing(old(slots)@, self.kinds(), next_position as int) == first_missing(
                    old(slots)@,
                    self.kinds(),
                    index as int,
                ),
            decreases n - index,
        {
            let ghost before = slots@;
            if slots[index].is_none() {
                match self.kind_at(index) {
                    ParameterKind::Required => {
                        return Err(
                            FunctionError::MissingParameter {
                                name: self.param_name_at(index),
                                function: self.signature(),
                            },
                        );
                    },
                    ParameterKind::Defaulted(x) => {
                        slots[index] = Some((*x).to_value());
                    },
                    _ => {},
                }
            }
            index += 1;
            assert(slots@ =~= with_defaults(old(slots)@, self.kinds(), next_position as int, index as int));
        }
        Ok(())
    }

    /// Fills the slots of `*args` and `**kwargs`, or fails on arguments
    /// that are left over.
    fn finish_variadic(
        &self,
        slots: &mut [Option<Value>],
        star_args: Vec<Value>,
        kwargs: LazyKwargs,
        heap: &mut Heap,
        Ghost(b): Ghost<Binding>,
    ) -> (r: Result<(), FunctionError>)
        requires
            self.wf(),
            old(heap).wf(),
            old(heap).has_room(self.variadic_slots()),
            kwargs.wf(),
            old(slots)@.len() >= self.kinds().len(),
            old(slots)@ == b.slots,
            star_args@ == b.star_args,
            kwargs@ == b.kwargs,
        ensures
            final(heap).wf(),
            final(heap).profile() == old(heap).profile(),
            ({
                let bound = self.bound_variadic(b, old(heap)@);
                &&& final(slots)@ == bound.slots
                &&& final(heap)@ == bound.heap
                &&& r is Ok ==> bound.result is Ok
                &&& r matches Err(e) ==> bound.result == Err::<(), FunctionErrorView>(e@)
            }),
            final(slots)@.len() == old(slots)@.len(),
    {
        proof {
            self.lemma_wf();
            kwargs.lemma_wf();
        }
        match self.args_place() {
            Some(args_pos) => {
                let tuple = heap.alloc_tuple(star_args.as_slice());
                proof {
                    Value::lemma_from_word(heap_word(old(heap)@.len() as int, false));
                }
                slots[args_pos] = Some(tuple);
            },
            None => {
                if star_args.len() > 0 {
                    return Err(
                        FunctionError::ExtraPositionalParameters {
                            count: star_args.len(),
                            function: self.signature(),
                        },
                    );
                }
            },
        }
        match self.kwargs_place() {
            Some(kwargs_pos) => {
                let dict = kwargs.allocate(heap);
                slots[kwargs_pos] = Some(dict);
            },
            None => {
                if kwargs.kwargs.is_some() {
                    return Err(
                        FunctionError::ExtraNamedParameters {
                            names: kwargs.names(),
                            function: self.signature(),
                        },
                    );
                }
            },
        }
        Ok(())
    }
}

impl<V: ValueLike> ParametersSpec<V> {
    /// Binds the arguments of a call to the parameters, step by step:
    /// the positional arguments, the named ones, the elements of `*args`,
    /// the entries of `**kwargs`, then the defaults, and at last the
    /// arguments that are left over.
    fn collect_slow(&self, args: &Arguments, slots: &mut [Option<Value>], heap: &mut Heap) -> (r: Result<
        (),
        FunctionError,
    >)
        requires
            self.wf(),
            old(heap).wf(),
            old(heap).has_room(self.variadic_slots()),
            old(slots)@.len() >= self.kinds().len(),
        ensures
            final(heap).wf(),
            final(heap).profile() == old(heap).profile(),
            final(slots)@.len() == old(slots)@.len(),
            final(slots)@ == self.bind(args@, old(slots)@, old(heap)@).slots,
            final(heap)@ == self.bind(args@, old(slots)@, old(heap)@).heap,
            r is Ok ==> self.bind(args@, old(slots)@, old(heap)@).result is Ok,
            r matches Err(e) ==> self.bind(args@, old(slots)@, old(heap)@).result == Err::<
                (),
                FunctionErrorView,
            >(e@),
    {
        proof {
            self.lemma_wf();
        }
        let mut star_args: Vec<Value> = Vec::new();
        let mut kwargs = LazyKwargs::new();
        let ghost b0 = binding_start(slots@);
        let ghost positional = self.positional() as int;

        // First the positional arguments.
        let mut next_position = fill_positional_slots(
            args.pos,
            self.positional_count(),
            slots,
            &mut star_args,
            0,
        );
        let ghost b1 = fill_positional(b0, args@.pos, positional);
        proof {
            let b = Binding {
                slots: old(slots)@,
                star_args: Seq::empty(),
                kwargs: Seq::empty(),
                next_position: 0,
                lowest_name: 0,
            };
            assert(fill_positional(b, args@.pos, positional).slots =~= b1.slots);
            assert(fill_positional(b, args@.pos, positional).star_args =~= b1.star_args);
        }

        // Then the named arguments. Whether a named argument clashes with
        // a positional one is looked at only once all positional
        // arguments are in.
        let lowest_name = self.bind_named_slots(args, slots, &mut kwargs, Ghost(b1));
        let ghost b2 = self.bound_explicit(args@, old(slots)@);

        // Then the elements of the `*args` argument.
        match args.args {
            Some(param_args) => {
                match heap.iterate(param_args) {
                    None => {
                        return Err(FunctionError::ArgsArrayIsNotIterable);
                    },
                    Some(items) => {
                        next_position =
                        fill_positional_slots(
                            items.as_slice(),
                            self.positional_count(),
                            slots,
                            &mut star_args,
                            next_position,
                        );
                        proof {
                            let b = Binding {
                                slots: b2.slots,
                                star_args: b2.star_args,
                                kwargs: Seq::empty(),
                                next_position: b2.next_position,
                                lowest_name: 0,
                            };
                            let b3 = fill_positional(b2, items@, positional);
                            assert(fill_positional(b, items@, positional).slots =~= b3.slots);
                            assert(fill_positional(b, items@, positional).star_args =~= b3.star_args);
                        }
                    },
                }
            },
            None => {},
        }
        let ghost b3 = match args.args {
            Some(star) => fill_positional(b2, elements_in(old(heap)@, star).unwrap(), positional),
            None => b2,
        };
        assert(slots@ == b3.slots && star_args@ == b3.star_args && kwargs@ == b3.kwargs
            && next_position == b3.next_position && lowest_name == b3.lowest_name);

        // Did a named argument go where a positional one went?
        if next_position > lowest_name {
            return Err(FunctionError::RepeatedParameter { name: self.param_name_at(lowest_name) });
        }
        // Then the entries of the `**kwargs` argument.

        match args.kwargs {
            Some(param_kwargs) => {
                match heap.unpack_dict(param_kwargs) {
                    Some(y) => {
                        match self.bind_kwargs_slots(y, slots, &mut kwargs, Ghost(b3)) {
                            Ok(()) => {},
                            Err(e) => {
                                return Err(e);
                            },
                        }
                    },
                    None => {
                        return Err(FunctionError::KwArgsIsNotDict);
                    },
                }
            },
            None => {},
        }
        let ghost b4 = match args.kwargs {
            Some(kw) => bind_kwargs(
                b3,
                dict_in(old(heap)@, kw).unwrap(),
                self.names(),
                dict_in(old(heap)@, kw).unwrap().len(),
            ).0,
            None => b3,
        };
        assert(slots@ == b4.slots && star_args@ == b4.star_args && kwargs@ == b4.kwargs
            && next_position == b4.next_position);

        // Every argument has found its place. Give the empty slots their
        // defaults, and fail if a required one is empty.
        match self.apply_defaults(slots, next_position) {
            Ok(()) => {},
            Err(e) => {
                return Err(e);
            },
        }
        let ghost b5 = Binding {
            slots: with_defaults(b4.slots, self.kinds(), b4.next_position, self.kinds().len() as int),
            ..b4
        };

        // Last, the slots of `*args` and `**kwargs`. A missing parameter
        // is reported before an argument that is left over: where a name
        // is misspelt, that is the better message.
        self.finish_variadic(slots, star_args, kwargs, heap, Ghost(b5))
    }
}

impl<V: ValueLike> ParametersSpec<V> {
    /// A call that supplies exactly the parameters, all by position, to a
    /// function that declares nothing else, binds each argument to the
    /// parameter at its place, and nothing more happens.
    pub proof fn lemma_bind_positional_only(
        &self,
        args: ArgumentsView,
        slots: Seq<Option<Value>>,
        heap: Seq<ObjectView>,
    )
        requires
            self.wf(),
            slots.len() >= self.kinds().len(),
            args.pos.len() == self.positional(),
            args.pos.len() == self.kinds().len(),
            args.named.len() == 0,
            args.args is None,
            args.kwargs is None,
        ensures
            self.bind(args, slots, heap) == (Bound {
                slots: Seq::new(
                    slots.len(),
                    |i: int|
                        if 0 <= i < args.pos.len() {
                            Some(args.pos[i])
                        } else {
                            slots[i]
                        },
                ),
                heap,
                result: Ok(()),
            }),
    {
        self.lemma_wf();
        let p = self.positional() as int;
        let b1 = fill_positional(binding_start(slots), args.pos, p);
        let expected = Seq::new(
            slots.len(),
            |i: int|
                if 0 <= i < args.pos.len() {
                    Some(args.pos[i])
                } else {
                    slots[i]
                },
        );
        assert(b1.slots =~= expected);
        assert(b1.star_args =~= Seq::<Value>::empty());
        assert(self.bound_explicit(args, slots) == b1);
        assert(first_missing(b1.slots, self.kinds(), p) is None);
        assert(with_defaults(b1.slots, self.kinds(), p, self.kinds().len() as int) =~= b1.slots);
        match self.args_index() {
            Some(a) => {
                assert(self.kinds()[a as int].is_regular());
            },
            None => {},
        }
        match self.kwargs_index() {
            Some(k) => {
                assert(self.kinds()[k as int].is_regular());
            },
            None => {},
        }
    }

    /// Binds the arguments of a call to the parameters: writes to the
    /// slots, in the order of declaration, the value of each parameter,
    /// and allocates the tuple of `*args` and the dictionary of
    /// `**kwargs`, where the function declares them.
    ///
    /// The outcome is a function of the parameters, the arguments, the
    /// slots and the heap: the same call binds the same way.
    pub fn collect(&self, args: &Arguments, slots: &mut [Option<Value>], heap: &mut Heap) -> (r: Result<
        (),
        FunctionError,
    >)
        requires
            self.wf(),
            old(heap).wf(),
            old(heap).has_room(self.variadic_slots()),
            old(slots)@.len() >= self.kinds().len(),
        ensures
            final(heap).wf(),
            final(heap).profile() == old(heap).profile(),
            final(slots)@.len() == old(slots)@.len(),
            final(slots)@ == self.bind(args@, old(slots)@, old(heap)@).slots,
            final(heap)@ == self.bind(args@, old(slots)@, old(heap)@).heap,
            r is Ok ==> self.bind(args@, old(slots)@, old(heap)@).result is Ok,
            r matches Err(e) ==> self.bind(args@, old(slots)@, old(heap)@).result == Err::<
                (),
                FunctionErrorView,
            >(e@),
    {
        self.collect_inline(args, slots, heap)
    }

    /// Binds the arguments of a call to `N` new slots.
    pub fn collect_into<const N: usize>(&self, args: &Arguments, heap: &mut Heap) -> (r: Result<
        [Option<Value>; N],
        FunctionError,
    >)
        requires
            self.wf(),
            old(heap).wf(),
            old(heap).has_room(self.variadic_slots()),
            N >= self.kinds().len(),
        ensures
            final(heap).wf(),
            final(heap).profile() == old(heap).profile(),
            final(heap)@ == self.bind(args@, empty_slots(N as nat), old(heap)@).heap,
            r matches Ok(slots) ==> self.bind(
                args@,
                empty_slots(N as nat),
                old(heap)@,
            ).result is Ok && slots@ == self.bind(
                args@,
                empty_slots(N as nat),
                old(heap)@,
            ).slots,
            r matches Err(e) ==> self.bind(
                args@,
                empty_slots(N as nat),
                old(heap)@,
            ).result == Err::<(), FunctionErrorView>(e@),
    {
        let mut slots: [Option<Value>; N] = [None;N];
        assert(slots@ =~= empty_slots(N as nat));
        let r = self.collect(args, vstd::array::ref_mut_array_unsizing_coercion(&mut slots), heap);
        match r {
            Ok(()) => Ok(slots),
            Err(e) => Err(e),
        }
    }

    /// Binds the arguments of a call to the parameters. The common call,
    /// which supplies every parameter by position and nothing else, is
    /// dealt with at once.
    pub fn collect_inline(&self, args: &Arguments, slots: &mut [Option<Value>], heap: &mut Heap) -> (r:
        Result<(), FunctionError>)
        requires
            self.wf(),
            old(heap).wf(),
            old(heap).has_room(self.variadic_slots()),
            old(slots)@.len() >= self.kinds().len(),
        ensures
            final(heap).wf(),
            final(heap).profile() == old(heap).profile(),
            final(slots)@.len() == old(slots)@.len(),
            final(slots)@ == self.bind(args@, old(slots)@, old(heap)@).slots,
            final(heap)@ == self.bind(args@, old(slots)@, old(heap)@).heap,
            r is Ok ==> self.bind(args@, old(slots)@, old(heap)@).result is Ok,
            r matches Err(e) ==> self.bind(args@, old(slots)@, old(heap)@).result == Err::<
                (),
                FunctionErrorView,
            >(e@),
    {
        // When the positional arguments are exactly the parameters and
        // there is no other argument, the function declares neither
        // `*args` nor `**kwargs`, and nothing has to be made for them.
        if args.pos.len() == self.positional_count() && args.pos.len() == self.len()
            && args.named.len() == 0 && args.args.is_none() && args.kwargs.is_none() {
            let n = args.pos.len();
            let mut i: usize = 0;
            while i < n
                invariant
                    n == args.pos@.len(),
                    n <= slots@.len(),
                    i <= n,
                    slots@.len() == old(slots)@.len(),
                    forall|j: int| 0 <= j < i ==> slots@[j] == Some(args.pos@[j]),
                    forall|j: int| i <= j < slots@.len() ==> slots@[j] == old(slots)@[j],
                decreases n - i,
            {
                slots[i] = Some(args.pos[i]);
                i += 1;
            }
            proof {
                self.lemma_bind_positional_only(args@, old(slots)@, old(heap)@);
                assert(slots@ =~= self.bind(args@, old(slots)@, old(heap)@).slots);
            }
            return Ok(());
        }
        self.collect_slow(args, slots, heap)
    }
}

impl<V: ValueLike> ParametersSpec<V> {
    /// Binds the arguments of a call to new slots, one for each
    /// parameter, and hands a parser of the slots to `k`. A call that does
    /// not bind is an error, and `k` is not called.
    pub fn parser<R, F: FnOnce(ParametersParser<'_>, &mut Heap) -> R>(
        &self,
        args: &Arguments,
        heap: &mut Heap,
        k: F,
    ) -> (r: Result<R, FunctionError>)
        requires
            self.wf(),
            old(heap).wf(),
            old(heap).has_room(self.variadic_slots()),
            forall|p: ParametersParser<'_>, h: &mut Heap|
                p.wf() && h.wf() && p.remaining() == self.bind(
                    args@,
                    empty_slots(self.kinds().len()),
                    old(heap)@,
                ).slots && h@ == self.bind(args@, empty_slots(self.kinds().len()), old(heap)@).heap
                    && h.profile() == old(heap).profile() ==> #[trigger] k.requires((p, h)),
        ensures
            self.bind(args@, empty_slots(self.kinds().len()), old(heap)@).result matches Err(e) ==> (
            r matches Err(err) && err@ == e && final(heap)@ == self.bind(
                args@,
                empty_slots(self.kinds().len()),
                old(heap)@,
            ).heap && final(heap).profile() == old(heap).profile()),
            self.bind(args@, empty_slots(self.kinds().len()), old(heap)@).result is Ok ==> r is Ok,
            r is Ok ==> (exists|p: ParametersParser<'_>, h: &mut Heap, x: R|
                {
                    &&& r == Ok::<R, FunctionError>(x)
                    &&& p.wf()
                    &&& p.remaining() == self.bind(
                        args@,
                        empty_slots(self.kinds().len()),
                        old(heap)@,
                    ).slots
                    &&& h@ == self.bind(args@, empty_slots(self.kinds().len()), old(heap)@).heap
                    &&& h.profile() == old(heap).profile()
                    &&& #[trigger] k.ensures((p, h), x)
                    &&& *final(h) == *final(heap)
                }),
    {
        let n = self.len();
        let mut slots: Vec<Option<Value>> = Vec::with_capacity(n);
        let mut i: usize = 0;
        while i < n
            invariant
                i <= n,
                slots@.len() == i,
                forall|j: int| 0 <= j < i ==> slots@[j] is None,
            decreases n - i,
        {
            slots.push(None);
            i += 1;
        }
        assert(slots@ =~= empty_slots(self.kinds().len()));
        match self.collect_inline(args, slots.as_mut_slice(), heap) {
            Err(e) => Err(e),
            Ok(()) => {
                let parser = ParametersParser::new(slots.as_slice());
                let ghost p0 = parser;
                let x = k(parser, heap);
                Ok(x)
            },
        }
    }
}

/// Every parameter that was filled by position has a value.
pub open spec fn filled_below(b: Binding) -> bool {
    &&& 0 <= b.next_position
    &&& forall|i: int| 0 <= i < b.next_position && i < b.slots.len() ==> b.slots[i] is Some
}

/// The first missing parameter, if there is one, is a required parameter
/// with an empty slot, and no such parameter comes before it.
pub proof fn lemma_first_missing<V>(slots: Seq<Option<Value>>, kinds: Seq<ParameterKind<V>>, from: int)
    requires
        0 <= from,
    ensures
        first_missing(slots, kinds, from) matches Some(m) ==> from <= m < kinds.len()
            && slots[m] is None && kinds[m] is Required,
        forall|i: int|
            from <= i < kinds.len() && slots[i] is None && kinds[i] is Required ==> (first_missing(
                slots,
                kinds,
                from,
            ) matches Some(m) && m <= i),
    decreases kinds.len() - from,
{
    if from < kinds.len() {
        lemma_first_missing(slots, kinds, from + 1);
    }
}

/// Positional values fill the slots of the positional parameters without
/// a gap.
proof fn lemma_fill_positional_fills(b: Binding, values: Seq<Value>, positional: int)
    requires
        filled_below(b),
        positional <= b.slots.len(),
    ensures
        filled_below(fill_positional(b, values, positional)),
        fill_positional(b, values, positional).slots.len() == b.slots.len(),
        fill_positional(b, values, positional).next_position >= b.next_position,
{
}

/// Named arguments empty no slot.
proof fn lemma_bind_named_fills(
    b: Binding,
    names: Seq<Seq<char>>,
    named: Seq<Value>,
    table: Seq<(Seq<char>, usize)>,
    n: nat,
)
    requires
        filled_below(b),
        forall|j: int| 0 <= j < table.len() ==> (#[trigger] table[j]).1 < b.slots.len(),
    ensures
        filled_below(bind_named(b, names, named, table, n)),
        bind_named(b, names, named, table, n).slots.len() == b.slots.len(),
        bind_named(b, names, named, table, n).next_position == b.next_position,
    decreases n,
{
    if n > 0 {
        lemma_bind_named_fills(b, names, named, table, (n - 1) as nat);
        lemma_index_of_key_some(table, names[n - 1]);
    }
}

/// The entries of `**kwargs` empty no slot.
proof fn lemma_bind_kwargs_fills(
    b: Binding,
    entries: Seq<(DictKeyView, Value)>,
    table: Seq<(Seq<char>, usize)>,
    n: nat,
)
    requires
        filled_below(b),
        forall|j: int| 0 <= j < table.len() ==> (#[trigger] table[j]).1 < b.slots.len(),
    ensures
        filled_below(bind_kwargs(b, entries, table, n).0),
        bind_kwargs(b, entries, table, n).0.slots.len() == b.slots.len(),
        bind_kwargs(b, entries, table, n).0.next_position == b.next_position,
    decreases n,
{
    if n > 0 {
        lemma_bind_kwargs_fills(b, entries, table, (n - 1) as nat);
        match entries[n - 1].0 {
            DictKeyView::Str(name) => {
                lemma_index_of_key_some(table, name);
            },
            _ => {},
        }
    }
}

/// The entries of a `**kwargs` argument fail only with the error that a
/// key is not a string or that a parameter is given twice.
proof fn lemma_bind_kwargs_errors(
    b: Binding,
    entries: Seq<(DictKeyView, Value)>,
    table: Seq<(Seq<char>, usize)>,
    n: nat,
)
    ensures
        bind_kwargs(b, entries, table, n).1 matches Some(e) ==> e is ArgsValueIsNotString
            || e is RepeatedParameter,
    decreases n,
{
    if n > 0 {
        lemma_bind_kwargs_errors(b, entries, table, (n - 1) as nat);
    }
}

impl<V: ValueLike> ParametersSpec<V> {
    /// Once every argument has found its place, a required parameter whose
    /// slot is empty is reported as missing, whatever arguments are left
    /// over.
    pub proof fn lemma_missing_is_reported(&self, b: Binding, heap: Seq<ObjectView>, i: int)
        requires
            0 <= b.next_position <= i < self.kinds().len(),
            self.kinds()[i] is Required,
            b.slots[i] is None,
        ensures
            self.bound_defaults(b, heap).result matches Err(e) && e is MissingParameter,
    {
        lemma_first_missing(b.slots, self.kinds(), b.next_position);
    }

    /// Arguments that are left over are an error only when no required
    /// parameter is missing: every required parameter has its value then.
    pub proof fn lemma_extra_only_when_none_missing(&self, b: Binding, heap: Seq<ObjectView>)
        requires
            self.wf(),
            filled_below(b),
            b.slots.len() >= self.kinds().len(),
        ensures
            ({
                let bound = self.bound_defaults(b, heap);
                (bound.result matches Err(e) && (e is ExtraPositionalParameters
                    || e is ExtraNamedParameters)) ==> forall|i: int|
                    0 <= i < self.kinds().len() && (#[trigger] self.kinds()[i]) is Required
                        ==> bound.slots[i] is Some
            }),
    {
        self.lemma_wf();
        lemma_first_missing(b.slots, self.kinds(), b.next_position);
        let bound = self.bound_defaults(b, heap);
        if bound.result matches Err(e) && (e is ExtraPositionalParameters || e is ExtraNamedParameters) {
            assert(first_missing(b.slots, self.kinds(), b.next_position) is None);
            let filled = with_defaults(
                b.slots,
                self.kinds(),
                b.next_position,
                self.kinds().len() as int,
            );
            assert forall|i: int|
                0 <= i < self.kinds().len() && (#[trigger] self.kinds()[i]) is Required implies bound.slots[i] is Some by {
                assert(b.slots[i] is Some);
                assert(filled[i] is Some);
            }
        }
    }

    /// A binding reports a missing parameter before it reports arguments
    /// that are left over: when it ends in the error that there are too
    /// many positional or too many named arguments, every required
    /// parameter has its value.
    pub proof fn lemma_bind_missing_before_extra(
        &self,
        args: ArgumentsView,
        slots: Seq<Option<Value>>,
        heap: Seq<ObjectView>,
    )
        requires
            self.wf(),
            slots.len() >= self.kinds().len(),
        ensures
            ({
                let bound = self.bind(args, slots, heap);
                (bound.result matches Err(e) && (e is ExtraPositionalParameters
                    || e is ExtraNamedParameters)) ==> forall|i: int|
                    0 <= i < self.kinds().len() && (#[trigger] self.kinds()[i]) is Required
                        ==> bound.slots[i] is Some
            }),
    {
        self.lemma_wf();
        let p = self.positional() as int;
        let b0 = binding_start(slots);
        let b1 = fill_positional(b0, args.pos, p);
        lemma_fill_positional_fills(b0, args.pos, p);
        let b2 = self.bound_explicit(args, slots);
        lemma_bind_named_fills(b1, args.names, args.named, self.names(), args.named_count());
        match args.args {
            None => {
                self.lemma_kwargs_missing_before_extra(b2, args, heap);
            },
            Some(star) => match elements_in(heap, star) {
                None => {},
                Some(items) => {
                    lemma_fill_positional_fills(b2, items, p);
                    self.lemma_kwargs_missing_before_extra(fill_positional(b2, items, p), args, heap);
                },
            },
        }
    }

    /// The same from the point where the `**kwargs` argument is looked at.
    proof fn lemma_kwargs_missing_before_extra(
        &self,
        b: Binding,
        args: ArgumentsView,
        heap: Seq<ObjectView>,
    )
        requires
            self.wf(),
            filled_below(b),
            b.slots.len() >= self.kinds().len(),
        ensures
            ({
                let bound = self.bound_kwargs(b, args, heap);
                (bound.result matches Err(e) && (e is ExtraPositionalParameters
                    || e is ExtraNamedParameters)) ==> forall|i: int|
                    0 <= i < self.kinds().len() && (#[trigger] self.kinds()[i]) is Required
                        ==> bound.slots[i] is Some
            }),
    {
        self.lemma_wf();
        match args.kwargs {
            None => {
                self.lemma_extra_only_when_none_missing(b, heap);
            },
            Some(kw) => match dict_in(heap, kw) {
                None => {},
                Some(entries) => {
                    lemma_bind_kwargs_fills(b, entries, self.names(), entries.len());
                    lemma_bind_kwargs_errors(b, entries, self.names(), entries.len());
                    let after = bind_kwargs(b, entries, self.names(), entries.len());
                    if after.1 is None {
                        self.lemma_extra_only_when_none_missing(after.0, heap);
                    }
                },
            },
        }
    }

    /// Binding is a function of what the parameters and the call hold: two
    /// specs that declare the same parameters bind the same arguments, to
    /// the same slots over the same heap, in the same way.
    pub proof fn lemma_bind_deterministic(
        &self,
        other: &Self,
        args: ArgumentsView,
        slots: Seq<Option<Value>>,
        heap: Seq<ObjectView>,
    )
        requires
            self.kinds() == other.kinds(),
            self.names() == other.names(),
            self.positional() == other.positional(),
            self.args_index() == other.args_index(),
            self.kwargs_index() == other.kwargs_index(),
            self.function_name() == other.function_name(),
        ensures
            self.bind(args, slots, heap) == other.bind(args, slots, heap),
    {
        let b = self.bound_explicit(args, slots);
        assert(b == other.bound_explicit(args, slots));
        assert forall|x: Binding| #[trigger]
            self.bound_variadic(x, heap) == other.bound_variadic(x, heap) by {}
        assert forall|x: Binding| #[trigger]
            self.bound_defaults(x, heap) == other.bound_defaults(x, heap) by {
            assert forall|m: int| self.name_at(m) == other.name_at(m) by {}
        }
        assert forall|x: Binding| #[trigger]
            self.bound_kwargs(x, args, heap) == other.bound_kwargs(x, args, heap) by {}
        assert forall|m: int| self.name_at(m) == other.name_at(m) by {}
    }
}

} // verus!
