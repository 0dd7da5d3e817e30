//! The arguments that a call site supplies, and what a native function
//! needs to take them apart.

use vstd::prelude::*;

use crate::collections::hash::Hashed;
use crate::collections::small_map::SmallMap;
use crate::collections::symbol_map::Symbol;
use crate::collections::vec_map::{inserted, lookup};
use crate::eval::binding::{dict_of_names, kwargs_entries};
use crate::values::dict::{Dict, DictKey, DictKeyView};
use crate::values::heap::{dict_in, elements_in, Heap, ObjectView};
use crate::values::unpack::{
    type_name_in, unpack_named_param, UnpackValue, ValueError, ValueErrorView,
};
use crate::values::value::Value;

verus! {

/// What can go wrong when a call's arguments are bound or unpacked.
#[derive(Debug)]
pub enum FunctionError {
    /// A required parameter got no value.
    MissingParameter { name: String, function: String },
    /// More positional arguments than parameters to take them, and no
    /// `*args` parameter.
    ExtraPositionalParameters { count: usize, function: String },
    /// Named arguments that no parameter has the name of, and no
    /// `**kwargs` parameter.
    ExtraNamedParameters { names: Vec<String>, function: String },
    /// A parameter was given a value twice.
    RepeatedParameter { name: String },
    /// A key of the `**kwargs` argument is not a string.
    ArgsValueIsNotString,
    /// The `*args` argument is not iterable.
    ArgsArrayIsNotIterable,
    /// The `**kwargs` argument is not a dictionary.
    KwArgsIsNotDict,
    /// The number of positional arguments is not in the range expected.
    WrongNumberOfParameters { min: usize, max: usize, got: usize },
}

/// What an error holds.
pub enum FunctionErrorView {
    MissingParameter { name: Seq<char>, function: Seq<char> },
    ExtraPositionalParameters { count: usize, function: Seq<char> },
    ExtraNamedParameters { names: Seq<Seq<char>>, function: Seq<char> },
    RepeatedParameter { name: Seq<char> },
    ArgsValueIsNotString,
    ArgsArrayIsNotIterable,
    KwArgsIsNotDict,
    WrongNumberOfParameters { min: usize, max: usize, got: usize },
}

impl View for FunctionError {
    type V = FunctionErrorView;

    open spec fn view(&self) -> FunctionErrorView {
        match self {
            FunctionError::MissingParameter { name, function } => FunctionErrorView::MissingParameter {
                name: name@,
                function: function@,
            },
            FunctionError::ExtraPositionalParameters {
                count,
                function,
            } => FunctionErrorView::ExtraPositionalParameters { count: *count, function: function@ },
            FunctionError::ExtraNamedParameters {
                names,
                function,
            } => FunctionErrorView::ExtraNamedParameters {
                names: Seq::new(names@.len(), |i: int| names@[i]@),
                function: function@,
            },
            FunctionError::RepeatedParameter { name } => FunctionErrorView::RepeatedParameter {
                name: name@,
            },
            FunctionError::ArgsValueIsNotString => FunctionErrorView::ArgsValueIsNotString,
            FunctionError::ArgsArrayIsNotIterable => FunctionErrorView::ArgsArrayIsNotIterable,
            FunctionError::KwArgsIsNotDict => FunctionErrorView::KwArgsIsNotDict,
            FunctionError::WrongNumberOfParameters {
                min,
                max,
                got,
            } => FunctionErrorView::WrongNumberOfParameters { min: *min, max: *max, got: *got },
        }
    }
}

/// The arguments of one call: the positional ones, the named ones with
/// their names beside them, and the `*args` and `**kwargs` arguments.
pub struct Arguments<'a> {
    /// The positional arguments.
    pub pos: &'a [Value],
    /// The named arguments.
    pub named: &'a [Value],
    /// The names of the named arguments, one for each of `named`.
    pub names: &'a [Symbol],
    /// The `*args` argument.
    pub args: Option<Value>,
    /// The `**kwargs` argument.
    pub kwargs: Option<Value>,
}

/// What a call supplies.
pub struct ArgumentsView {
    pub pos: Seq<Value>,
    pub named: Seq<Value>,
    pub names: Seq<Seq<char>>,
    pub args: Option<Value>,
    pub kwargs: Option<Value>,
}

impl<'a> View for Arguments<'a> {
    type V = ArgumentsView;

    open spec fn view(&self) -> ArgumentsView {
        ArgumentsView {
            pos: self.pos@,
            named: self.named@,
            names: Seq::new(self.names@.len(), |i: int| self.names@[i]@),
            args: self.args,
            kwargs: self.kwargs,
        }
    }
}

impl ArgumentsView {
    /// How many named arguments have both a name and a value.
    pub open spec fn named_count(&self) -> nat {
        if self.names.len() <= self.named.len() {
            self.names.len()
        } else {
            self.named.len()
        }
    }
}

/// The positional arguments of a call with the elements of its `*args`
/// argument behind them. There are none if that argument is not iterable.
pub open spec fn all_positions(args: ArgumentsView, heap: Seq<ObjectView>) -> Option<Seq<Value>> {
    match args.args {
        None => Some(args.pos),
        Some(star) => match elements_in(heap, star) {
            Some(items) => Some(args.pos + items),
            None => None,
        },
    }
}

/// The map after the first `n` named arguments have been added, up to the
/// first that fails: a name must not be in the map already.
pub open spec fn names_collected(names: Seq<Seq<char>>, named: Seq<Value>, n: nat) -> (
    Seq<(Seq<char>, Value)>,
    Option<FunctionErrorView>,
)
    decreases n,
{
    if n == 0 {
        (Seq::empty(), None)
    } else {
        let before = names_collected(names, named, (n - 1) as nat);
        if before.1 is Some {
            before
        } else {
            (
                inserted(before.0, names[n - 1], named[n - 1]),
                if lookup(before.0, names[n - 1]) is Some {
                    Some(FunctionErrorView::RepeatedParameter { name: names[n - 1] })
                } else {
                    None
                },
            )
        }
    }
}

/// Once a named argument has failed, those behind it are not looked at.
proof fn lemma_names_collected_stuck(names: Seq<Seq<char>>, named: Seq<Value>, n: nat, m: nat)
    requires
        n <= m,
        names_collected(names, named, n).1 is Some,
    ensures
        names_collected(names, named, m) == names_collected(names, named, n),
    decreases m,
{
    if n < m {
        lemma_names_collected_stuck(names, named, n, (m - 1) as nat);
    }
}

/// The map after the first `n` entries of the `**kwargs` argument have
/// been added, up to the first that fails: a key must be a string, and
/// must not be in the map already.
pub open spec fn kwargs_collected(
    map: Seq<(Seq<char>, Value)>,
    entries: Seq<(DictKeyView, Value)>,
    n: nat,
) -> (Seq<(Seq<char>, Value)>, Option<FunctionErrorView>)
    decreases n,
{
    if n == 0 {
        (map, None)
    } else {
        let before = kwargs_collected(map, entries, (n - 1) as nat);
        if before.1 is Some {
            before
        } else {
            match entries[n - 1].0 {
                DictKeyView::Str(name) => (
                    inserted(before.0, name, entries[n - 1].1),
                    if lookup(before.0, name) is Some {
                        Some(FunctionErrorView::RepeatedParameter { name })
                    } else {
                        None
                    },
                ),
                _ => (before.0, Some(FunctionErrorView::ArgsValueIsNotString)),
            }
        }
    }
}

/// Once an entry has failed, those behind it are not looked at.
proof fn lemma_kwargs_collected_stuck(
    map: Seq<(Seq<char>, Value)>,
    entries: Seq<(DictKeyView, Value)>,
    n: nat,
    m: nat,
)
    requires
        n <= m,
        kwargs_collected(map, entries, n).1 is Some,
    ensures
        kwargs_collected(map, entries, m) == kwargs_collected(map, entries, n),
    decreases m,
{
    if n < m {
        lemma_kwargs_collected_stuck(map, entries, n, (m - 1) as nat);
    }
}

/// All the named arguments of a call as a map, those of `**kwargs` behind
/// the explicit ones, or the error that collecting them ends in. A
/// `**kwargs` argument that is no dictionary is the first error looked
/// for; after it, the first name that comes twice, wherever it comes
/// from.
pub open spec fn names_map_of(args: ArgumentsView, heap: Seq<ObjectView>) -> Result<
    Seq<(Seq<char>, Value)>,
    FunctionErrorView,
> {
    let explicit = names_collected(args.names, args.named, args.named_count());
    match args.kwargs {
        Some(kw) if dict_in(heap, kw) is None => Err(FunctionErrorView::KwArgsIsNotDict),
        _ => match explicit.1 {
            Some(e) => Err(e),
            None => match args.kwargs {
                None => Ok(explicit.0),
                Some(kw) => {
                    let entries = dict_in(heap, kw)->Some_0;
                    let all = kwargs_collected(explicit.0, entries, entries.len());
                    match all.1 {
                        Some(e) => Err(e),
                        None => Ok(all.0),
                    }
                },
            },
        },
    }
}

/// The names of the first `n` string keys of `entries`.
pub open spec fn key_names(entries: Seq<(DictKeyView, Value)>, n: nat) -> Seq<Seq<char>>
    decreases n,
{
    if n == 0 {
        Seq::empty()
    } else {
        match entries[n - 1].0 {
            DictKeyView::Str(name) => key_names(entries, (n - 1) as nat).push(name),
            _ => key_names(entries, (n - 1) as nat),
        }
    }
}

/// The place of the first of the first `n` keys of `entries` that is not a
/// string.
pub open spec fn first_bad_key(entries: Seq<(DictKeyView, Value)>, n: nat) -> Option<int>
    decreases n,
{
    if n == 0 {
        None
    } else {
        match first_bad_key(entries, (n - 1) as nat) {
            Some(i) => Some(i),
            None => if entries[n - 1].0 is Str {
                None
            } else {
                Some(n - 1)
            },
        }
    }
}

impl<'a> Arguments<'a> {
    /// A call without arguments.
    pub fn default() -> (r: Self)
        ensures
            r@.pos.len() == 0,
            r@.named.len() == 0,
            r@.names.len() == 0,
            r@.args is None,
            r@.kwargs is None,
    {
        Arguments { pos: &[], named: &[], names: &[], args: None, kwargs: None }
    }

    /// Every named argument, explicit or in `**kwargs`, in one map: the
    /// explicit ones first, as the order can be observed. It is an error if
    /// a name comes twice, be it explicit or in `**kwargs`.
    pub fn names_map(&self, heap: &Heap) -> (r: Result<SmallMap<String, Value>, FunctionError>)
        requires
            heap.wf(),
        ensures
            r matches Ok(m) ==> m.wf() && names_map_of(self@, heap@) == Ok::<
                Seq<(Seq<char>, Value)>,
                FunctionErrorView,
            >(m@),
            r matches Err(e) ==> names_map_of(self@, heap@) == Err::<
                Seq<(Seq<char>, Value)>,
                FunctionErrorView,
            >(e@),
    {
        let kwargs = match self.unpack_kwargs(heap) {
            Ok(kwargs) => kwargs,
            Err(e) => {
                return Err(e);
            },
        };
        let n = if self.names.len() <= self.named.len() {
            self.names.len()
        } else {
            self.named.len()
        };
        let mut result: SmallMap<String, Value> = SmallMap::new();
        let mut i: usize = 0;
        while i < n
            invariant
                n == self@.named_count(),
                i <= n,
                result.wf(),
                names_collected(self@.names, self@.named, i as nat) == (
                    result@,
                    None::<FunctionErrorView>,
                ),
                self@.kwargs matches Some(kw) ==> dict_in(heap@, kw) is Some,
            decreases n - i,
        {
            let name = &self.names[i];
            assert(self@.names[i as int] == name@);
            proof {
                let before = names_collected(self@.names, self@.named, i as nat);
                let after = names_collected(self@.names, self@.named, (i + 1) as nat);
                assert(names_collected(self@.names, self@.named, ((i + 1) as nat - 1) as nat)
                    == before);
                if after.1 is Some {
                    lemma_names_collected_stuck(self@.names, self@.named, (i + 1) as nat, n as nat);
                }
            }
            let old_value = result.insert_hashed(name.hashed(), self.named[i]);
            if old_value.is_some() {
                return Err(FunctionError::RepeatedParameter { name: name.as_str().to_owned() });
            }
            i += 1;
        }
        match kwargs {
            None => Ok(result),
            Some(kwargs) => {
                let ghost explicit = result@;
                let entries = kwargs.iter_hashed();
                let m = entries.len();
                let mut j: usize = 0;
                while j < m
                    invariant
                        m == entries@.len(),
                        m == kwargs@.len(),
                        j <= m,
                        result.wf(),
                        forall|i: int|
                            0 <= i < m ==> {
                                &&& (#[trigger] entries@[i]).0.spec_key()@ == kwargs@[i].0
                                &&& entries@[i].0.wf()
                                &&& entries@[i].1 == kwargs@[i].1
                            },
                        kwargs_collected(explicit, kwargs@, j as nat) == (result@, None::<FunctionErrorView>),
                        self@.kwargs is Some,
                        dict_in(heap@, self@.kwargs->Some_0) == Some(kwargs@),
                        names_collected(self@.names, self@.named, self@.named_count()) == (
                            explicit,
                            None::<FunctionErrorView>,
                        ),
                    decreases m - j,
                {
                    let e = &entries[j];
                    proof {
                        let before = kwargs_collected(explicit, kwargs@, j as nat);
                        let after = kwargs_collected(explicit, kwargs@, (j + 1) as nat);
                        assert(kwargs_collected(explicit, kwargs@, ((j + 1) as nat - 1) as nat) == before);
                        assert(after == (match kwargs@[j as int].0 {
                            DictKeyView::Str(name) => (
                                inserted(before.0, name, kwargs@[j as int].1),
                                if lookup(before.0, name) is Some {
                                    Some(FunctionErrorView::RepeatedParameter { name })
                                } else {
                                    None
                                },
                            ),
                            _ => (before.0, Some(FunctionErrorView::ArgsValueIsNotString)),
                        }));
                        if after.1 is Some {
                            lemma_kwargs_collected_stuck(explicit, kwargs@, (j + 1) as nat, m as nat);
                        }
                    }
                    let s = match Self::unpack_kwargs_key(e.0.key()) {
                        Ok(s) => s,
                        Err(err) => {
                            return Err(err);
                        },
                    };
                    let k = Hashed::new_unchecked(e.0.hash(), s.to_owned());
                    let old_value = result.insert_hashed(k, e.1);
                    if old_value.is_some() {
                        return Err(FunctionError::RepeatedParameter { name: s.to_owned() });
                    }
                    j += 1;
                }
                Ok(result)
            },
        }
    }

    /// Every named argument, explicit or in `**kwargs`, as a dictionary.
    pub fn names(&self, heap: &Heap) -> (r: Result<Dict, FunctionError>)
        requires
            heap.wf(),
        ensures
            r matches Ok(d) ==> d.wf() && names_map_of(self@, heap@) is Ok && d@ == kwargs_entries(
                names_map_of(self@, heap@)->Ok_0,
            ),
            r matches Err(e) ==> names_map_of(self@, heap@) == Err::<
                Seq<(Seq<char>, Value)>,
                FunctionErrorView,
            >(e@),
    {
        match self.names_map(heap) {
            Ok(m) => Ok(dict_of_names(m)),
            Err(e) => Err(e),
        }
    }

    /// The positional arguments with the elements of `*args` behind them.
    pub fn positions(&self, heap: &Heap) -> (r: Result<Vec<Value>, FunctionError>)
        requires
            heap.wf(),
        ensures
            r matches Ok(xs) ==> all_positions(self@, heap@) == Some(xs@),
            r matches Err(e) ==> all_positions(self@, heap@) is None && e@
                == FunctionErrorView::ArgsArrayIsNotIterable,
    {
        let mut xs: Vec<Value> = Vec::new();
        let n = self.pos.len();
        let mut i: usize = 0;
        while i < n
            invariant
                n == self.pos@.len(),
                i <= n,
                xs@ == self.pos@.take(i as int),
            decreases n - i,
        {
            xs.push(self.pos[i]);
            i += 1;
            assert(xs@ =~= self.pos@.take(i as int));
        }
        assert(self.pos@.take(n as int) =~= self.pos@);
        match self.args {
            None => Ok(xs),
            Some(args) => match heap.iterate(args) {
                None => Err(FunctionError::ArgsArrayIsNotIterable),
                Some(items) => {
                    let m = items.len();
                    let mut j: usize = 0;
                    while j < m
                        invariant
                            m == items@.len(),
                            j <= m,
                            xs@ == self.pos@ + items@.take(j as int),
                        decreases m - j,
                    {
                        xs.push(items[j]);
                        j += 1;
                        assert(xs@ =~= self.pos@ + items@.take(j as int));
                    }
                    assert(items@.take(m as int) =~= items@);
                    Ok(xs)
                },
            },
        }
    }

    /// The `**kwargs` argument as a dictionary. Its keys are not looked at:
    /// some may not be strings, and some may be the names of explicit
    /// arguments.
    pub fn unpack_kwargs<'h>(&self, heap: &'h Heap) -> (r: Result<Option<&'h Dict>, FunctionError>)
        requires
            heap.wf(),
        ensures
            self@.kwargs is None ==> r matches Ok(None),
            self@.kwargs matches Some(kw) ==> match dict_in(heap@, kw) {
                Some(entries) => r matches Ok(Some(d)) && d@ == entries && d.wf(),
                None => r matches Err(e) && e@ == FunctionErrorView::KwArgsIsNotDict,
            },
    {
        match self.kwargs {
            None => Ok(None),
            Some(kwargs) => match heap.unpack_dict(kwargs) {
                None => Err(FunctionError::KwArgsIsNotDict),
                Some(x) => Ok(Some(x)),
            },
        }
    }

    /// The string in a key of the `**kwargs` argument, or the error that
    /// the key is not one.
    pub fn unpack_kwargs_key<'k>(k: &'k DictKey) -> (r: Result<&'k str, FunctionError>)
        ensures
            r matches Ok(s) ==> k@ == DictKeyView::Str(s@),
            r matches Err(e) ==> !(k@ is Str) && e@ == FunctionErrorView::ArgsValueIsNotString,
    {
        match k.unpack_str() {
            None => Err(FunctionError::ArgsValueIsNotString),
            Some(s) => Ok(s),
        }
    }

    /// Fails if the call has a positional argument.
    pub fn no_positional_args(&self, heap: &Heap) -> (r: Result<(), FunctionError>)
        requires
            heap.wf(),
        ensures
            match all_positions(self@, heap@) {
                None => r matches Err(e) && e@ == FunctionErrorView::ArgsArrayIsNotIterable,
                Some(xs) => if xs.len() == 0 {
                    r is Ok
                } else {
                    r matches Err(e) && e@ == (FunctionErrorView::WrongNumberOfParameters {
                        min: 0,
                        max: 0,
                        got: self@.pos.len() as usize,
                    })
                },
            },
    {
        match self.positional::<0>(heap) {
            Ok(_) => Ok(()),
            Err(e) => Err(e),
        }
    }

    /// Fails if the call has a named argument, explicit or in `**kwargs`.
    /// An empty `**kwargs` is no argument.
    pub fn no_named_args(&self, heap: &Heap) -> (r: Result<(), FunctionError>)
        requires
            heap.wf(),
        ensures
            self@.named.len() == 0 && self@.kwargs is None ==> r is Ok,
            !(self@.named.len() == 0 && self@.kwargs is None) ==> match self@.kwargs {
                None => extra_named(r, self@.names),
                Some(kw) => match dict_in(heap@, kw) {
                    None => r matches Err(e) && e@ == FunctionErrorView::KwArgsIsNotDict,
                    Some(entries) => match first_bad_key(entries, entries.len()) {
                        Some(_) => r matches Err(e) && e@ == FunctionErrorView::ArgsValueIsNotString,
                        None => extra_named(r, self@.names + key_names(entries, entries.len())),
                    },
                },
            },
    {
        if self.named.len() == 0 && self.kwargs.is_none() {
            Ok(())
        } else {
            self.bad_named_args(heap)
        }
    }

    /// The names of the named arguments that a call should not have, as an
    /// error; none is no error.
    fn bad_named_args(&self, heap: &Heap) -> (r: Result<(), FunctionError>)
        requires
            heap.wf(),
        ensures
            match self@.kwargs {
                None => extra_named(r, self@.names),
                Some(kw) => match dict_in(heap@, kw) {
                    None => r matches Err(e) && e@ == FunctionErrorView::KwArgsIsNotDict,
                    Some(entries) => match first_bad_key(entries, entries.len()) {
                        Some(_) => r matches Err(e) && e@ == FunctionErrorView::ArgsValueIsNotString,
                        None => extra_named(r, self@.names + key_names(entries, entries.len())),
                    },
                },
            },
    {
        // There may be an empty `**kwargs`, but more likely an error.
        let mut extra: Vec<String> = Vec::new();
        let n = self.names.len();
        let mut i: usize = 0;
        while i < n
            invariant
                n == self.names@.len(),
                i <= n,
                extra@.len() == i,
                forall|j: int| 0 <= j < i ==> (#[trigger] extra@[j])@ == self@.names[j],
            decreases n - i,
        {
            extra.push(self.names[i].as_str().to_owned());
            i += 1;
        }
        match self.unpack_kwargs(heap) {
            Err(e) => {
                return Err(e);
            },
            Ok(None) => {},
            Ok(Some(kwargs)) => {
                let keys = kwargs.iter_hashed();
                let m = keys.len();
                let mut j: usize = 0;
                while j < m
                    invariant
                        m == keys@.len(),
                        m == kwargs@.len(),
                        j <= m,
                        forall|i: int|
                            0 <= i < m ==> (#[trigger] keys@[i]).0.spec_key()@ == kwargs@[i].0,
                        first_bad_key(kwargs@, j as nat) is None,
                        Seq::new(extra@.len(), |i: int| extra@[i]@) == self@.names + key_names(
                            kwargs@,
                            j as nat,
                        ),
                        self@.kwargs is Some,
                        dict_in(heap@, self@.kwargs->Some_0) == Some(kwargs@),
                    decreases m - j,
                {
                    match Self::unpack_kwargs_key(keys[j].0.key()) {
                        Ok(s) => {
                            let ghost before = Seq::new(extra@.len(), |i: int| extra@[i]@);
                            extra.push(s.to_owned());
                            assert(Seq::new(extra@.len(), |i: int| extra@[i]@) =~= before.push(s@));
                        },
                        Err(e) => {
                            proof {
                                assert(first_bad_key(kwargs@, ((j + 1) as nat - 1) as nat) is None);
                                assert(first_bad_key(kwargs@, (j + 1) as nat) == Some(j as int));
                                lemma_first_bad_key_stays(kwargs@, (j + 1) as nat, m as nat);
                            }
                            return Err(e);
                        },
                    }
                    j += 1;
                }
            },
        }
        assert(self@.kwargs is None ==> Seq::new(extra@.len(), |i: int| extra@[i]@) =~= self@.names);
        if extra.len() == 0 {
            Ok(())
        } else {
            // The name of the function is not known here; it is in the
            // call stack.
            Err(FunctionError::ExtraNamedParameters { names: extra, function: "function".to_owned() })
        }
    }

    /// Exactly `N` positional arguments, those of `*args` among them. The
    /// named arguments are not looked at.
    pub fn positional<const N: usize>(&self, heap: &Heap) -> (r: Result<[Value; N], FunctionError>)
        requires
            heap.wf(),
        ensures
            match all_positions(self@, heap@) {
                None => r matches Err(e) && e@ == FunctionErrorView::ArgsArrayIsNotIterable,
                Some(xs) => if xs.len() == N {
                    r matches Ok(a) && a@ == xs
                } else {
                    r matches Err(e) && e@ == (FunctionErrorView::WrongNumberOfParameters {
                        min: N,
                        max: N,
                        got: self@.pos.len() as usize,
                    })
                },
            },
    {
        let xs = match self.positions(heap) {
            Ok(xs) => xs,
            Err(e) => {
                return Err(e);
            },
        };
        if xs.len() == N {
            let mut a: [Value; N] = [Value::new_none();N];
            let mut i: usize = 0;
            while i < N
                invariant
                    i <= N,
                    xs@.len() == N,
                    forall|j: int| 0 <= j < i ==> a@[j] == xs@[j],
                decreases N - i,
            {
                a[i] = xs[i];
                i += 1;
            }
            assert(a@ =~= xs@);
            Ok(a)
        } else {
            Err(FunctionError::WrongNumberOfParameters { min: N, max: N, got: self.pos.len() })
        }
    }

    /// Exactly `REQUIRED` positional arguments and up to `OPTIONAL` more,
    /// those of `*args` among them. Of the optional ones, none that is
    /// there comes behind one that is not. The named arguments are not
    /// looked at.
    pub fn optional<const REQUIRED: usize, const OPTIONAL: usize>(&self, heap: &Heap) -> (r: Result<
        ([Value; REQUIRED], [Option<Value>; OPTIONAL]),
        FunctionError,
    >)
        requires
            heap.wf(),
            REQUIRED + OPTIONAL <= usize::MAX,
        ensures
            match all_positions(self@, heap@) {
                None => r matches Err(e) && e@ == FunctionErrorView::ArgsArrayIsNotIterable,
                Some(xs) => if REQUIRED <= xs.len() <= REQUIRED + OPTIONAL {
                    r matches Ok(a) && a.0@ == xs.take(REQUIRED as int) && a.1@ == Seq::new(
                        OPTIONAL as nat,
                        |i: int|
                            if REQUIRED + i < xs.len() {
                                Some(xs[REQUIRED + i])
                            } else {
                                None
                            },
                    )
                } else {
                    r matches Err(e) && e@ == (FunctionErrorView::WrongNumberOfParameters {
                        min: REQUIRED,
                        max: (REQUIRED + OPTIONAL) as usize,
                        got: xs.len() as usize,
                    })
                },
            },
    {
        let xs = match self.positions(heap) {
            Ok(xs) => xs,
            Err(e) => {
                return Err(e);
            },
        };
        let n = xs.len();
        if n >= REQUIRED && n <= REQUIRED + OPTIONAL {
            let mut required: [Value; REQUIRED] = [Value::new_none();REQUIRED];
            let mut i: usize = 0;
            while i < REQUIRED
                invariant
                    i <= REQUIRED <= n,
                    n == xs@.len(),
                    forall|j: int| 0 <= j < i ==> required@[j] == xs@[j],
                decreases REQUIRED - i,
            {
                required[i] = xs[i];
                i += 1;
            }
            let mut optional: [Option<Value>; OPTIONAL] = [None;OPTIONAL];
            let mut j: usize = 0;
            while j < OPTIONAL && REQUIRED + j < n
                invariant
                    j <= OPTIONAL,
                    REQUIRED <= n <= REQUIRED + OPTIONAL <= usize::MAX,
                    n == xs@.len(),
                    forall|i: int| 0 <= i < j ==> optional@[i] == Some(xs@[REQUIRED + i]),
                    forall|i: int| j <= i < OPTIONAL ==> optional@[i] is None,
                    REQUIRED + j <= n,
                decreases OPTIONAL - j,
            {
                optional[j] = Some(xs[REQUIRED + j]);
                j += 1;
            }
            assert(required@ =~= xs@.take(REQUIRED as int));
            assert(optional@ =~= Seq::new(
                OPTIONAL as nat,
                |i: int|
                    if REQUIRED + i < xs@.len() {
                        Some(xs@[REQUIRED + i])
                    } else {
                        None
                    },
            ));
            Ok((required, optional))
        } else {
            Err(
                FunctionError::WrongNumberOfParameters {
                    min: REQUIRED,
                    max: REQUIRED + OPTIONAL,
                    got: n,
                },
            )
        }
    }

    /// Exactly one positional argument.
    pub fn positional1(&self, heap: &Heap) -> (r: Result<Value, FunctionError>)
        requires
            heap.wf(),
        ensures
            match all_positions(self@, heap@) {
                None => r matches Err(e) && e@ == FunctionErrorView::ArgsArrayIsNotIterable,
                Some(xs) => if xs.len() == 1 {
                    r == Ok::<Value, FunctionError>(xs[0])
                } else {
                    r matches Err(e) && e@ == (FunctionErrorView::WrongNumberOfParameters {
                        min: 1,
                        max: 1,
                        got: self@.pos.len() as usize,
                    })
                },
            },
    {
        match self.positional::<1>(heap) {
            Ok(a) => Ok(a[0]),
            Err(e) => Err(e),
        }
    }

    /// At most one positional argument.
    pub fn optional1(&self, heap: &Heap) -> (r: Result<Option<Value>, FunctionError>)
        requires
            heap.wf(),
        ensures
            match all_positions(self@, heap@) {
                None => r matches Err(e) && e@ == FunctionErrorView::ArgsArrayIsNotIterable,
                Some(xs) => if xs.len() == 0 {
                    r == Ok::<Option<Value>, FunctionError>(None)
                } else if xs.len() == 1 {
                    r == Ok::<Option<Value>, FunctionError>(Some(xs[0]))
                } else {
                    r matches Err(e) && e@ == (FunctionErrorView::WrongNumberOfParameters {
                        min: 0,
                        max: 1,
                        got: xs.len() as usize,
                    })
                },
            },
    {
        match self.optional::<0, 1>(heap) {
            Ok(a) => Ok(a.1[0]),
            Err(e) => Err(e),
        }
    }
}

/// The result is no error if there is no name, and otherwise the error
/// that these named arguments are too many.
pub open spec fn extra_named(r: Result<(), FunctionError>, names: Seq<Seq<char>>) -> bool {
    if names.len() == 0 {
        r is Ok
    } else {
        r matches Err(e) && e@ == (FunctionErrorView::ExtraNamedParameters {
            names,
            function: "function"@,
        })
    }
}

/// A key that is not a string stays the first such key when more keys are
/// looked at.
proof fn lemma_first_bad_key_stays(entries: Seq<(DictKeyView, Value)>, n: nat, m: nat)
    requires
        n <= m,
        first_bad_key(entries, n) is Some,
    ensures
        first_bad_key(entries, m) == first_bad_key(entries, n),
    decreases m,
{
    if n < m {
        lemma_first_bad_key_stays(entries, n, (m - 1) as nat);
    }
}

/// Reads the slots that a binding has filled, one after the other, in the
/// order in which the parameters were declared.
pub struct ParametersParser<'a> {
    slots: &'a [Option<Value>],
    position: usize,
}

impl<'a> ParametersParser<'a> {
    /// The slots that have not been read yet.
    pub closed spec fn remaining(&self) -> Seq<Option<Value>> {
        self.slots@.skip(self.position as int)
    }

    /// The parser is within its slots.
    pub closed spec fn wf(&self) -> bool {
        self.position <= self.slots@.len()
    }

    /// A parser at the first of `slots`.
    pub fn new(slots: &'a [Option<Value>]) -> (r: Self)
        ensures
            r.wf(),
            r.remaining() == slots@,
    {
        let r = ParametersParser { slots, position: 0 };
        assert(r.remaining() =~= slots@);
        r
    }

    /// How many slots have not been read yet.
    pub fn remaining_len(&self) -> (n: usize)
        requires
            self.wf(),
        ensures
            n == self.remaining().len(),
    {
        self.slots.len() - self.position
    }

    /// Does the next slot hold a value?
    pub fn next_is_assigned(&self) -> (b: bool)
        requires
            self.wf(),
        ensures
            b == (self.remaining().len() > 0 && self.remaining()[0] is Some),
    {
        self.position < self.slots.len() && self.slots[self.position].is_some()
    }

    /// Reads the next slot. There must be one: to ask for more parameters
    /// than were declared is a mistake of the caller.
    fn get_next(&mut self) -> (r: Option<Value>)
        requires
            old(self).wf(),
            old(self).remaining().len() > 0,
        ensures
            final(self).wf(),
            r == old(self).remaining()[0],
            final(self).remaining() == old(self).remaining().skip(1),
    {
        let v = self.slots[self.position];
        self.position += 1;
        assert(self.remaining() =~= old(self).remaining().skip(1));
        v
    }

    /// Unpacks the value that a method was called on.
    pub fn this<T: UnpackValue>(&self, this: Option<Value>, heap: &Heap) -> (r: Result<T, ValueError>)
        requires
            heap.wf(),
        ensures
            this is None ==> (r matches Err(e) && e@ == ValueErrorView::MissingThis),
            this matches Some(value) ==> param_unpacked::<T>(r, value, "this"@, heap),
    {
        match this {
            None => Err(ValueError::MissingThis),
            Some(this) => unpack_named_param(this, "this", heap),
        }
    }

    /// Reads the next parameter, which was declared optional: an empty slot
    /// is no value. The name is used in error messages only.
    pub fn next_opt<T: UnpackValue>(&mut self, name: &str, heap: &Heap) -> (r: Result<
        Option<T>,
        ValueError,
    >)
        requires
            old(self).wf(),
            old(self).remaining().len() > 0,
            heap.wf(),
        ensures
            final(self).wf(),
            final(self).remaining() == old(self).remaining().skip(1),
            old(self).remaining()[0] is None ==> r matches Ok(None),
            old(self).remaining()[0] matches Some(value) ==> optional_param_unpacked::<T>(
                r,
                value,
                name@,
                heap,
            ),
    {
        match self.get_next() {
            None => Ok(None),
            Some(v) => match unpack_named_param(v, name, heap) {
                Ok(t) => Ok(Some(t)),
                Err(e) => Err(e),
            },
        }
    }

    /// Reads the next parameter, which was not declared optional, so that
    /// a binding that succeeded has filled its slot. The name is used in
    /// error messages only.
    pub fn next<T: UnpackValue>(&mut self, name: &str, heap: &Heap) -> (r: Result<T, ValueError>)
        requires
            old(self).wf(),
            old(self).remaining().len() > 0,
            old(self).remaining()[0] is Some,
            heap.wf(),
        ensures
            final(self).wf(),
            final(self).remaining() == old(self).remaining().skip(1),
            param_unpacked::<T>(r, old(self).remaining()[0]->Some_0, name@, heap),
    {
        match self.get_next() {
            Some(v) => unpack_named_param(v, name, heap),
            None => Err(ValueError::MissingRequired(name.to_owned())),
        }
    }
}

/// The result is what unpacking `value` as the parameter `name` gives: the
/// value unpacked, or the error that names the parameter, the type
/// expected and the type of the value.
pub open spec fn param_unpacked<T: UnpackValue>(
    r: Result<T, ValueError>,
    value: Value,
    name: Seq<char>,
    heap: &Heap,
) -> bool {
    &&& r matches Ok(t) ==> call_ensures(T::unpack_value, (value, heap), Some(t))
    &&& r matches Err(e) ==> call_ensures(T::unpack_value, (value, heap), None::<T>) && exists|
        expected: String,
    |
        call_ensures(T::expected, (), expected) && e@
            == ValueErrorView::IncorrectParameterTypeNamedWithExpected(
            name,
            expected@,
            type_name_in(heap@, value),
        )
}

/// The same for a parameter that need not be there.
pub open spec fn optional_param_unpacked<T: UnpackValue>(
    r: Result<Option<T>, ValueError>,
    value: Value,
    name: Seq<char>,
    heap: &Heap,
) -> bool {
    &&& r matches Ok(t) ==> t is Some && call_ensures(T::unpack_value, (value, heap), t)
    &&& r matches Err(e) ==> call_ensures(T::unpack_value, (value, heap), None::<T>) && exists|
        expected: String,
    |
        call_ensures(T::expected, (), expected) && e@
            == ValueErrorView::IncorrectParameterTypeNamedWithExpected(
            name,
            expected@,
            type_name_in(heap@, value),
        )
}

impl<'a> Arguments<'a> {
    /// Checks that the value a method was called on is of the type
    /// expected.
    pub fn check_this<T: UnpackValue>(this: Value, heap: &Heap) -> (r: Result<T, ValueError>)
        requires
            heap.wf(),
        ensures
            param_unpacked::<T>(r, this, "this"@, heap),
    {
        unpack_named_param(this, "this", heap)
    }

    /// Checks that a required parameter has a value, of the type expected.
    pub fn check_required<T: UnpackValue>(name: &str, x: Option<Value>, heap: &Heap) -> (r: Result<
        T,
        ValueError,
    >)
        requires
            heap.wf(),
        ensures
            x is None ==> (r matches Err(e) && e@ == ValueErrorView::MissingRequired(name@)),
            x matches Some(value) ==> param_unpacked::<T>(r, value, name@, heap),
    {
        match x {
            None => Err(ValueError::MissingRequired(name.to_owned())),
            Some(x) => unpack_named_param(x, name, heap),
        }
    }

    /// Checks that an optional parameter, if it has a value, has one of
    /// the type expected.
    pub fn check_optional<T: UnpackValue>(name: &str, x: Option<Value>, heap: &Heap) -> (r: Result<
        Option<T>,
        ValueError,
    >)
        requires
            heap.wf(),
        ensures
            x is None ==> r matches Ok(None),
            x matches Some(value) ==> optional_param_unpacked::<T>(r, value, name@, heap),
    {
        match x {
            None => Ok(None),
            Some(x) => match unpack_named_param(x, name, heap) {
                Ok(t) => Ok(Some(t)),
                Err(e) => Err(e),
            },
        }
    }
}

} // verus!
