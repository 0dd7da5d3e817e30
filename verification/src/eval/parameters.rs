//! The parameters that a function declares.

use itertools::Itertools;
use std::collections::HashMap;
use vstd::hash_map::StringHashMap;
use vstd::prelude::*;
use vstd::string::StringExecFns;

use crate::collections::hash::StarlarkHashValue;
use crate::collections::hasher::hash_of;
use crate::collections::symbol_map::{Symbol, SymbolMap};
use crate::collections::vec_map::{distinct_keys, lemma_index_of_key_some, lookup};
use crate::values::docs::{DocString, Param, Type};
use crate::values::value::{FrozenValue, Value, ValueLike};

verus! {

/// The kind of a parameter.
#[derive(Debug, Clone, PartialEq)]
pub enum ParameterKind<V> {
    /// The caller must supply it.
    Required,
    /// When the caller does not supply it, there is no error and the slot
    /// stays empty.
    Optional,
    /// When the caller does not supply it, it takes this value.
    Defaulted(V),
    /// The `*args` parameter: takes the positional arguments that are
    /// left.
    Args,
    /// The `**kwargs` parameter: takes the named arguments that are left.
    KWargs,
}

impl<V> ParameterKind<V> {
    /// An ordinary parameter, with a name: neither `*args` nor `**kwargs`.
    pub open spec fn is_regular(&self) -> bool {
        !(self is Args) && !(self is KWargs)
    }
}

/// The parameters that a function declares, in the order of their
/// declaration.
pub struct ParametersSpec<V> {
    /// Used in error messages only.
    function_name: String,
    /// The kind of each parameter, in the order of declaration.
    kinds: Vec<ParameterKind<V>>,
    /// The place in `kinds` of each parameter that has a name: all but
    /// `*args` and `**kwargs`. The names are in the order of declaration.
    names: SymbolMap<usize>,
    /// How many parameters can be filled by position: those declared
    /// before `*args` or the end of the positional parameters.
    positional: usize,
    /// Has the end of the positional parameters been declared?
    no_args: bool,
    /// The place of `*args`.
    args: Option<usize>,
    /// The place of `**kwargs`.
    kwargs: Option<usize>,
}

impl<V> ParametersSpec<V> {
    /// The name used in error messages.
    pub closed spec fn function_name(&self) -> Seq<char> {
        self.function_name@
    }

    /// The kind of each parameter, in the order of declaration.
    pub closed spec fn kinds(&self) -> Seq<ParameterKind<V>> {
        self.kinds@
    }

    /// The name of each named parameter with its place among the kinds, in
    /// the order of declaration.
    pub closed spec fn names(&self) -> Seq<(Seq<char>, usize)> {
        self.names@
    }

    /// How many parameters can be filled by position.
    pub closed spec fn positional(&self) -> usize {
        self.positional
    }

    /// Has the end of the positional parameters been declared?
    pub closed spec fn no_more_positional(&self) -> bool {
        self.no_args
    }

    /// The place of `*args`.
    pub closed spec fn args_index(&self) -> Option<usize> {
        self.args
    }

    /// The place of `**kwargs`.
    pub closed spec fn kwargs_index(&self) -> Option<usize> {
        self.kwargs
    }

    /// The parameters fit together: the positional ones come first and
    /// have names; every name stands for one ordinary parameter and every
    /// ordinary parameter has one name, in the same order; `*args` and
    /// `**kwargs` are where the spec says, and nowhere else.
    pub closed spec fn wf(&self) -> bool {
        &&& self.names.wf()
        &&& self.positional <= self.kinds@.len()
        &&& forall|i: int| 0 <= i < self.positional ==> (#[trigger] self.kinds@[i]).is_regular()
        &&& forall|j: int|
            0 <= j < self.names@.len() ==> (#[trigger] self.names@[j]).1 < self.kinds@.len()
                && self.kinds@[self.names@[j].1 as int].is_regular()
        &&& forall|j: int, k: int|
            0 <= j < k < self.names@.len() ==> (#[trigger] self.names@[j]).1 < (
            #[trigger] self.names@[k]).1
        &&& forall|i: int|
            0 <= i < self.kinds@.len() && (#[trigger] self.kinds@[i]).is_regular() ==> exists|j: int|
                0 <= j < self.names@.len() && (#[trigger] self.names@[j]).1 == i
        &&& self.args matches Some(a) ==> a < self.kinds@.len() && self.kinds@[a as int] is Args
        &&& self.kwargs matches Some(k) ==> k < self.kinds@.len() && self.kinds@[k as int] is KWargs
        &&& forall|i: int|
            0 <= i < self.kinds@.len() && (#[trigger] self.kinds@[i]) is Args ==> self.args == Some(
                i as usize,
            )
        &&& forall|i: int|
            0 <= i < self.kinds@.len() && (#[trigger] self.kinds@[i]) is KWargs ==> self.kwargs
                == Some(i as usize)
        &&& (self.kwargs is None && self.args is None && !self.no_args) ==> self.positional
            == self.kinds@.len()
    }

    /// What a well-formed spec promises to everyone.
    pub proof fn lemma_wf(&self)
        requires
            self.wf(),
        ensures
            distinct_keys(self.names()),
            self.positional() <= self.kinds().len(),
            forall|i: int| 0 <= i < self.positional() ==> (#[trigger] self.kinds()[i]).is_regular(),
            forall|j: int|
                0 <= j < self.names().len() ==> (#[trigger] self.names()[j]).1 < self.kinds().len()
                    && self.kinds()[self.names()[j].1 as int].is_regular(),
            self.args_index() matches Some(a) ==> a < self.kinds().len() && self.kinds()[a as int] is Args,
            self.kwargs_index() matches Some(k) ==> k < self.kinds().len()
                && self.kinds()[k as int] is KWargs,
            forall|i: int|
                0 <= i < self.kinds().len() && (#[trigger] self.kinds()[i]) is Args
                    ==> self.args_index() == Some(i as usize),
            forall|i: int|
                0 <= i < self.kinds().len() && (#[trigger] self.kinds()[i]) is KWargs
                    ==> self.kwargs_index() == Some(i as usize),
    {
        self.names.lemma_wf();
    }

    /// The place among the names of the parameter at place `index` among
    /// the kinds.
    pub open spec fn name_position(&self, index: int) -> int {
        choose|j: int| 0 <= j < self.names().len() && self.names()[j].1 == index
    }

    /// The name of the parameter at place `index`, as error messages give
    /// it.
    pub open spec fn name_at(&self, index: int) -> Seq<char> {
        if self.kinds()[index] is Args {
            "args"@
        } else if self.kinds()[index] is KWargs {
            "kwargs"@
        } else {
            self.names()[self.name_position(index)].0
        }
    }

    /// The place of the parameter with this name, if it is the name of
    /// one.
    pub open spec fn index_of_name(&self, name: Seq<char>) -> Option<usize> {
        lookup(self.names(), name)
    }

    /// The parameters of a function with this name that declares none.
    pub fn new(function_name: String) -> (r: Self)
        ensures
            r.wf(),
            r.function_name() == function_name@,
            r.kinds() == Seq::<ParameterKind<V>>::empty(),
            r.names() == Seq::<(Seq<char>, usize)>::empty(),
            r.positional() == 0,
            !r.no_more_positional(),
            r.args_index() is None,
            r.kwargs_index() is None,
    {
        Self::with_capacity(function_name, 0)
    }

    /// The parameters of a function with this name that declares none,
    /// with room for `capacity` of them.
    pub fn with_capacity(function_name: String, capacity: usize) -> (r: Self)
        ensures
            r.wf(),
            r.function_name() == function_name@,
            r.kinds() == Seq::<ParameterKind<V>>::empty(),
            r.names() == Seq::<(Seq<char>, usize)>::empty(),
            r.positional() == 0,
            !r.no_more_positional(),
            r.args_index() is None,
            r.kwargs_index() is None,
    {
        ParametersSpec {
            function_name,
            kinds: Vec::with_capacity(capacity),
            names: SymbolMap::with_capacity(capacity),
            positional: 0,
            no_args: false,
            args: None,
            kwargs: None,
        }
    }

    /// Declares an ordinary parameter.
    fn add(&mut self, name: &str, val: ParameterKind<V>)
        requires
            old(self).wf(),
            val.is_regular(),
            old(self).kwargs_index() is None,
            old(self).index_of_name(name@) is None,
        ensures
            final(self).wf(),
            final(self).function_name() == old(self).function_name(),
            final(self).kinds() == old(self).kinds().push(val),
            final(self).names() == old(self).names().push((name@, old(self).kinds().len() as usize)),
            final(self).positional() == (if old(self).args_index() is None
                && !old(self).no_more_positional() {
                old(self).kinds().len() + 1
            } else {
                old(self).positional() as nat
            }),
            final(self).no_more_positional() == old(self).no_more_positional(),
            final(self).args_index() == old(self).args_index(),
            final(self).kwargs_index() == old(self).kwargs_index(),
    {
        let i = self.kinds.len();
        self.kinds.push(val);
        proof {
            lemma_index_of_key_some(self.names@, name@);
        }
        let old_index = self.names.insert(name, i);
        if self.args.is_none() && !self.no_args {
            // Once `*args` or the end of the positional parameters has been
            // declared, no parameter can be filled by position.
            self.positional = self.kinds.len();
        }
        proof {
            let names0 = old(self).names@;
            let names1 = self.names@;
            assert(names1 == names0.push((name@, i)));
            assert forall|j: int, k: int| 0 <= j < k < names1.len() implies (#[trigger] names1[j]).1 < (
            #[trigger] names1[k]).1 by {
                if k < names0.len() {
                    assert(names1[j] == names0[j] && names1[k] == names0[k]);
                } else {
                    assert(names1[j] == names0[j]);
                    assert(names0[j].1 < old(self).kinds@.len());
                }
            }
            assert forall|j: int| 0 <= j < names1.len() implies (#[trigger] names1[j]).1
                < self.kinds@.len() && self.kinds@[names1[j].1 as int].is_regular() by {
                if j < names0.len() {
                    assert(names1[j] == names0[j]);
                    assert(self.kinds@[names0[j].1 as int] == old(self).kinds@[names0[j].1 as int]);
                }
            }
            assert forall|a: int|
                0 <= a < self.kinds@.len() && (#[trigger] self.kinds@[a]).is_regular() implies exists|
                j: int,
            |
                0 <= j < names1.len() && (#[trigger] names1[j]).1 == a by {
                if a < i {
                    assert(self.kinds@[a] == old(self).kinds@[a]);
                    let j = choose|j: int| 0 <= j < names0.len() && (#[trigger] names0[j]).1 == a;
                    assert(names1[j] == names0[j]);
                } else {
                    assert(names1[names0.len() as int].1 == a);
                }
            }
            assert forall|a: int| 0 <= a < self.positional implies (#[trigger] self.kinds@[a]).is_regular() by {
                if a < i {
                    assert(self.kinds@[a] == old(self).kinds@[a]);
                }
            }
            assert forall|a: int| 0 <= a < self.kinds@.len() && (#[trigger] self.kinds@[a]) is Args implies self.args
                == Some(a as usize) by {
                assert(self.kinds@[a] == old(self).kinds@[a]);
            }
            assert forall|a: int| 0 <= a < self.kinds@.len() && (#[trigger] self.kinds@[a]) is KWargs implies self.kwargs
                == Some(a as usize) by {
                assert(self.kinds@[a] == old(self).kinds@[a]);
            }
        }
    }

    /// Declares a required parameter: a call that does not supply it fails.
    /// A name that starts with `$` is a parameter that can be supplied by
    /// position only.
    pub fn required(&mut self, name: &str)
        requires
            old(self).wf(),
            old(self).kwargs_index() is None,
            old(self).index_of_name(name@) is None,
        ensures
            final(self).wf(),
            final(self).function_name() == old(self).function_name(),
            final(self).kinds() == old(self).kinds().push(ParameterKind::Required),
            final(self).names() == old(self).names().push((name@, old(self).kinds().len() as usize)),
            final(self).positional() == (if old(self).args_index() is None
                && !old(self).no_more_positional() {
                old(self).kinds().len() + 1
            } else {
                old(self).positional() as nat
            }),
            final(self).no_more_positional() == old(self).no_more_positional(),
            final(self).args_index() == old(self).args_index(),
            final(self).kwargs_index() == old(self).kwargs_index(),
    {
        self.add(name, ParameterKind::Required);
    }

    /// Declares an optional parameter: when a call does not supply it, its
    /// slot stays empty.
    pub fn optional(&mut self, name: &str)
        requires
            old(self).wf(),
            old(self).kwargs_index() is None,
            old(self).index_of_name(name@) is None,
        ensures
            final(self).wf(),
            final(self).function_name() == old(self).function_name(),
            final(self).kinds() == old(self).kinds().push(ParameterKind::Optional),
            final(self).names() == old(self).names().push((name@, old(self).kinds().len() as usize)),
            final(self).positional() == (if old(self).args_index() is None
                && !old(self).no_more_positional() {
                old(self).kinds().len() + 1
            } else {
                old(self).positional() as nat
            }),
            final(self).no_more_positional() == old(self).no_more_positional(),
            final(self).args_index() == old(self).args_index(),
            final(self).kwargs_index() == old(self).kwargs_index(),
    {
        self.add(name, ParameterKind::Optional);
    }

    /// Declares a parameter with a default: when a call does not supply it,
    /// it takes `val`.
    pub fn defaulted(&mut self, name: &str, val: V)
        requires
            old(self).wf(),
            old(self).kwargs_index() is None,
            old(self).index_of_name(name@) is None,
        ensures
            final(self).wf(),
            final(self).function_name() == old(self).function_name(),
            final(self).kinds() == old(self).kinds().push(ParameterKind::Defaulted(val)),
            final(self).names() == old(self).names().push((name@, old(self).kinds().len() as usize)),
            final(self).positional() == (if old(self).args_index() is None
                && !old(self).no_more_positional() {
                old(self).kinds().len() + 1
            } else {
                old(self).positional() as nat
            }),
            final(self).no_more_positional() == old(self).no_more_positional(),
            final(self).args_index() == old(self).args_index(),
            final(self).kwargs_index() == old(self).kwargs_index(),
    {
        self.add(name, ParameterKind::Defaulted(val));
    }

    /// Declares the `*args` parameter, which takes the positional arguments
    /// that are left. A function has at most one. The parameters declared
    /// after it can be supplied by name only.
    pub fn args(&mut self)
        requires
            old(self).wf(),
            old(self).args_index() is None,
            !old(self).no_more_positional(),
            old(self).kwargs_index() is None,
        ensures
            final(self).wf(),
            final(self).function_name() == old(self).function_name(),
            final(self).kinds() == old(self).kinds().push(ParameterKind::Args),
            final(self).names() == old(self).names(),
            final(self).positional() == old(self).positional(),
            final(self).no_more_positional() == old(self).no_more_positional(),
            final(self).args_index() == Some(old(self).kinds().len() as usize),
            final(self).kwargs_index() == old(self).kwargs_index(),
    {
        self.kinds.push(ParameterKind::Args);
        let n = self.kinds.len();
        self.args = Some(n - 1);
        proof {
            self.lemma_kind_added(*old(self));
        }
    }

    /// Declares the end of the positional parameters, as `*` does in a
    /// signature. The parameters declared after it can be supplied by name
    /// only.
    pub fn no_args(&mut self)
        requires
            old(self).wf(),
            old(self).args_index() is None,
            !old(self).no_more_positional(),
            old(self).kwargs_index() is None,
        ensures
            final(self).wf(),
            final(self).function_name() == old(self).function_name(),
            final(self).kinds() == old(self).kinds(),
            final(self).names() == old(self).names(),
            final(self).positional() == old(self).positional(),
            final(self).no_more_positional(),
            final(self).args_index() == old(self).args_index(),
            final(self).kwargs_index() == old(self).kwargs_index(),
    {
        self.no_args = true;
        proof {
            assert forall|i: int|
                0 <= i < self.kinds@.len() && (#[trigger] self.kinds@[i]).is_regular() implies exists|
                j: int,
            |
                0 <= j < self.names@.len() && (#[trigger] self.names@[j]).1 == i by {
                let j = choose|j: int|
                    0 <= j < old(self).names@.len() && (#[trigger] old(self).names@[j]).1 == i;
                assert(self.names@[j].1 == i);
            }
        }
    }

    /// Declares the `**kwargs` parameter, which takes the named arguments
    /// that are left. A function has at most one, and declares no
    /// parameter after it.
    pub fn kwargs(&mut self)
        requires
            old(self).wf(),
            old(self).kwargs_index() is None,
        ensures
            final(self).wf(),
            final(self).function_name() == old(self).function_name(),
            final(self).kinds() == old(self).kinds().push(ParameterKind::KWargs),
            final(self).names() == old(self).names(),
            final(self).positional() == old(self).positional(),
            final(self).no_more_positional() == old(self).no_more_positional(),
            final(self).args_index() == old(self).args_index(),
            final(self).kwargs_index() == Some(old(self).kinds().len() as usize),
    {
        self.kinds.push(ParameterKind::KWargs);
        let n = self.kinds.len();
        self.kwargs = Some(n - 1);
        proof {
            self.lemma_kind_added(*old(self));
        }
    }

    /// A spec stays well formed when `*args` or `**kwargs` is declared at
    /// its end.
    proof fn lemma_kind_added(&self, before: Self)
        requires
            before.wf(),
            self.kinds@.len() == before.kinds@.len() + 1,
            self.kinds@.len() <= usize::MAX,
            forall|i: int| 0 <= i < before.kinds@.len() ==> self.kinds@[i] == before.kinds@[i],
            self.names == before.names,
            self.positional == before.positional,
            self.no_args == before.no_args,
            ({
                ||| {
                    &&& self.kinds@.last() is Args
                    &&& before.args is None
                    &&& before.kwargs is None
                    &&& !before.no_args
                    &&& self.args == Some(before.kinds@.len() as usize)
                    &&& self.kwargs == before.kwargs
                }
                ||| {
                    &&& self.kinds@.last() is KWargs
                    &&& before.kwargs is None
                    &&& self.kwargs == Some(before.kinds@.len() as usize)
                    &&& self.args == before.args
                }
            }),
        ensures
            self.wf(),
    {
        assert forall|i: int| 0 <= i < self.positional implies (#[trigger] self.kinds@[i]).is_regular() by {
            assert(self.kinds@[i] == before.kinds@[i]);
        }
        assert forall|j: int| 0 <= j < self.names@.len() implies (#[trigger] self.names@[j]).1
            < self.kinds@.len() && self.kinds@[self.names@[j].1 as int].is_regular() by {
            assert(self.kinds@[before.names@[j].1 as int] == before.kinds@[before.names@[j].1 as int]);
        }
        assert forall|i: int|
            0 <= i < self.kinds@.len() && (#[trigger] self.kinds@[i]).is_regular() implies exists|
            j: int,
        |
            0 <= j < self.names@.len() && (#[trigger] self.names@[j]).1 == i by {
            assert(self.kinds@[i] == before.kinds@[i]);
        }
        assert forall|i: int| 0 <= i < self.kinds@.len() && (#[trigger] self.kinds@[i]) is Args implies self.args
            == Some(i as usize) by {
            if i < before.kinds@.len() {
                assert(self.kinds@[i] == before.kinds@[i]);
            }
        }
        assert forall|i: int| 0 <= i < self.kinds@.len() && (#[trigger] self.kinds@[i]) is KWargs implies self.kwargs
            == Some(i as usize) by {
            if i < before.kinds@.len() {
                assert(self.kinds@[i] == before.kinds@[i]);
            }
        }
        match self.args {
            Some(a) => {
                if a < before.kinds@.len() {
                    assert(self.kinds@[a as int] == before.kinds@[a as int]);
                }
            },
            None => {},
        }
        match self.kwargs {
            Some(k) => {
                if k < before.kinds@.len() {
                    assert(self.kinds@[k as int] == before.kinds@[k as int]);
                }
            },
            None => {},
        }
    }

    /// The number of parameters.
    pub fn len(&self) -> (n: usize)
        ensures
            n == self.kinds().len(),
    {
        self.kinds.len()
    }

    /// How many objects a binding allocates when it succeeds: a tuple if
    /// `*args` is declared, and a dictionary if `**kwargs` is.
    pub open spec fn variadic_slots(&self) -> nat {
        (if self.args_index() is Some {
            1nat
        } else {
            0nat
        }) + (if self.kwargs_index() is Some {
            1nat
        } else {
            0nat
        })
    }

    /// How many objects a binding allocates when it succeeds.
    pub fn variadic_count(&self) -> (n: usize)
        ensures
            n == self.variadic_slots(),
    {
        let tuple: usize = if self.args.is_some() {
            1
        } else {
            0
        };
        let dict: usize = if self.kwargs.is_some() {
            1
        } else {
            0
        };
        tuple + dict
    }

    /// Has `*args` been declared?
    pub fn has_args(&self) -> (b: bool)
        ensures
            b == self.args_index().is_some(),
    {
        self.args.is_some()
    }

    /// Has `**kwargs` been declared?
    pub fn has_kwargs(&self) -> (b: bool)
        ensures
            b == self.kwargs_index().is_some(),
    {
        self.kwargs.is_some()
    }

    /// Has the end of the positional parameters been declared?
    pub fn has_no_args(&self) -> (b: bool)
        ensures
            b == self.no_more_positional(),
    {
        self.no_args
    }

    /// Has a parameter with this name been declared?
    pub fn declares(&self, name: &str) -> (b: bool)
        requires
            self.wf(),
        ensures
            b == self.index_of_name(name@).is_some(),
    {
        self.names.get_str(name).is_some()
    }

    /// The signature of the function, for error messages: its name.
    pub fn signature(&self) -> (r: String)
        ensures
            r@ == self.function_name(),
    {
        let mut collector = String::new();
        self.collect_signature(&mut collector);
        collector
    }

    /// Appends the signature of the function to `collector`. The names of
    /// the parameters are left out on purpose: they crowd out the rest of
    /// a message.
    pub fn collect_signature(&self, collector: &mut String)
        ensures
            final(collector)@ == old(collector)@ + self.function_name(),
    {
        collector.append(self.function_name.as_str());
    }

    /// The name of the parameter at place `index`, as error messages give
    /// it.
    pub fn param_name_at(&self, index: usize) -> (r: String)
        requires
            self.wf(),
            index < self.kinds().len(),
        ensures
            r@ == self.name_at(index as int),
    {
        match self.kinds[index] {
            ParameterKind::Args => {
                return "args".to_owned();
            },
            ParameterKind::KWargs => {
                return "kwargs".to_owned();
            },
            _ => {},
        }
        let entries = self.names.iter();
        let n = entries.len();
        let mut j: usize = 0;
        proof {
            let w = choose|w: int| 0 <= w < self.names@.len() && (#[trigger] self.names@[w]).1 == index;
            assert(0 <= w < self.names@.len() && self.names@[w].1 == index);
        }
        while j < n
            invariant
                n == entries@.len(),
                n == self.names@.len(),
                j <= n,
                forall|i: int|
                    0 <= i < n ==> (#[trigger] entries@[i]).0@ == self.names@[i].0 && *entries@[i].1
                        == self.names@[i].1,
                forall|i: int| 0 <= i < j ==> (#[trigger] self.names@[i]).1 != index,
                exists|w: int| 0 <= w < self.names@.len() && (#[trigger] self.names@[w]).1 == index,
                self.wf(),
                index < self.kinds@.len(),
                self.kinds@[index as int].is_regular(),
            decreases n - j,
        {
            let e = &entries[j];
            if *e.1 == index {
                proof {
                    let p = self.name_position(index as int);
                    assert(0 <= p < self.names@.len() && self.names@[p].1 == index);
                    if p < j {
                        assert(self.names@[p].1 < self.names@[j as int].1);
                    } else if j < p {
                        assert(self.names@[j as int].1 < self.names@[p].1);
                    }
                }
                return e.0.clone();
            }
            j += 1;
        }
        proof {
            let w = choose|w: int| 0 <= w < self.names@.len() && (#[trigger] self.names@[w]).1 == index;
            assert(false);
        }
        String::new()
    }

    /// The place where a `*` would stand in the signature: behind the
    /// positional parameters, if a parameter that can be supplied by name
    /// only follows them directly.
    pub fn no_args_param_index(&self) -> (r: Option<usize>)
        requires
            self.wf(),
        ensures
            r == (if self.positional() < self.kinds().len() && self.kinds()[self.positional() as int].is_regular() {
                Some(self.positional())
            } else {
                None
            }),
    {
        if self.positional < self.kinds.len() {
            match self.kinds[self.positional] {
                ParameterKind::Args => None,
                ParameterKind::KWargs => None,
                _ => Some(self.positional),
            }
        } else {
            None
        }
    }
}

impl<V> ParametersSpec<V> {
    /// How many parameters can be filled by position.
    pub fn positional_count(&self) -> (n: usize)
        ensures
            n == self.positional(),
    {
        self.positional
    }

    /// The kind of the parameter at place `index`.
    pub fn kind_at(&self, index: usize) -> (kind: &ParameterKind<V>)
        requires
            index < self.kinds().len(),
        ensures
            *kind == self.kinds()[index as int],
    {
        &self.kinds[index]
    }

    /// The place of `*args`.
    pub fn args_place(&self) -> (r: Option<usize>)
        ensures
            r == self.args_index(),
    {
        self.args
    }

    /// The place of `**kwargs`.
    pub fn kwargs_place(&self) -> (r: Option<usize>)
        ensures
            r == self.kwargs_index(),
    {
        self.kwargs
    }

    /// The place of the parameter with the name of `name`.
    pub fn place_of(&self, name: &Symbol) -> (r: Option<usize>)
        requires
            self.wf(),
        ensures
            r == self.index_of_name(name@),
    {
        match self.names.get(name) {
            Some(index) => Some(*index),
            None => None,
        }
    }

    /// The place of the parameter with the name `name`, whose canonical
    /// hash the caller has already.
    pub fn place_of_hashed(&self, hash: StarlarkHashValue, name: &str) -> (r: Option<usize>)
        requires
            self.wf(),
            hash@ == hash_of::<String>(name@),
        ensures
            r == self.index_of_name(name@),
    {
        match self.names.get_hashed_str(hash, name) {
            Some(index) => Some(*index),
            None => None,
        }
    }
}

/// `Itertools::sorted_by_key`: the same names, each with its place, in the
/// order of their places.
#[verifier::external_body]
fn sorted_by_place<'a>(entries: Vec<(&'a String, &'a usize)>) -> (r: Vec<(&'a String, &'a usize)>)
    ensures
        r@.to_multiset() == entries@.to_multiset(),
        forall|i: int, j: int| 0 <= i < j < r@.len() ==> *r@[i].1 <= *r@[j].1,
{
    entries.into_iter().sorted_by_key(|e| *e.1).collect()
}

/// A sequence whose places only grow is put in the order of its places
/// already: to sort it by place changes nothing.
proof fn lemma_sorted_is_same(a: Seq<(&String, &usize)>, r: Seq<(&String, &usize)>)
    requires
        r.to_multiset() == a.to_multiset(),
        forall|i: int, j: int| 0 <= i < j < a.len() ==> *a[i].1 < *a[j].1,
        forall|i: int, j: int| 0 <= i < j < r.len() ==> *r[i].1 <= *r[j].1,
    ensures
        r == a,
    decreases a.len(),
{
    a.to_multiset_ensures();
    r.to_multiset_ensures();
    if a.len() == 0 {
        assert(r.len() == 0);
        assert(r =~= a);
    } else {
        let n = a.len() - 1;
        // The last of each is in the other.
        assert(a.contains(a[n]));
        assert(r.to_multiset().count(a[n]) > 0);
        assert(r.contains(a[n]));
        let i = choose|i: int| 0 <= i < r.len() && r[i] == a[n];
        assert(r.contains(r[n]));
        assert(a.to_multiset().count(r[n]) > 0);
        assert(a.contains(r[n]));
        let j = choose|j: int| 0 <= j < a.len() && a[j] == r[n];
        assert(*a[n].1 <= *r[n].1) by {
            if i < n {
                assert(*r[i].1 <= *r[n].1);
            }
        }
        assert(j == n) by {
            if j < n {
                assert(*a[j].1 < *a[n].1);
            }
        }
        assert(r[n] == a[n]);
        let a1 = a.drop_last();
        let r1 = r.drop_last();
        assert(a1 =~= a.remove(n));
        assert(r1 =~= r.remove(n));
        assert(r1.to_multiset() =~= a1.to_multiset());
        lemma_sorted_is_same(a1, r1);
        assert(r =~= r1.push(r[n]));
        assert(a =~= a1.push(a[n]));
    }
}

/// The name of a parameter as it is shown: a `$` in front, which marks a
/// parameter that can be supplied by position only, is left out.
pub open spec fn display_name(name: Seq<char>) -> Seq<char> {
    if name.len() > 0 && name[0] == '$' {
        name.skip(1)
    } else {
        name
    }
}

/// The name of a parameter as it is shown.
pub fn display_name_of(name: &str) -> (r: String)
    ensures
        r@ == display_name(name@),
{
    let n = name.unicode_len();
    if n > 0 && name.get_char(0) == '$' {
        let rest = name.substring_char(1, n);
        assert(rest@ =~= name@.skip(1));
        rest.to_owned()
    } else {
        name.to_owned()
    }
}

impl<V: ValueLike> ParametersSpec<V> {
    /// The name of the parameter at place `index`, as documentation shows
    /// it.
    pub open spec fn shown_name(&self, index: int) -> Seq<char> {
        if self.kinds()[index] is Args {
            "*args"@
        } else if self.kinds()[index] is KWargs {
            "**kwargs"@
        } else {
            display_name(self.names()[self.name_position(index)].0)
        }
    }

    /// The parameters in the order of declaration: the place, the name as
    /// it is shown, and the kind of each.
    pub fn iter_params(&self) -> (r: Vec<(usize, String, &ParameterKind<V>)>)
        requires
            self.wf(),
        ensures
            r@.len() == self.kinds().len(),
            forall|i: int|
                0 <= i < r@.len() ==> {
                    &&& (#[trigger] r@[i]).0 == i
                    &&& r@[i].1@ == self.shown_name(i)
                    &&& *r@[i].2 == self.kinds()[i]
                },
    {
        let unsorted = self.names.iter();
        let ghost declared = unsorted@;
        let names = sorted_by_place(unsorted);
        proof {
            assert forall|i: int, j: int| 0 <= i < j < declared.len() implies *declared[i].1
                < *declared[j].1 by {
                assert(self.names@[i].1 < self.names@[j].1);
            }
            lemma_sorted_is_same(declared, names@);
        }
        // Some functions have `*args` and then a parameter with a name: the
        // places of the names fall behind the places of the kinds.
        let mut offset: usize = 0;
        let mut r: Vec<(usize, String, &ParameterKind<V>)> = Vec::new();
        let n = self.kinds.len();
        let mut i: usize = 0;
        while i < n
            invariant
                self.wf(),
                n == self.kinds@.len(),
                i <= n,
                offset <= i,
                r@.len() == i,
                names@.len() == self.names@.len(),
                forall|j: int|
                    0 <= j < names@.len() ==> (#[trigger] names@[j]).0@ == self.names@[j].0
                        && *names@[j].1 == self.names@[j].1,
                forall|j: int| 0 <= j < i - offset && j < self.names@.len() ==> (#[trigger] self.names@[j]).1 < i,
                forall|j: int| i - offset <= j < self.names@.len() ==> (#[trigger] self.names@[j]).1 >= i,
                forall|j: int|
                    0 <= j < i ==> {
                        &&& (#[trigger] r@[j]).0 == j
                        &&& r@[j].1@ == self.shown_name(j)
                        &&& *r@[j].2 == self.kinds@[j]
                    },
            decreases n - i,
        {
            let kind = &self.kinds[i];
            let c = i - offset;
            let ghost was_regular = kind.is_regular();
            let name = match kind {
                ParameterKind::Args => {
                    offset += 1;
                    "*args".to_owned()
                },
                ParameterKind::KWargs => {
                    offset += 1;
                    "**kwargs".to_owned()
                },
                _ => {
                    proof {
                        let w = choose|w: int|
                            0 <= w < self.names@.len() && (#[trigger] self.names@[w]).1 == i;
                        assert(0 <= w < self.names@.len() && self.names@[w].1 == i);
                        if w < c {
                            assert(self.names@[w].1 < i);
                        }
                        if w > c {
                            assert(self.names@[c as int].1 < self.names@[w].1);
                            assert(self.names@[c as int].1 >= i);
                        }
                        assert(w == c);
                        let p = self.name_position(i as int);
                        assert(0 <= p < self.names@.len() && self.names@[p].1 == i);
                        if p < c {
                            assert(self.names@[p].1 < self.names@[c as int].1);
                        }
                        if p > c {
                            assert(self.names@[c as int].1 < self.names@[p].1);
                        }
                    }
                    display_name_of(names[c].0.as_str())
                },
            };
            r.push((i, name, kind));
            proof {
                assert forall|j: int| (i + 1) - offset <= j < self.names@.len() implies (
                #[trigger] self.names@[j]).1 >= i + 1 by {
                    if was_regular {
                        assert(self.names@[c as int].1 < self.names@[j].1);
                    } else {
                        assert(self.kinds@[self.names@[j].1 as int].is_regular());
                    }
                }
                assert forall|j: int|
                    0 <= j < (i + 1) - offset && j < self.names@.len() implies (
                #[trigger] self.names@[j]).1 < i + 1 by {
                    if j == c {
                        assert(was_regular);
                    }
                }
            }
            i += 1;
        }
        r
    }
}

/// The type that a parameter takes: what the map has under its place, if
/// that is any.
pub open spec fn type_taken(types: Map<usize, Type>, place: usize) -> Option<Type> {
    if types.contains_key(place) {
        Some(types[place])
    } else {
        None
    }
}

/// The documentation of the first `n` of `entries`, by name: a name that
/// comes again takes the documentation that comes later.
pub open spec fn docs_collected(entries: Seq<(String, Option<DocString>)>, n: nat) -> Map<
    Seq<char>,
    Option<DocString>,
>
    decreases n,
{
    if n == 0 {
        Map::empty()
    } else {
        docs_collected(entries, (n - 1) as nat).insert(entries[n - 1].0@, entries[n - 1].1)
    }
}

/// The documentation of parameters by name, out of a list of names with
/// their documentation.
pub fn docs_by_name(entries: Vec<(String, Option<DocString>)>) -> (docs: StringHashMap<
    Option<DocString>,
>)
    ensures
        docs@ == docs_collected(entries@, entries@.len()),
{
    let mut back = entries;
    let ghost all = back@;
    // Take the entries from the back, so that they can be put in from the
    // front.
    let mut front: Vec<(String, Option<DocString>)> = Vec::new();
    while back.len() > 0
        invariant
            back@.len() + front@.len() == all.len(),
            back@ == all.subrange(0, back@.len() as int),
            forall|j: int| 0 <= j < front@.len() ==> front@[j] == all[all.len() - 1 - j],
        decreases back@.len(),
    {
        let e = back.pop().unwrap();
        front.push(e);
        assert(back@ =~= all.subrange(0, back@.len() as int));
    }
    let mut docs: StringHashMap<Option<DocString>> = StringHashMap::new();
    while front.len() > 0
        invariant
            front@.len() <= all.len(),
            forall|j: int| 0 <= j < front@.len() ==> front@[j] == all[all.len() - 1 - j],
            docs@ == docs_collected(all, (all.len() - front@.len()) as nat),
        decreases front@.len(),
    {
        let e = front.pop().unwrap();
        docs.insert(e.0, e.1);
    }
    docs
}

/// The documentation that a parameter takes: what the map has under its
/// name, if that is any.
pub open spec fn docs_taken(docs: Map<Seq<char>, Option<DocString>>, name: Seq<char>) -> Option<
    DocString,
> {
    if docs.contains_key(name) {
        docs[name]
    } else {
        None
    }
}

impl<V: ValueLike> ParametersSpec<V> {
    /// The documentation that is left once that of the first `n`
    /// parameters has been taken out.
    pub open spec fn docs_left(&self, docs: Map<Seq<char>, Option<DocString>>, n: nat) -> Map<
        Seq<char>,
        Option<DocString>,
    >
        decreases n,
    {
        if n == 0 {
            docs
        } else {
            self.docs_left(docs, (n - 1) as nat).remove(self.shown_name(n - 1))
        }
    }

    /// Is `param` what the documentation shows for the parameter at place
    /// `i`: its name as it is shown, its type and its documentation, taken
    /// out of the two maps, and the default that its kind gives it, as
    /// `repr` writes it?
    pub open spec fn documents<F: Fn(Value) -> String>(
        &self,
        param: Param,
        i: int,
        types: Map<usize, Type>,
        docs: Map<Seq<char>, Option<DocString>>,
        repr: F,
    ) -> bool {
        let typ = type_taken(types, i as usize);
        let doc = docs_taken(self.docs_left(docs, i as nat), self.shown_name(i));
        match self.kinds()[i] {
            ParameterKind::Required => param matches Param::Arg { name, docs: d, typ: t, default_value }
                && name@ == self.shown_name(i) && d == doc && t == typ && default_value is None,
            ParameterKind::Optional => param matches Param::Arg { name, docs: d, typ: t, default_value }
                && name@ == self.shown_name(i) && d == doc && t == typ && default_value is Some
                && default_value->Some_0@ == "None"@,
            ParameterKind::Defaulted(v) => param matches Param::Arg {
                name,
                docs: d,
                typ: t,
                default_value,
            } && name@ == self.shown_name(i) && d == doc && t == typ && default_value is Some
                && repr.ensures((v.spec_to_value(),), default_value->Some_0),
            ParameterKind::Args => param matches Param::Args { name, docs: d, typ: t } && name@
                == self.shown_name(i) && d == doc && t == typ,
            ParameterKind::KWargs => param matches Param::Kwargs { name, docs: d, typ: t } && name@
                == self.shown_name(i) && d == doc && t == typ,
        }
    }

    /// The documentation of the parameters, in the order of declaration,
    /// with a `*` where the positional parameters end, if parameters that
    /// can be supplied by name only follow them directly.
    ///
    /// `parameter_types` has the type of a parameter under its place, and
    /// `parameter_docs` its documentation under its name; `repr` writes a
    /// default value.
    pub fn documentation<F: Fn(Value) -> String>(
        &self,
        parameter_types: HashMap<usize, Type>,
        parameter_docs: StringHashMap<Option<DocString>>,
        repr: F,
    ) -> (params: Vec<Param>)
        requires
            self.wf(),
            forall|v: Value| #[trigger] repr.requires((v,)),
        ensures
            match self.star_index() {
                None => {
                    &&& params@.len() == self.kinds().len()
                    &&& forall|i: int|
                        0 <= i < self.kinds().len() ==> self.documents(
                            #[trigger] params@[i],
                            i,
                            parameter_types@,
                            parameter_docs@,
                            repr,
                        )
                },
                Some(star) => {
                    &&& params@.len() == self.kinds().len() + 1
                    &&& params@[star as int] is NoArgs
                    &&& forall|i: int|
                        0 <= i < star ==> self.documents(
                            #[trigger] params@[i],
                            i,
                            parameter_types@,
                            parameter_docs@,
                            repr,
                        )
                    &&& forall|i: int|
                        star <= i < self.kinds().len() ==> self.documents(
                            #[trigger] params@[i + 1],
                            i,
                            parameter_types@,
                            parameter_docs@,
                            repr,
                        )
                },
            },
    {
        let mut parameter_types = parameter_types;
        let mut parameter_docs = parameter_docs;
        let ghost types0 = parameter_types@;
        let ghost docs0 = parameter_docs@;
        let shown = self.iter_params();
        let mut params: Vec<Param> = Vec::new();
        let n = shown.len();
        let mut i: usize = 0;
        while i < n
            invariant
                self.wf(),
                n == shown@.len(),
                n == self.kinds().len(),
                i <= n,
                params@.len() == i,
                forall|k: usize|
                    k >= i ==> type_taken(parameter_types@, k) == #[trigger] type_taken(types0, k),
                parameter_docs@ == self.docs_left(docs0, i as nat),
                forall|v: Value| #[trigger] repr.requires((v,)),
                forall|j: int|
                    0 <= j < n ==> {
                        &&& (#[trigger] shown@[j]).0 == j
                        &&& shown@[j].1@ == self.shown_name(j)
                        &&& *shown@[j].2 == self.kinds()[j]
                    },
                forall|j: int|
                    0 <= j < i ==> self.documents(#[trigger] params@[j], j, types0, docs0, repr),
            decreases n - i,
        {
            let entry = &shown[i];
            let typ = parameter_types.remove(&i);
            let name = entry.1.clone();
            let docs = match parameter_docs.get(name.as_str()) {
                Some(Some(d)) => Some(d.duplicate()),
                _ => None,
            };
            parameter_docs.remove(name.as_str());
            let param = match entry.2 {
                ParameterKind::Required => Param::Arg { name, docs, typ, default_value: None },
                ParameterKind::Optional => Param::Arg {
                    name,
                    docs,
                    typ,
                    default_value: Some("None".to_owned()),
                },
                ParameterKind::Defaulted(v) => Param::Arg {
                    name,
                    docs,
                    typ,
                    default_value: Some(repr((*v).to_value())),
                },
                ParameterKind::Args => Param::Args { name, docs, typ },
                ParameterKind::KWargs => Param::Kwargs { name, docs, typ },
            };
            assert(self.documents(param, i as int, types0, docs0, repr));
            params.push(param);
            i += 1;
        }
        // Go back and add the `*`, if there is one.
        match self.no_args_param_index() {
            Some(star) => {
                let ghost before = params@;
                params.insert(star, Param::NoArgs);
                proof {
                    assert forall|i: int| 0 <= i < star implies self.documents(
                        #[trigger] params@[i],
                        i,
                        types0,
                        docs0,
                        repr,
                    ) by {
                        assert(params@[i] == before[i]);
                    }
                    assert forall|i: int| star <= i < self.kinds().len() implies self.documents(
                        #[trigger] params@[i + 1],
                        i,
                        types0,
                        docs0,
                        repr,
                    ) by {
                        assert(params@[i + 1] == before[i]);
                    }
                }
            },
            None => {},
        }
        params
    }

    /// The place where a `*` stands in the signature, if it has one.
    pub open spec fn star_index(&self) -> Option<usize> {
        if self.positional() < self.kinds().len() && self.kinds()[self.positional() as int].is_regular() {
            Some(self.positional())
        } else {
            None
        }
    }
}

impl ParametersSpec<Value> {
    /// The same parameters with every default frozen by `freeze`. If a
    /// default cannot be frozen, the first error is returned.
    pub fn freeze<E, F: Fn(Value) -> Result<FrozenValue, E>>(self, freeze: F) -> (r:
        Result<ParametersSpec<FrozenValue>, E>)
        requires
            self.wf(),
            forall|v: Value| #[trigger] freeze.requires((v,)),
        ensures
            r matches Ok(frozen) ==> {
                &&& frozen.wf()
                &&& frozen.function_name() == self.function_name()
                &&& frozen.names() == self.names()
                &&& frozen.positional() == self.positional()
                &&& frozen.no_more_positional() == self.no_more_positional()
                &&& frozen.args_index() == self.args_index()
                &&& frozen.kwargs_index() == self.kwargs_index()
                &&& frozen.kinds().len() == self.kinds().len()
                &&& forall|i: int|
                    0 <= i < self.kinds().len() ==> kind_frozen(
                        self.kinds()[i],
                        #[trigger] frozen.kinds()[i],
                        freeze,
                    )
            },
            r matches Err(e) ==> exists|i: int|
                0 <= i < self.kinds().len() && (#[trigger] self.kinds()[i]) is Defaulted
                    && freeze.ensures(
                    (self.kinds()[i]->Defaulted_0,),
                    Err::<FrozenValue, E>(e),
                ),
    {
        let mut kinds: Vec<ParameterKind<FrozenValue>> = Vec::new();
        let n = self.kinds.len();
        let mut i: usize = 0;
        while i < n
            invariant
                n == self.kinds@.len(),
                i <= n,
                kinds@.len() == i,
                forall|v: Value| #[trigger] freeze.requires((v,)),
                forall|j: int| 0 <= j < i ==> kind_frozen(self.kinds@[j], #[trigger] kinds@[j], freeze),
            decreases n - i,
        {
            let kind = match &self.kinds[i] {
                ParameterKind::Defaulted(v) => match freeze(*v) {
                    Ok(f) => ParameterKind::Defaulted(f),
                    Err(e) => {
                        assert(self.kinds()[i as int] is Defaulted && freeze.ensures(
                            (self.kinds()[i as int]->Defaulted_0,),
                            Err::<FrozenValue, E>(e),
                        ));
                        return Err(e);
                    },
                },
                ParameterKind::Required => ParameterKind::Required,
                ParameterKind::Optional => ParameterKind::Optional,
                ParameterKind::Args => ParameterKind::Args,
                ParameterKind::KWargs => ParameterKind::KWargs,
            };
            kinds.push(kind);
            i += 1;
        }
        let frozen = ParametersSpec {
            function_name: self.function_name,
            kinds,
            names: self.names,
            positional: self.positional,
            no_args: self.no_args,
            args: self.args,
            kwargs: self.kwargs,
        };
        proof {
            assert forall|a: int|
                0 <= a < frozen.kinds@.len() && (#[trigger] frozen.kinds@[a]).is_regular() implies exists|
                j: int,
            |
                0 <= j < frozen.names@.len() && (#[trigger] frozen.names@[j]).1 == a by {
                assert(kind_frozen(self.kinds@[a], frozen.kinds@[a], freeze));
                assert(self.kinds@[a].is_regular());
                let j = choose|j: int| 0 <= j < self.names@.len() && (#[trigger] self.names@[j]).1 == a;
                assert(frozen.names@[j].1 == a);
            }
            assert forall|j: int| 0 <= j < frozen.names@.len() implies (#[trigger] frozen.names@[j]).1
                < frozen.kinds@.len() && frozen.kinds@[frozen.names@[j].1 as int].is_regular() by {
                let a = self.names@[j].1 as int;
                assert(kind_frozen(self.kinds@[a], frozen.kinds@[a], freeze));
            }
            assert forall|a: int| 0 <= a < frozen.positional implies (#[trigger] frozen.kinds@[a]).is_regular() by {
                assert(kind_frozen(self.kinds@[a], frozen.kinds@[a], freeze));
                assert(self.kinds@[a].is_regular());
            }
            assert forall|a: int| 0 <= a < frozen.kinds@.len() && (#[trigger] frozen.kinds@[a]) is Args implies frozen.args
                == Some(a as usize) by {
                assert(kind_frozen(self.kinds@[a], frozen.kinds@[a], freeze));
                assert(self.kinds@[a] is Args);
            }
            assert forall|a: int| 0 <= a < frozen.kinds@.len() && (#[trigger] frozen.kinds@[a]) is KWargs implies frozen.kwargs
                == Some(a as usize) by {
                assert(kind_frozen(self.kinds@[a], frozen.kinds@[a], freeze));
                assert(self.kinds@[a] is KWargs);
            }
            match frozen.args {
                Some(a) => {
                    assert(kind_frozen(self.kinds@[a as int], frozen.kinds@[a as int], freeze));
                },
                None => {},
            }
            match frozen.kwargs {
                Some(k) => {
                    assert(kind_frozen(self.kinds@[k as int], frozen.kinds@[k as int], freeze));
                },
                None => {},
            }
        }
        Ok(frozen)
    }
}

/// The kind `frozen` is the kind `kind` with its default, if it has one,
/// frozen by `freeze`.
pub open spec fn kind_frozen<E, F: Fn(Value) -> Result<FrozenValue, E>>(
    kind: ParameterKind<Value>,
    frozen: ParameterKind<FrozenValue>,
    freeze: F,
) -> bool {
    match kind {
        ParameterKind::Required => frozen is Required,
        ParameterKind::Optional => frozen is Optional,
        ParameterKind::Defaulted(v) => frozen matches ParameterKind::Defaulted(f) && freeze.ensures(
            (v,),
            Ok::<FrozenValue, E>(f),
        ),
        ParameterKind::Args => frozen is Args,
        ParameterKind::KWargs => frozen is KWargs,
    }
}

} // verus!
