//! Taking a value apart into a type of the host.

use vstd::prelude::*;

use crate::values::heap::{object_in, Heap, Object, ObjectView};
use crate::values::pointer::{untag_int_spec, word_is_int};
use crate::values::value::{bool_word, none_word, Value};

verus! {

/// What can go wrong when a parameter is unpacked.
#[derive(Debug)]
pub enum ValueError {
    /// A method was called without the value it is a method of.
    MissingThis,
    /// A required parameter has no value.
    MissingRequired(String),
    /// A parameter has a value of another type than expected: the name of
    /// the parameter, the type expected and the type of the value.
    IncorrectParameterTypeNamedWithExpected(String, String, String),
}

/// What an error holds.
pub enum ValueErrorView {
    MissingThis,
    MissingRequired(Seq<char>),
    IncorrectParameterTypeNamedWithExpected(Seq<char>, Seq<char>, Seq<char>),
}

impl View for ValueError {
    type V = ValueErrorView;

    open spec fn view(&self) -> ValueErrorView {
        match self {
            ValueError::MissingThis => ValueErrorView::MissingThis,
            ValueError::MissingRequired(name) => ValueErrorView::MissingRequired(name@),
            ValueError::IncorrectParameterTypeNamedWithExpected(
                name,
                expected,
                got,
            ) => ValueErrorView::IncorrectParameterTypeNamedWithExpected(name@, expected@, got@),
        }
    }
}

/// The name of the type of a value.
pub open spec fn type_name_in(objects: Seq<ObjectView>, v: Value) -> Seq<char> {
    if word_is_int(v@) {
        "int"@
    } else if v@ == none_word() {
        "NoneType"@
    } else if v@ == bool_word(true) || v@ == bool_word(false) {
        "bool"@
    } else {
        match object_in(objects, v) {
            Some(ObjectView::Str(_)) => "string"@,
            Some(ObjectView::Tuple(_)) => "tuple"@,
            Some(ObjectView::List(_)) => "list"@,
            Some(ObjectView::Dict(_)) => "dict"@,
            None => "unknown"@,
        }
    }
}

impl Heap {
    /// The name of the type of a value.
    pub fn get_type(&self, v: Value) -> (r: &'static str)
        requires
            self.wf(),
        ensures
            r@ == type_name_in(self@, v),
    {
        if v.unpack_int().is_some() {
            "int"
        } else if v.is_none() {
            "NoneType"
        } else if v.unpack_bool().is_some() {
            "bool"
        } else {
            match self.get(v) {
                Some(Object::Str(_)) => "string",
                Some(Object::Tuple(_)) => "tuple",
                Some(Object::List(_)) => "list",
                Some(Object::Dict(_)) => "dict",
                None => "unknown",
            }
        }
    }
}

/// A type of the host that a value can be unpacked into.
pub trait UnpackValue: Sized {
    /// A description of the values that unpack, for error messages.
    fn expected() -> String;

    /// The value unpacked, if it is of the type.
    fn unpack_value(value: Value, heap: &Heap) -> Option<Self>
        requires
            heap.wf(),
    ;
}

impl UnpackValue for Value {
    fn expected() -> (r: String)
        ensures
            r@ == "Value"@,
    {
        "Value".to_owned()
    }

    fn unpack_value(value: Value, heap: &Heap) -> (r: Option<Value>)
        ensures
            r == Some(value),
    {
        Some(value)
    }
}

impl UnpackValue for i32 {
    fn expected() -> (r: String)
        ensures
            r@ == "int"@,
    {
        "int".to_owned()
    }

    fn unpack_value(value: Value, heap: &Heap) -> (r: Option<i32>)
        ensures
            r == (if word_is_int(value@) {
                Some(untag_int_spec(value@))
            } else {
                None
            }),
    {
        value.unpack_int()
    }
}

impl UnpackValue for bool {
    fn expected() -> (r: String)
        ensures
            r@ == "bool"@,
    {
        "bool".to_owned()
    }

    fn unpack_value(value: Value, heap: &Heap) -> (r: Option<bool>)
        ensures
            r == (if value@ == bool_word(true) {
                Some(true)
            } else if value@ == bool_word(false) {
                Some(false)
            } else {
                None
            }),
    {
        value.unpack_bool()
    }
}

/// What unpacking a parameter gives, once the value has been looked at:
/// the value unpacked, or the error that names the parameter, the type
/// expected and the type of the value.
pub fn named_param_result<T>(unpacked: Option<T>, name: &str, expected: String, got: &str) -> (r:
    Result<T, ValueError>)
    ensures
        match unpacked {
            Some(t) => r == Ok::<T, ValueError>(t),
            None => r matches Err(e) && e@ == ValueErrorView::IncorrectParameterTypeNamedWithExpected(
                name@,
                expected@,
                got@,
            ),
        },
{
    match unpacked {
        Some(t) => Ok(t),
        None => Err(
            ValueError::IncorrectParameterTypeNamedWithExpected(
                name.to_owned(),
                expected,
                got.to_owned(),
            ),
        ),
    }
}

/// Unpacks the value of the parameter `name`.
pub fn unpack_named_param<T: UnpackValue>(value: Value, name: &str, heap: &Heap) -> (r: Result<
    T,
    ValueError,
>)
    requires
        heap.wf(),
    ensures
        r matches Ok(t) ==> call_ensures(T::unpack_value, (value, heap), Some(t)),
        r matches Err(e) ==> call_ensures(T::unpack_value, (value, heap), None::<T>) && exists|
            expected: String,
        |
            call_ensures(T::expected, (), expected) && e@
                == ValueErrorView::IncorrectParameterTypeNamedWithExpected(
                name@,
                expected@,
                type_name_in(heap@, value),
            ),
{
    let unpacked = T::unpack_value(value, heap);
    let expected = T::expected();
    named_param_result(unpacked, name, expected, heap.get_type(value))
}

} // verus!
