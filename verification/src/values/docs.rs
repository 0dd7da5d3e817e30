//! What the documentation of a function says of its parameters.

use vstd::prelude::*;

verus! {

/// The type of a parameter, as it is written.
#[derive(Debug, Clone, PartialEq)]
pub struct Type {
    pub raw_type: String,
}

/// The documentation of one item: a summary, and the details if there are
/// some.
#[derive(Debug, Clone, PartialEq)]
pub struct DocString {
    pub summary: String,
    pub details: Option<String>,
}

impl DocString {
    /// A copy of the documentation.
    pub fn duplicate(&self) -> (r: DocString)
        ensures
            r == *self,
    {
        DocString {
            summary: self.summary.clone(),
            details: match &self.details {
                Some(d) => Some(d.clone()),
                None => None,
            },
        }
    }
}

/// One parameter of a function, as its documentation shows it.
#[derive(Debug, Clone, PartialEq)]
pub enum Param {
    /// A parameter with a name.
    Arg { name: String, docs: Option<DocString>, typ: Option<Type>, default_value: Option<String> },
    /// The `*` that ends the positional parameters.
    NoArgs,
    /// The `*args` parameter.
    Args { name: String, docs: Option<DocString>, typ: Option<Type> },
    /// The `**kwargs` parameter.
    Kwargs { name: String, docs: Option<DocString>, typ: Option<Type> },
}

} // verus!
