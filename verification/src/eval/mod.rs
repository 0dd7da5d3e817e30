//! Evaluation: the parameters of functions and the arguments of calls, the
//! binding of the one to the other, call frames, and the state of an
//! evaluation.

pub mod arguments;
pub mod binding;
pub mod context;
pub mod frame;
pub mod parameters;
