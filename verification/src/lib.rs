//! The runtime nucleus of an embedded, deterministic scripting language:
//! the tagged word behind every value, the heap and its collection, the
//! frozen heap, an insertion-ordered small map, call frames, the state of
//! an evaluation, and the binding of the arguments of a call to the
//! parameters of the function called.

pub mod collections;
pub mod eval;
pub mod values;
