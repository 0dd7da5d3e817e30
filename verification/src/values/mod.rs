//! Values: the tagged word behind every value, the objects that values
//! point to, the heap that holds them, and how a heap is collected and
//! frozen.

pub mod collect;
pub mod dict;
pub mod docs;
pub mod frozen;
pub mod heap;
pub mod pointer;
pub mod trace;
pub mod unpack;
pub mod value;
