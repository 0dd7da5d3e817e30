//! Collections with a deterministic iteration order and a small memory
//! footprint, and the hashing they rest on.

pub mod hash;
pub mod hasher;
mod index;
pub mod small_map;
pub mod symbol_map;
pub mod vec_map;
