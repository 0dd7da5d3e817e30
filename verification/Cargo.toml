[package]
name = "starlark"
version = "0.1.0"
edition = "2021"
publish = false

[dependencies]
hashbrown = { version = "0.15", default-features = false }
itertools = "0.14"
codemap = "0.1"
either = "1"
anyhow = "1"
thiserror = "1"
indexmap = "2"
once_cell = "1"
static_assertions = "1"
