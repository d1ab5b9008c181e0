//! Runtime support for programs compiled from a dynamically typed,
//! Python-like language: sequence indexing and slicing with negative
//! offsets, membership tests, cached pattern matching and a shared
//! priority queue, together with small string and collection helpers.

pub mod builtin;
pub mod chars;
pub mod dict;
pub mod heap;
pub mod re;
pub mod stdlib;
pub mod str_ext;
pub mod text;
