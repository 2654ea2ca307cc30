//! Compiler from textual descriptions of deterministic single-tape Turing
//! machines to a small imperative tape language.
//!
//! The pipeline is: raw bytes -> machine description (`machine`, `parse`) ->
//! integer encodings for states and symbols (`encode`) -> generated program
//! text (`emit`).

pub mod machine;
pub mod parse;
pub mod encode;
pub mod emit;
pub mod laws;
