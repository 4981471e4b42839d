//! Nicco: a tokenizer for element templates written as Rust token trees.
//!
//! The tokenizer walks a template such as `[ html html ]`, reports problems
//! to a sink as messages, and returns the elements it recognised.

pub mod driver;
pub mod sinks;
pub mod tokenizer;
pub mod tree_builder;
