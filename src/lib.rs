//! Compiles SQL templates with literal text, bound values and nested
//! conditionals into Rust code that drives a [`Builder`].
pub mod blocks;
pub mod builder;
pub mod codegen;
pub mod parse;
pub mod query;
pub mod run;
pub mod text;
pub mod tree;

pub use query::{Builder, Query};
