//! A parser for Bloom, a small schema language of typed record definitions.

pub mod ast;
pub mod chars;
pub mod error;
pub mod grammar;
pub mod laws;
pub mod layout;
pub mod parsing;
pub mod render;
pub mod text;
pub mod tokens;
