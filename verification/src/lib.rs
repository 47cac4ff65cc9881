//! A small concatenative scripting language: a lexer that turns source text
//! into a token tree, and an interpreter that walks that tree against an
//! operand stack and a set of bindings.
//!
//! Numbers are IEEE 754 doubles, carried by their bit patterns. The library
//! compares, truncates and counts with them; everything else that has to be
//! done with a number (reading a literal, arithmetic, printing) is handed to
//! the host as an [`frame::Action`].

pub mod builtin;
pub mod error;
pub mod number;
pub mod text;
pub mod value;
pub mod token;
pub mod types;
pub mod machine;
pub mod context;
pub mod frame;
pub mod evaluate;
pub mod interpreter;
pub mod laws;
pub mod words;
pub mod lexer;
pub mod stack;
