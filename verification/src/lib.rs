//! A small arithmetic expression pipeline: a lexer that turns a line of text
//! into tokens, a recursive-descent parser that builds an expression tree,
//! and the shared token and tree data model.
//!
//! Every stage reports failure through an explicit error flag rather than by
//! panicking or raising: each entry point returns a best-effort result
//! together with a `bool` that is true when anything went wrong on the line.

pub mod token;
pub mod lexer;
pub mod ast;
pub mod parser;
