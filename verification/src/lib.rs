//! A reader and a small evaluator for S-expressions.
//!
//! Source text is tokenized, read into position-tagged trees, and evaluated
//! over a fixed set of primitive forms. Every function is verified against a
//! mathematical model of the text, the tokens and the trees.

pub mod builtins;
pub mod errors;
pub mod eval;
pub mod expr;
pub mod lexer;
pub mod parser;
pub mod printer;
pub mod stream;
