//! Reading: positions, the tokenizer and the reader.

use vstd::prelude::*;

pub mod chars;
pub mod lexer;
pub mod number;
pub mod parser;
pub mod round_trip;

verus! {

/// A place in the source text: the line, counted from 1, and the column of a
/// character within its line, counted from 1.
#[derive(Debug, PartialEq, Eq, Clone, Copy, Structural)]
pub struct Position(pub usize, pub usize);

impl Position {
    /// The position at `line` and `column`.
    pub fn new(line: usize, column: usize) -> (p: Self)
        ensures
            p.0 == line,
            p.1 == column,
    {
        Self(line, column)
    }
}

} // verus!
