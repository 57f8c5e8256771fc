//! What can go wrong while reading and while evaluating.

use vstd::prelude::*;
use crate::parser::Position;
use crate::parser::parser::{SexpT, SexpTView};

verus! {

/// A failure of the tokenizer or of the reader.
#[derive(Debug, PartialEq)]
pub enum ReadError {
    /// A character that begins no token, and where it stands.
    UnexpectedChar(char, Position),
    /// A string that the input ends in, and where it opened.
    UnclosedString(Position),
    /// A run of digits and decimal points that writes no number, and where
    /// it began.
    IncorrectNumber(String, Position),
    /// A list that the input ends in, and where it opened.
    UnclosedParen(Position),
    /// A closing parenthesis that closes nothing, and where it stands.
    UnexpectedClosingParen(Position),
    /// The input held no further expression.
    UnexpectedEOF,
}

/// A failure of the evaluator.
#[derive(Debug, PartialEq)]
pub enum EvalError {
    /// A list whose head is no symbol, and the head's position.
    IllegalFunctionCall(Position),
    /// A form with the wrong number of operands: its name, how many were
    /// given, how many it takes, and its position.
    ArityMismatch(String, usize, usize, Position),
    /// A symbol that names nothing, and its position.
    UnboundSymbol(String, Position),
    /// A value of the wrong kind: the value, the kind that was asked for,
    /// and the value's position.
    TypeMismatch(SexpT, String, Position),
    /// A failure of the reader, handed on.
    ReadError(ReadError),
}

/// Any failure of the library.
#[derive(Debug, PartialEq)]
pub enum Error {
    ReadError(ReadError),
    EvalError(EvalError),
}

/// The mathematical value of a [`ReadError`].
pub enum ReadErrorView {
    UnexpectedChar(char, Position),
    UnclosedString(Position),
    IncorrectNumber(Seq<char>, Position),
    UnclosedParen(Position),
    UnexpectedClosingParen(Position),
    UnexpectedEOF,
}

/// The mathematical value of an [`EvalError`].
pub enum EvalErrorView {
    IllegalFunctionCall(Position),
    ArityMismatch(Seq<char>, usize, usize, Position),
    UnboundSymbol(Seq<char>, Position),
    TypeMismatch(SexpTView, Seq<char>, Position),
    ReadError(ReadErrorView),
}

/// The mathematical value of an [`Error`].
pub enum ErrorView {
    ReadError(ReadErrorView),
    EvalError(EvalErrorView),
}

impl View for ReadError {
    type V = ReadErrorView;

    open spec fn view(&self) -> ReadErrorView {
        match self {
            ReadError::UnexpectedChar(c, p) => ReadErrorView::UnexpectedChar(*c, *p),
            ReadError::UnclosedString(p) => ReadErrorView::UnclosedString(*p),
            ReadError::IncorrectNumber(s, p) => ReadErrorView::IncorrectNumber(s@, *p),
            ReadError::UnclosedParen(p) => ReadErrorView::UnclosedParen(*p),
            ReadError::UnexpectedClosingParen(p) => ReadErrorView::UnexpectedClosingParen(*p),
            ReadError::UnexpectedEOF => ReadErrorView::UnexpectedEOF,
        }
    }
}

impl View for EvalError {
    type V = EvalErrorView;

    open spec fn view(&self) -> EvalErrorView {
        match self {
            EvalError::IllegalFunctionCall(p) => EvalErrorView::IllegalFunctionCall(*p),
            EvalError::ArityMismatch(n, given, expected, p) => EvalErrorView::ArityMismatch(
                n@,
                *given,
                *expected,
                *p,
            ),
            EvalError::UnboundSymbol(n, p) => EvalErrorView::UnboundSymbol(n@, *p),
            EvalError::TypeMismatch(t, k, p) => EvalErrorView::TypeMismatch(t@, k@, *p),
            EvalError::ReadError(e) => EvalErrorView::ReadError(e@),
        }
    }
}

impl View for Error {
    type V = ErrorView;

    open spec fn view(&self) -> ErrorView {
        match self {
            Error::ReadError(e) => ErrorView::ReadError(e@),
            Error::EvalError(e) => ErrorView::EvalError(e@),
        }
    }
}

impl Clone for ReadError {
    /// A copy with the same value.
    fn clone(&self) -> (r: Self)
        ensures
            r@ == self@,
    {
        match self {
            ReadError::UnexpectedChar(c, p) => ReadError::UnexpectedChar(*c, *p),
            ReadError::UnclosedString(p) => ReadError::UnclosedString(*p),
            ReadError::IncorrectNumber(s, p) => ReadError::IncorrectNumber(s.clone(), *p),
            ReadError::UnclosedParen(p) => ReadError::UnclosedParen(*p),
            ReadError::UnexpectedClosingParen(p) => ReadError::UnexpectedClosingParen(*p),
            ReadError::UnexpectedEOF => ReadError::UnexpectedEOF,
        }
    }
}

impl Clone for EvalError {
    /// A copy with the same value.
    fn clone(&self) -> (r: Self)
        ensures
            r@ == self@,
    {
        match self {
            EvalError::IllegalFunctionCall(p) => EvalError::IllegalFunctionCall(*p),
            EvalError::ArityMismatch(n, given, expected, p) => EvalError::ArityMismatch(
                n.clone(),
                *given,
                *expected,
                *p,
            ),
            EvalError::UnboundSymbol(n, p) => EvalError::UnboundSymbol(n.clone(), *p),
            EvalError::TypeMismatch(t, k, p) => EvalError::TypeMismatch(t.clone(), k.clone(), *p),
            EvalError::ReadError(e) => EvalError::ReadError(e.clone()),
        }
    }
}

impl Clone for Error {
    /// A copy with the same value.
    fn clone(&self) -> (r: Self)
        ensures
            r@ == self@,
    {
        match self {
            Error::ReadError(e) => Error::ReadError(e.clone()),
            Error::EvalError(e) => Error::EvalError(e.clone()),
        }
    }
}

} // verus!
