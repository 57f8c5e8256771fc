//! Tokens from an outside scanner.
//!
//! A scanner outside this library cuts the source into pieces and says of
//! each what kind it is. This module decides what becomes of a piece: which
//! token it is, or which failure, and whether the stream of tokens goes on.

use core::ops::Range;
use vstd::prelude::*;
use crate::parser::chars::chars_of;
use crate::parser::number::{decimal_syntax, integer_value, is_decimal, is_i64_literal, parse_i64};
use crate::printer::{integer_text, push_integer};

verus! {

/// The upper-case form of `s`, as Unicode maps it.
pub uninterp spec fn uppercase(s: Seq<char>) -> Seq<char>;

/// `str::to_uppercase` of std gives the upper-case form of a string by the
/// Unicode mapping, which may change the number of characters. The mapping is
/// a table of the Unicode standard, so it is given a name here.
#[verifier::external_body]
fn to_upper(s: &str) -> (r: String)
    ensures
        r@ == uppercase(s@),
{
    s.to_uppercase()
}

/// The kind that the scanner gives to a piece of the source.
#[derive(Debug, Clone, Copy, PartialEq, Eq, Structural)]
pub enum TType {
    LParen,
    RParen,
    Quote,
    Unquote,
    Symbol,
    String,
    Int,
    Float,
    Error,
}

impl Default for TType {
    /// The kind of a piece that is no token.
    fn default() -> (t: Self)
        ensures
            t == TType::Error,
    {
        TType::Error
    }
}

/// A token with the text or value that it carries. A float carries its
/// literal as written.
#[derive(Debug, PartialEq)]
pub enum Token {
    LParen,
    RParen,
    Quote,
    Unquote,
    Symbol(String),
    String(String),
    Int(i64),
    Float(String),
}

/// A piece that gave no token: where it stands in the source, and for a
/// piece of no kind its text.
#[derive(Debug, PartialEq)]
pub enum Error {
    InvalidChar(Range<usize>, String),
    IntParsingError(Range<usize>),
    FloatParsingError(Range<usize>),
}

/// The mathematical value of a [`Token`].
pub enum TokenView {
    LParen,
    RParen,
    Quote,
    Unquote,
    Symbol(Seq<char>),
    String(Seq<char>),
    Int(i64),
    Float(Seq<char>),
}

/// The mathematical value of an [`Error`].
pub enum ErrorView {
    InvalidChar(Range<usize>, Seq<char>),
    IntParsingError(Range<usize>),
    FloatParsingError(Range<usize>),
}

impl View for Token {
    type V = TokenView;

    open spec fn view(&self) -> TokenView {
        match self {
            Token::LParen => TokenView::LParen,
            Token::RParen => TokenView::RParen,
            Token::Quote => TokenView::Quote,
            Token::Unquote => TokenView::Unquote,
            Token::Symbol(s) => TokenView::Symbol(s@),
            Token::String(s) => TokenView::String(s@),
            Token::Int(i) => TokenView::Int(*i),
            Token::Float(s) => TokenView::Float(s@),
        }
    }
}

impl View for Error {
    type V = ErrorView;

    open spec fn view(&self) -> ErrorView {
        match self {
            Error::InvalidChar(span, s) => ErrorView::InvalidChar(*span, s@),
            Error::IntParsingError(span) => ErrorView::IntParsingError(*span),
            Error::FloatParsingError(span) => ErrorView::FloatParsingError(*span),
        }
    }
}

impl Clone for Token {
    /// A copy with the same value.
    fn clone(&self) -> (r: Self)
        ensures
            r@ == self@,
    {
        match self {
            Token::LParen => Token::LParen,
            Token::RParen => Token::RParen,
            Token::Quote => Token::Quote,
            Token::Unquote => Token::Unquote,
            Token::Symbol(s) => Token::Symbol(s.clone()),
            Token::String(s) => Token::String(s.clone()),
            Token::Int(i) => Token::Int(*i),
            Token::Float(s) => Token::Float(s.clone()),
        }
    }
}

/// The value of a token or failure.
pub open spec fn result_view(r: Result<Token, Error>) -> Result<TokenView, ErrorView> {
    match r {
        Ok(t) => Ok(t@),
        Err(e) => Err(e@),
    }
}

/// The values of the failures `v`, in order.
pub open spec fn errors_view(v: Seq<Error>) -> Seq<ErrorView> {
    Seq::new(v.len(), |i: int| v[i]@)
}

/// What a piece of kind `ttype` with the text `slice` at `span` becomes.
///
/// A parenthesis or a quote mark is its token. A symbol and a string carry
/// the text. An integer carries the value of the text where the text is an
/// integer literal that 64 bits hold, and is an `IntParsingError` at `span`
/// where it is not. A float carries the text where the text is a decimal
/// literal, and is a `FloatParsingError` at `span` where it is not. A piece
/// of no kind is an `InvalidChar` with `span` and the text.
pub open spec fn token_of(ttype: TType, span: Range<usize>, slice: Seq<char>) -> Result<
    TokenView,
    ErrorView,
> {
    match ttype {
        TType::Error => Err(ErrorView::InvalidChar(span, slice)),
        TType::LParen => Ok(TokenView::LParen),
        TType::RParen => Ok(TokenView::RParen),
        TType::Quote => Ok(TokenView::Quote),
        TType::Unquote => Ok(TokenView::Unquote),
        TType::Symbol => Ok(TokenView::Symbol(slice)),
        TType::String => Ok(TokenView::String(slice)),
        TType::Int => if is_i64_literal(slice) {
            Ok(TokenView::Int(integer_value(slice) as i64))
        } else {
            Err(ErrorView::IntParsingError(span))
        },
        TType::Float => if decimal_syntax(slice) {
            Ok(TokenView::Float(slice))
        } else {
            Err(ErrorView::FloatParsingError(span))
        },
    }
}

/// What the scanner hands over for one piece of the source: the kind, as a
/// token's or as a failure's, where the piece stands, and its text.
#[derive(Debug, PartialEq)]
pub struct Scanned {
    pub kind: Result<TType, TType>,
    pub span: Range<usize>,
    pub slice: String,
}

/// What the stream of tokens does after a piece.
#[derive(Debug, PartialEq)]
pub enum Step {
    /// The stream gives this token, or ends where there is none.
    Yield(Option<Token>),
    /// The stream gives nothing yet: the next piece is to be scanned.
    Again,
}

/// The value of what the stream gives.
pub open spec fn yield_view(t: Option<Token>) -> Option<TokenView> {
    match t {
        Some(t) => Some(t@),
        None => None,
    }
}

/// What the stream of tokens does after `scanned`, with `errors` recorded so
/// far: the step, and the failures recorded after it.
///
/// Without a piece the stream ends. A piece that the scanner took for a
/// token gives that token, and ends the stream where it is no token after
/// all. A piece that the scanner took for a failure is recorded where it is
/// one, and the stream scans on.
pub open spec fn step_of(
    scanned: Option<(Result<TType, TType>, Range<usize>, Seq<char>)>,
    errors: Seq<ErrorView>,
) -> (Option<Option<TokenView>>, Seq<ErrorView>) {
    match scanned {
        None => (Some(None), errors),
        Some((Ok(kind), span, slice)) => match token_of(kind, span, slice) {
            Ok(t) => (Some(Some(t)), errors),
            Err(_) => (Some(None), errors),
        },
        Some((Err(kind), span, slice)) => match token_of(kind, span, slice) {
            Ok(_) => (None, errors),
            Err(e) => (None, errors.push(e)),
        },
    }
}

/// The value of a piece.
pub open spec fn scanned_view(s: Option<Scanned>) -> Option<
    (Result<TType, TType>, Range<usize>, Seq<char>),
> {
    match s {
        Some(s) => Some((s.kind, s.span, s.slice@)),
        None => None,
    }
}

/// The value of a step.
pub open spec fn step_view(s: Step) -> Option<Option<TokenView>> {
    match s {
        Step::Yield(t) => Some(yield_view(t)),
        Step::Again => None,
    }
}

/// The token stream's own state: the failures recorded so far.
#[derive(Debug)]
pub struct Lexer {
    pub errors: Vec<Error>,
}

impl Lexer {
    /// A token stream with no failure recorded.
    pub fn new() -> (lexer: Self)
        ensures
            lexer.errors@.len() == 0,
    {
        Self { errors: Vec::new() }
    }

    /// What a piece of kind `ttype` with the text `slice` at `span` becomes:
    /// its token, or the failure that it is.
    pub fn to_token(&self, ttype: TType, span: Range<usize>, slice: &str) -> (r: Result<
        Token,
        Error,
    >)
        ensures
            result_view(r) == token_of(ttype, span, slice@),
    {
        match ttype {
            TType::Error => Err(Error::InvalidChar(span, String::from_str(slice))),
            TType::LParen => Ok(Token::LParen),
            TType::RParen => Ok(Token::RParen),
            TType::Quote => Ok(Token::Quote),
            TType::Unquote => Ok(Token::Unquote),
            TType::Symbol => Ok(Token::Symbol(String::from_str(slice))),
            TType::String => Ok(Token::String(String::from_str(slice))),
            TType::Int => {
                let text = chars_of(slice);
                assert(text@.subrange(0, text@.len() as int) =~= slice@);
                match parse_i64(&text, 0, text.len()) {
                    Some(i) => Ok(Token::Int(i)),
                    None => Err(Error::IntParsingError(span)),
                }
            },
            TType::Float => {
                let text = chars_of(slice);
                assert(text@.subrange(0, text@.len() as int) =~= slice@);
                if is_decimal(&text, 0, text.len()) {
                    Ok(Token::Float(String::from_str(slice)))
                } else {
                    Err(Error::FloatParsingError(span))
                }
            },
        }
    }

    /// What the stream of tokens does after `scanned`, the next piece from
    /// the scanner or nothing at the end of the source. A failure that goes
    /// on record is added to `errors`.
    pub fn step(&mut self, scanned: Option<Scanned>) -> (s: Step)
        ensures
            (step_view(s), errors_view(final(self).errors@)) == step_of(
                scanned_view(scanned),
                errors_view(old(self).errors@),
            ),
    {
        match scanned {
            None => Step::Yield(None),
            Some(Scanned { kind: Ok(kind), span, slice }) => match self.to_token(
                kind,
                span,
                slice.as_str(),
            ) {
                Ok(t) => Step::Yield(Some(t)),
                Err(_) => Step::Yield(None),
            },
            Some(Scanned { kind: Err(kind), span, slice }) => {
                if let Err(e) = self.to_token(kind, span, slice.as_str()) {
                    let ghost before = self.errors@;
                    self.errors.push(e);
                    assert(errors_view(self.errors@) =~= errors_view(before).push(e@));
                }
                Step::Again
            },
        }
    }
}

/// The text that stands for a token: a parenthesis or a quote mark as
/// written, a symbol and a string in upper case, an integer after the
/// letter `i`, a float after the letter `f`.
pub open spec fn token_text(t: TokenView) -> Seq<char> {
    match t {
        TokenView::LParen => "("@,
        TokenView::RParen => ")"@,
        TokenView::Quote => "'"@,
        TokenView::Unquote => ","@,
        TokenView::Symbol(s) => uppercase(s),
        TokenView::String(s) => uppercase(s),
        TokenView::Int(i) => "i"@ + integer_text(i as int),
        TokenView::Float(s) => "f"@ + s,
    }
}

impl Token {
    /// The text that stands for the token.
    pub fn to_string(&self) -> (s: String)
        ensures
            s@ == token_text(self@),
    {
        match self {
            Token::LParen => String::from_str("("),
            Token::RParen => String::from_str(")"),
            Token::Quote => String::from_str("'"),
            Token::Unquote => String::from_str(","),
            Token::Symbol(s) => to_upper(s.as_str()),
            Token::String(s) => to_upper(s.as_str()),
            Token::Int(i) => {
                let mut out = String::from_str("i");
                push_integer(&mut out, *i);
                out
            },
            Token::Float(s) => {
                let mut out = String::from_str("f");
                out.append(s.as_str());
                out
            },
        }
    }
}

} // verus!
