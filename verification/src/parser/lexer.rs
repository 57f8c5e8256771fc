//! The tokenizer: from source text to tokens, one at a time.

use vstd::prelude::*;
use super::Position;
use super::chars::{
    chars_of, digit, is_digit, is_newline, is_number_part, is_sign, is_space, is_symbol_part,
    is_symbol_start, newline, number_part, sign, space, symbol_part, symbol_start,
};
use super::number::{decimal_syntax, integer_value, is_decimal, is_i32_literal, parse_i32};
use crate::errors::{Error, ErrorView, ReadError, ReadErrorView};

verus! {

/// The kind of a token, with the text or value that it carries.
#[derive(Debug, PartialEq)]
pub enum TType {
    LParen,
    RParen,
    Symbol(String),
    String(String),
    Integer(i32),
    Float(String),
}

/// A token and the position of its first character.
#[derive(Debug, PartialEq)]
pub struct Token {
    pub ttype: TType,
    pub line: usize,
    pub column: usize,
}

/// The mathematical value of a [`TType`].
pub enum TTypeView {
    LParen,
    RParen,
    Symbol(Seq<char>),
    String(Seq<char>),
    Integer(i32),
    Float(Seq<char>),
}

/// The mathematical value of a [`Token`].
pub struct TokenView {
    pub ttype: TTypeView,
    pub line: usize,
    pub column: usize,
}

impl View for TType {
    type V = TTypeView;

    open spec fn view(&self) -> TTypeView {
        match self {
            TType::LParen => TTypeView::LParen,
            TType::RParen => TTypeView::RParen,
            TType::Symbol(s) => TTypeView::Symbol(s@),
            TType::String(s) => TTypeView::String(s@),
            TType::Integer(i) => TTypeView::Integer(*i),
            TType::Float(s) => TTypeView::Float(s@),
        }
    }
}

impl View for Token {
    type V = TokenView;

    open spec fn view(&self) -> TokenView {
        TokenView { ttype: self.ttype@, line: self.line, column: self.column }
    }
}

/// What one step of the tokenizer yields: nothing at the end of the input, or
/// a token, or a failure.
pub type Lexed = Option<Result<TokenView, ErrorView>>;

/// The value of a token or failure.
pub open spec fn result_view(r: Result<Token, Error>) -> Result<TokenView, ErrorView> {
    match r {
        Ok(t) => Ok(t@),
        Err(e) => Err(e@),
    }
}

/// The value of what one step of the tokenizer yields.
pub open spec fn lexed_view(r: Option<Result<Token, Error>>) -> Lexed {
    match r {
        Some(x) => Some(result_view(x)),
        None => None,
    }
}

/// The line that the tokenizer is on after the first `n` characters of `src`:
/// one more than the line breaks among them.
pub open spec fn line_after(src: Seq<char>, n: int) -> int
    decreases n,
{
    if n <= 0 {
        1
    } else if newline(src[n - 1]) {
        line_after(src, n - 1) + 1
    } else {
        line_after(src, n - 1)
    }
}

/// The column that the tokenizer is on after the first `n` characters of
/// `src`: how many characters follow the last line break among them.
pub open spec fn column_after(src: Seq<char>, n: int) -> int
    decreases n,
{
    if n <= 0 {
        0
    } else if newline(src[n - 1]) {
        0
    } else {
        column_after(src, n - 1) + 1
    }
}

/// The line number `n` as the tokenizer keeps it: lines are counted up to
/// the largest number that a `usize` holds, and no further.
pub open spec fn line_number(n: int) -> usize {
    if n > usize::MAX {
        usize::MAX
    } else {
        n as usize
    }
}

/// The position that the tokenizer is at after the first `n` characters of
/// `src`. For `n > 0` it is the position of the character at index `n - 1`.
pub open spec fn spot(src: Seq<char>, n: int) -> Position {
    Position(line_number(line_after(src, n)), column_after(src, n) as usize)
}

/// The index of the first character at or after `i` that is no white space,
/// or the length of `src` if there is none.
pub open spec fn skip_spaces(src: Seq<char>, i: int) -> int
    decreases src.len() - i,
{
    if 0 <= i < src.len() && space(src[i]) {
        skip_spaces(src, i + 1)
    } else {
        i
    }
}

/// The index of the first character at or after `i` that cannot continue a
/// symbol, or the length of `src` if there is none.
pub open spec fn symbol_end(src: Seq<char>, i: int) -> int
    decreases src.len() - i,
{
    if 0 <= i < src.len() && symbol_part(src[i]) {
        symbol_end(src, i + 1)
    } else {
        i
    }
}

/// The index of the first character at or after `i` that cannot continue a
/// number, or the length of `src` if there is none.
pub open spec fn number_end(src: Seq<char>, i: int) -> int
    decreases src.len() - i,
{
    if 0 <= i < src.len() && number_part(src[i]) {
        number_end(src, i + 1)
    } else {
        i
    }
}

/// The index of the first double quote at or after `i` that no backslash
/// escapes, or the length of `src` if there is none. A backslash escapes the
/// character after it, whatever that is.
pub open spec fn string_end(src: Seq<char>, i: int) -> int
    decreases src.len() - i,
{
    if 0 <= i < src.len() {
        if src[i] == '"' {
            i
        } else if src[i] == '\\' {
            if i + 1 < src.len() {
                string_end(src, i + 2)
            } else {
                src.len() as int
            }
        } else {
            string_end(src, i + 1)
        }
    } else {
        src.len() as int
    }
}

/// Whether a number begins at index `j` of `src`: with a digit, or with a
/// sign that a digit follows.
pub open spec fn starts_number(src: Seq<char>, j: int) -> bool {
    0 <= j < src.len() && (digit(src[j]) || (sign(src[j]) && j + 1 < src.len() && digit(
        src[j + 1],
    )))
}

/// The token that the text of a number makes at position `p`: an integer
/// where the text is an integer literal that 32 bits hold, else a float
/// where it is a decimal literal, else a failure that carries the text.
pub open spec fn number_token(text: Seq<char>, p: Position) -> Result<TokenView, ErrorView> {
    if is_i32_literal(text) {
        Ok(
            TokenView {
                ttype: TTypeView::Integer(integer_value(text) as i32),
                line: p.0,
                column: p.1,
            },
        )
    } else if decimal_syntax(text) {
        Ok(TokenView { ttype: TTypeView::Float(text), line: p.0, column: p.1 })
    } else {
        Err(ErrorView::ReadError(ReadErrorView::IncorrectNumber(text, p)))
    }
}

/// The string whose opening quote is the character before index `i`, and
/// the index after it. The text runs to the closing quote; where the input
/// ends first, the string is unclosed and the whole input is used up.
pub open spec fn string_scan(src: Seq<char>, i: int) -> (Result<TokenView, ErrorView>, int) {
    let p = spot(src, i);
    let e = string_end(src, i);
    if e < src.len() {
        (
            Ok(TokenView { ttype: TTypeView::String(src.subrange(i, e)), line: p.0, column: p.1 }),
            e + 1,
        )
    } else {
        (Err(ErrorView::ReadError(ReadErrorView::UnclosedString(p))), src.len() as int)
    }
}

/// The symbol whose first character is the one before index `i`, and the
/// index after it. The text runs while characters can continue a symbol.
pub open spec fn symbol_scan(src: Seq<char>, i: int) -> (Result<TokenView, ErrorView>, int) {
    let p = spot(src, i);
    let e = symbol_end(src, i);
    (Ok(TokenView { ttype: TTypeView::Symbol(src.subrange(i - 1, e)), line: p.0, column: p.1 }), e)
}

/// The number whose first character is the one before index `i`, and the
/// index after it. The text runs while characters can continue a number.
pub open spec fn number_scan(src: Seq<char>, i: int) -> (Result<TokenView, ErrorView>, int) {
    let e = number_end(src, i);
    (number_token(src.subrange(i - 1, e), spot(src, i)), e)
}

/// The token that begins with the character at index `j` of `src`, and the
/// index after it.
pub open spec fn token_from(src: Seq<char>, j: int) -> (Result<TokenView, ErrorView>, int)
    recommends
        0 <= j < src.len(),
{
    let c = src[j];
    let p = spot(src, j + 1);
    if c == '(' {
        (Ok(TokenView { ttype: TTypeView::LParen, line: p.0, column: p.1 }), j + 1)
    } else if c == ')' {
        (Ok(TokenView { ttype: TTypeView::RParen, line: p.0, column: p.1 }), j + 1)
    } else if c == '"' {
        string_scan(src, j + 1)
    } else if starts_number(src, j) {
        number_scan(src, j + 1)
    } else if symbol_start(c) {
        symbol_scan(src, j + 1)
    } else {
        (Err(ErrorView::ReadError(ReadErrorView::UnexpectedChar(c, p))), j + 1)
    }
}

/// What the tokenizer yields from index `i` of `src`, and the index that it
/// stops at: white space is passed over; at the end of the input there is
/// nothing more; else the next character decides the token.
pub open spec fn token_at(src: Seq<char>, i: int) -> (Lexed, int) {
    let j = skip_spaces(src, i);
    if 0 <= j < src.len() {
        (Some(token_from(src, j).0), token_from(src, j).1)
    } else {
        (None, j)
    }
}

/// Line and column stay within the number of characters passed.
pub proof fn lemma_spot_bounds(src: Seq<char>, n: int)
    requires
        0 <= n,
    ensures
        1 <= line_after(src, n) <= n + 1,
        0 <= column_after(src, n) <= n,
    decreases n,
{
    if n > 0 {
        lemma_spot_bounds(src, n - 1);
    }
}

/// Passing over white space ends within the input, on a character that is
/// no white space, and everything passed is white space.
pub proof fn lemma_skip_spaces(src: Seq<char>, i: int)
    requires
        0 <= i <= src.len(),
    ensures
        i <= skip_spaces(src, i) <= src.len(),
        skip_spaces(src, i) < src.len() ==> !space(src[skip_spaces(src, i)]),
        forall|k: int| i <= k < skip_spaces(src, i) ==> space(#[trigger] src[k]),
    decreases src.len() - i,
{
    if i < src.len() && space(src[i]) {
        lemma_skip_spaces(src, i + 1);
    }
}

/// A symbol ends within the input, on a character that cannot continue it.
pub proof fn lemma_symbol_end(src: Seq<char>, i: int)
    requires
        0 <= i <= src.len(),
    ensures
        i <= symbol_end(src, i) <= src.len(),
        symbol_end(src, i) < src.len() ==> !symbol_part(src[symbol_end(src, i)]),
        forall|k: int| i <= k < symbol_end(src, i) ==> symbol_part(#[trigger] src[k]),
    decreases src.len() - i,
{
    if i < src.len() && symbol_part(src[i]) {
        lemma_symbol_end(src, i + 1);
    }
}

/// A number ends within the input, on a character that cannot continue it.
pub proof fn lemma_number_end(src: Seq<char>, i: int)
    requires
        0 <= i <= src.len(),
    ensures
        i <= number_end(src, i) <= src.len(),
        number_end(src, i) < src.len() ==> !number_part(src[number_end(src, i)]),
        forall|k: int| i <= k < number_end(src, i) ==> number_part(#[trigger] src[k]),
    decreases src.len() - i,
{
    if i < src.len() && number_part(src[i]) {
        lemma_number_end(src, i + 1);
    }
}

/// A string ends within the input; where it ends before the end of the
/// input, it ends on a double quote.
pub proof fn lemma_string_end(src: Seq<char>, i: int)
    requires
        0 <= i <= src.len(),
    ensures
        i <= string_end(src, i) <= src.len(),
        string_end(src, i) < src.len() ==> src[string_end(src, i)] == '"',
    decreases src.len() - i,
{
    if i < src.len() {
        if src[i] == '"' {
        } else if src[i] == '\\' {
            if i + 1 < src.len() {
                lemma_string_end(src, i + 2);
            }
        } else {
            lemma_string_end(src, i + 1);
        }
    }
}

/// A step of the tokenizer from within the input stops within the input,
/// and a step that yields a token or a failure has used up a character at
/// least.
pub proof fn lemma_token_at_progress(src: Seq<char>, i: int)
    requires
        0 <= i <= src.len(),
    ensures
        i <= token_at(src, i).1 <= src.len(),
        token_at(src, i).0 is Some ==> i < token_at(src, i).1,
        token_at(src, i).0 is None ==> token_at(src, i).1 == src.len(),
{
    lemma_skip_spaces(src, i);
    let j = skip_spaces(src, i);
    if j < src.len() {
        lemma_string_end(src, j + 1);
        lemma_number_end(src, j + 1);
        lemma_symbol_end(src, j + 1);
    }
}

/// Where the tokenizer stands: how many characters are used up, and the
/// line and column reached.
#[derive(Debug, Clone, Copy)]
struct Cursor {
    curr: usize,
    line: usize,
    column: usize,
}

/// The tokenizer: the source text and a cursor in it.
///
/// The cursor is always within the source, and line and column are always
/// those of the cursor.
#[derive(Debug)]
pub struct Lexer<'src> {
    input_as_chars: Vec<char>,
    input_as_str: &'src str,
    cursor: Cursor,
    start: usize,
    mark: Position,
}

impl<'src> Lexer<'src> {
    /// The cursor is within the source, and line and column are those of
    /// the cursor.
    #[verifier::type_invariant]
    spec fn sound(&self) -> bool {
        &&& self.input_as_chars@ == self.input_as_str@
        &&& self.cursor.curr <= self.input_as_chars.len()
        &&& self.cursor.line == line_number(
            line_after(self.input_as_chars@, self.cursor.curr as int),
        )
        &&& self.cursor.column == column_after(self.input_as_chars@, self.cursor.curr as int)
    }

    /// The source text.
    pub closed spec fn source(&self) -> Seq<char> {
        self.input_as_chars@
    }

    /// The cursor: how many characters of the source are used up.
    pub closed spec fn offset(&self) -> int {
        self.cursor.curr as int
    }

    /// The position of the first character of the token read last.
    pub closed spec fn marked(&self) -> Position {
        self.mark
    }

    /// A tokenizer at the start of `input`.
    pub fn new(input: &'src str) -> (lexer: Self)
        ensures
            lexer.source() == input@,
            lexer.offset() == 0,
            lexer.marked() == Position(1, 0),
    {
        Self {
            input_as_chars: chars_of(input),
            input_as_str: input,
            cursor: Cursor { curr: 0, line: 1, column: 0 },
            start: 0,
            mark: Position(1, 0),
        }
    }

    /// Uses up the character at the cursor.
    fn bump(&mut self)
        requires
            old(self).offset() < old(self).source().len(),
        ensures
            final(self).source() == old(self).source(),
            final(self).offset() == old(self).offset() + 1,
            final(self).start == old(self).start,
            final(self).mark == old(self).mark,
            final(self).cursor.line == spot(final(self).source(), final(self).offset()).0,
            final(self).cursor.column == spot(final(self).source(), final(self).offset()).1,
    {
        proof {
            use_type_invariant(&*self);
            lemma_spot_bounds(self.input_as_chars@, self.cursor.curr as int);
        }
        let Cursor { curr, line, column } = self.cursor;
        let c = self.input_as_chars[curr];
        if is_newline(c) {
            let next = if line < usize::MAX {
                line + 1
            } else {
                line
            };
            self.cursor = Cursor { curr: curr + 1, line: next, column: 0 };
        } else {
            self.cursor = Cursor { curr: curr + 1, line, column: column + 1 };
        }
    }

    /// The text of the source from index `from` up to index `to`.
    fn text(&self, from: usize, to: usize) -> (s: String)
        requires
            from <= to <= self.source().len(),
        ensures
            s@ == self.source().subrange(from as int, to as int),
    {
        proof {
            use_type_invariant(self);
        }
        String::from_str(self.input_as_str.substring_char(from, to))
    }

    /// Marks the position of the cursor as that of the token read last.
    fn mark_here(&mut self)
        ensures
            final(self).source() == old(self).source(),
            final(self).offset() == old(self).offset(),
            final(self).start == old(self).offset(),
            final(self).marked() == spot(old(self).source(), old(self).offset()),
            0 <= final(self).offset() <= final(self).source().len(),
    {
        proof {
            use_type_invariant(&*self);
        }
        self.start = self.cursor.curr;
        self.mark = Position(self.cursor.line, self.cursor.column);
    }

    /// Passes over white space and uses up the character after it. The
    /// result is that character, or nothing where the input ends first.
    pub fn consume(&mut self) -> (c: Option<char>)
        ensures
            final(self).source() == old(self).source(),
            final(self).marked() == old(self).marked(),
            ({
                let src = old(self).source();
                let j = skip_spaces(src, old(self).offset());
                if j < src.len() {
                    c == Some(src[j]) && final(self).offset() == j + 1
                } else {
                    c is None && final(self).offset() == src.len()
                }
            }),
    {
        let ghost src = self.input_as_chars@;
        let ghost from = self.cursor.curr as int;
        proof {
            use_type_invariant(&*self);
        }
        while self.cursor.curr < self.input_as_chars.len() && is_space(
            self.input_as_chars[self.cursor.curr],
        )
            invariant
                self.input_as_chars@ == src,
                self.mark == old(self).mark,
                from <= self.cursor.curr <= src.len(),
                skip_spaces(src, self.cursor.curr as int) == skip_spaces(src, from),
            decreases self.input_as_chars.len() - self.cursor.curr,
        {
            self.bump();
        }
        if self.cursor.curr < self.input_as_chars.len() {
            let c = self.input_as_chars[self.cursor.curr];
            self.bump();
            Some(c)
        } else {
            None
        }
    }

    /// The character that the next token begins with, without using
    /// anything up: the first character at or after the cursor that is no
    /// white space. Where only white space is left there is none.
    pub fn peek_token_start(&self) -> (c: Option<char>)
        ensures
            0 <= self.offset() <= self.source().len(),
            c == if skip_spaces(self.source(), self.offset()) < self.source().len() {
                Some(self.source()[skip_spaces(self.source(), self.offset())])
            } else {
                None
            },
    {
        proof {
            use_type_invariant(self);
        }
        let mut i: usize = self.cursor.curr;
        while i < self.input_as_chars.len() && is_space(self.input_as_chars[i])
            invariant
                self.cursor.curr <= i <= self.input_as_chars.len(),
                skip_spaces(self.input_as_chars@, i as int) == skip_spaces(
                    self.input_as_chars@,
                    self.cursor.curr as int,
                ),
            decreases self.input_as_chars.len() - i,
        {
            i += 1;
        }
        if i < self.input_as_chars.len() {
            Some(self.input_as_chars[i])
        } else {
            None
        }
    }

    /// The character `k` places after the cursor, without using anything
    /// up: with `k` zero the character at the cursor. Beyond the end of the
    /// input there is none.
    pub fn peek(&self, k: usize) -> (c: Option<char>)
        ensures
            c == if self.offset() + k < self.source().len() {
                Some(self.source()[self.offset() + k])
            } else {
                None
            },
    {
        proof {
            use_type_invariant(self);
        }
        if k < self.input_as_chars.len() - self.cursor.curr {
            Some(self.input_as_chars[self.cursor.curr + k])
        } else {
            None
        }
    }

    /// The character that was used up last.
    pub fn previous_char(&self) -> (c: char)
        requires
            self.offset() > 0,
        ensures
            c == self.source()[self.offset() - 1],
    {
        proof {
            use_type_invariant(self);
        }
        self.input_as_chars[self.cursor.curr - 1]
    }

    /// Whether the whole input is used up.
    pub fn is_eof(&self) -> (b: bool)
        ensures
            b == (self.offset() >= self.source().len()),
            0 <= self.offset() <= self.source().len(),
    {
        proof {
            use_type_invariant(self);
        }
        self.cursor.curr >= self.input_as_chars.len()
    }

    /// A token of kind `ttype` at the position of the token read last.
    pub fn build_token(&self, ttype: TType) -> (t: Token)
        ensures
            t.ttype == ttype,
            t.line == self.marked().0,
            t.column == self.marked().1,
    {
        Token { ttype, line: self.mark.0, column: self.mark.1 }
    }

    /// Reads a string whose opening quote has just been used up: the text up
    /// to the next double quote that no backslash escapes, and that quote.
    /// Where the input ends first, the failure is `UnclosedString` at the
    /// position of the opening quote.
    pub fn string(&mut self) -> (r: Result<Token, Error>)
        ensures
            final(self).source() == old(self).source(),
            final(self).marked() == spot(old(self).source(), old(self).offset()),
            (result_view(r), final(self).offset()) == string_scan(
                old(self).source(),
                old(self).offset(),
            ),
    {
        let ghost src = self.input_as_chars@;
        self.mark_here();
        let len = self.input_as_chars.len();
        while self.cursor.curr < len && self.input_as_chars[self.cursor.curr] != '"'
            invariant
                self.input_as_chars@ == src,
                len == src.len(),
                self.start == old(self).cursor.curr,
                self.mark == spot(src, old(self).cursor.curr as int),
                self.start <= self.cursor.curr <= len,
                string_end(src, self.cursor.curr as int) == string_end(src, self.start as int),
            decreases len - self.cursor.curr,
        {
            if self.input_as_chars[self.cursor.curr] == '\\' {
                self.bump();
                if self.cursor.curr < len {
                    self.bump();
                }
            } else {
                self.bump();
            }
        }
        if self.cursor.curr >= len {
            return Err(Error::ReadError(ReadError::UnclosedString(self.mark)));
        }
        let raw = self.text(self.start, self.cursor.curr);
        self.bump();
        Ok(self.build_token(TType::String(raw)))
    }

    /// Reads a symbol whose first character has just been used up: that
    /// character and those after it that can continue a symbol.
    pub fn symbol(&mut self) -> (r: Result<Token, Error>)
        requires
            old(self).offset() > 0,
        ensures
            final(self).source() == old(self).source(),
            final(self).marked() == spot(old(self).source(), old(self).offset()),
            (result_view(r), final(self).offset()) == symbol_scan(
                old(self).source(),
                old(self).offset(),
            ),
    {
        let ghost src = self.input_as_chars@;
        self.mark_here();
        let len = self.input_as_chars.len();
        while self.cursor.curr < len && is_symbol_part(self.input_as_chars[self.cursor.curr])
            invariant
                self.input_as_chars@ == src,
                len == src.len(),
                self.start == old(self).cursor.curr,
                self.mark == spot(src, old(self).cursor.curr as int),
                0 < self.start <= self.cursor.curr <= len,
                symbol_end(src, self.cursor.curr as int) == symbol_end(src, self.start as int),
            decreases len - self.cursor.curr,
        {
            self.bump();
        }
        let raw = self.text(self.start - 1, self.cursor.curr);
        Ok(self.build_token(TType::Symbol(raw)))
    }

    /// Reads a number whose first character has just been used up: that
    /// character and the digits and decimal points after it. The text is an
    /// integer where it is an integer literal that 32 bits hold, else a float
    /// where it is a decimal literal; else the failure is `IncorrectNumber`
    /// with the text.
    pub fn number(&mut self) -> (r: Result<Token, Error>)
        requires
            old(self).offset() > 0,
        ensures
            final(self).source() == old(self).source(),
            final(self).marked() == spot(old(self).source(), old(self).offset()),
            (result_view(r), final(self).offset()) == number_scan(
                old(self).source(),
                old(self).offset(),
            ),
    {
        let ghost src = self.input_as_chars@;
        self.mark_here();
        let len = self.input_as_chars.len();
        while self.cursor.curr < len && is_number_part(self.input_as_chars[self.cursor.curr])
            invariant
                self.input_as_chars@ == src,
                len == src.len(),
                self.start == old(self).cursor.curr,
                self.mark == spot(src, old(self).cursor.curr as int),
                0 < self.start <= self.cursor.curr <= len,
                number_end(src, self.cursor.curr as int) == number_end(src, self.start as int),
            decreases len - self.cursor.curr,
        {
            self.bump();
        }
        match parse_i32(&self.input_as_chars, self.start - 1, self.cursor.curr) {
            Some(i) => Ok(self.build_token(TType::Integer(i))),
            None => {
                let raw = self.text(self.start - 1, self.cursor.curr);
                if is_decimal(&self.input_as_chars, self.start - 1, self.cursor.curr) {
                    Ok(self.build_token(TType::Float(raw)))
                } else {
                    Err(Error::ReadError(ReadError::IncorrectNumber(raw, self.mark)))
                }
            },
        }
    }

    /// The next token: white space is passed over, and the character after
    /// it decides what is read. At the end of the input the result is
    /// nothing. A character that begins no token is used up and reported, so
    /// that the next call goes on behind it.
    pub fn next(&mut self) -> (r: Option<Result<Token, Error>>)
        ensures
            final(self).source() == old(self).source(),
            (lexed_view(r), final(self).offset()) == token_at(
                old(self).source(),
                old(self).offset(),
            ),
            0 <= old(self).offset() <= final(self).offset() <= old(self).source().len(),
            r is Some ==> old(self).offset() < final(self).offset(),
            r is None ==> final(self).offset() == old(self).source().len(),
            final(self).marked() == if r is Some {
                spot(old(self).source(), skip_spaces(old(self).source(), old(self).offset()) + 1)
            } else {
                old(self).marked()
            },
    {
        proof {
            use_type_invariant(&*self);
            lemma_token_at_progress(self.input_as_chars@, self.cursor.curr as int);
            lemma_skip_spaces(self.input_as_chars@, self.cursor.curr as int);
        }
        let next_char = match self.consume() {
            Some(c) => c,
            None => {
                return None;
            },
        };
        self.mark_here();
        let here = self.mark;
        if next_char == '(' {
            Some(Ok(Token { ttype: TType::LParen, line: here.0, column: here.1 }))
        } else if next_char == ')' {
            Some(Ok(Token { ttype: TType::RParen, line: here.0, column: here.1 }))
        } else if next_char == '"' {
            Some(self.string())
        } else if is_digit(next_char) || (is_sign(next_char) && self.cursor.curr
            < self.input_as_chars.len() && is_digit(self.input_as_chars[self.cursor.curr])) {
            Some(self.number())
        } else if is_symbol_start(next_char) {
            Some(self.symbol())
        } else {
            Some(Err(Error::ReadError(ReadError::UnexpectedChar(next_char, here))))
        }
    }
}

} // verus!
