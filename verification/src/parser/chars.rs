//! Character classes of the source text.

use vstd::prelude::*;

verus! {

/// Whether `c` has the Unicode property Alphabetic.
pub uninterp spec fn alphabetic(c: char) -> bool;

/// `char::is_alphabetic` of std decides the Unicode property Alphabetic of
/// its argument. The property is a table of the Unicode standard, so it is
/// given a name here and not written out.
pub assume_specification[ char::is_alphabetic ](c: char) -> (b: bool)
    ensures
        b == alphabetic(c),
;

/// A line break: line feed or carriage return.
pub open spec fn newline(c: char) -> bool {
    c == '\n' || c == '\r'
}

/// White space: the characters with the Unicode property White_Space.
pub open spec fn space(c: char) -> bool {
    let u = c as u32;
    ||| 0x09 <= u <= 0x0d
    ||| u == 0x20
    ||| u == 0x85
    ||| u == 0xa0
    ||| u == 0x1680
    ||| 0x2000 <= u <= 0x200a
    ||| u == 0x2028
    ||| u == 0x2029
    ||| u == 0x202f
    ||| u == 0x205f
    ||| u == 0x3000
}

/// A decimal digit, `0` to `9`.
pub open spec fn digit(c: char) -> bool {
    '0' <= c <= '9'
}

/// A sign, `+` or `-`.
pub open spec fn sign(c: char) -> bool {
    c == '+' || c == '-'
}

/// An ASCII letter or digit.
pub open spec fn ascii_alphanumeric(c: char) -> bool {
    ||| 'a' <= c <= 'z'
    ||| 'A' <= c <= 'Z'
    ||| '0' <= c <= '9'
}

/// One of the punctuation characters that may stand in a symbol.
pub open spec fn symbol_punctuation(c: char) -> bool {
    c == '-' || c == '+' || c == '*' || c == '|' || c == '~'
}

/// A character that may begin a symbol.
pub open spec fn symbol_start(c: char) -> bool {
    alphabetic(c) || symbol_punctuation(c)
}

/// A character that may continue a symbol.
pub open spec fn symbol_part(c: char) -> bool {
    ascii_alphanumeric(c) || symbol_punctuation(c)
}

/// A character that may continue a number: a digit or the decimal point.
pub open spec fn number_part(c: char) -> bool {
    digit(c) || c == '.'
}

/// The characters of `s`, in order.
pub fn chars_of(s: &str) -> (v: Vec<char>)
    ensures
        v@ == s@,
{
    let mut v: Vec<char> = Vec::new();
    for c in it: s.chars()
        invariant
            v@ == it.seq().take(it.index() as int),
    {
        v.push(c);
    }
    assert(v@ == s@);
    v
}

pub fn is_newline(c: char) -> (b: bool)
    ensures
        b == newline(c),
{
    c == '\n' || c == '\r'
}

pub fn is_space(c: char) -> (b: bool)
    ensures
        b == space(c),
{
    let u: u32 = c as u32;
    (0x09 <= u && u <= 0x0d) || u == 0x20 || u == 0x85 || u == 0xa0 || u == 0x1680 || (0x2000 <= u
        && u <= 0x200a) || u == 0x2028 || u == 0x2029 || u == 0x202f || u == 0x205f || u == 0x3000
}

pub fn is_digit(c: char) -> (b: bool)
    ensures
        b == digit(c),
{
    '0' <= c && c <= '9'
}

pub fn is_sign(c: char) -> (b: bool)
    ensures
        b == sign(c),
{
    c == '+' || c == '-'
}

pub fn is_symbol_punctuation(c: char) -> (b: bool)
    ensures
        b == symbol_punctuation(c),
{
    c == '-' || c == '+' || c == '*' || c == '|' || c == '~'
}

pub fn is_symbol_start(c: char) -> (b: bool)
    ensures
        b == symbol_start(c),
{
    c.is_alphabetic() || is_symbol_punctuation(c)
}

pub fn is_symbol_part(c: char) -> (b: bool)
    ensures
        b == symbol_part(c),
{
    ('a' <= c && c <= 'z') || ('A' <= c && c <= 'Z') || ('0' <= c && c <= '9')
        || is_symbol_punctuation(c)
}

pub fn is_number_part(c: char) -> (b: bool)
    ensures
        b == number_part(c),
{
    is_digit(c) || c == '.'
}

} // verus!
