//! Numeric literals: which texts are numbers, and the value of an integer.

use vstd::prelude::*;
use super::chars::{digit, sign, is_digit};

verus! {

/// The value of the digit `c`.
pub open spec fn digit_value(c: char) -> int {
    c as int - '0' as int
}

/// Whether every character of `s` is a decimal digit.
pub open spec fn all_digits(s: Seq<char>) -> bool {
    forall|i: int| 0 <= i < s.len() ==> digit(#[trigger] s[i])
}

/// The number that the digits of `s` write in base ten.
pub open spec fn digits_value(s: Seq<char>) -> int
    decreases s.len(),
{
    if s.len() == 0 {
        0
    } else {
        digits_value(s.drop_last()) * 10 + digit_value(s.last())
    }
}

/// How many decimal digits `s` holds.
pub open spec fn digit_count(s: Seq<char>) -> nat
    decreases s.len(),
{
    if s.len() == 0 {
        0
    } else {
        digit_count(s.drop_last()) + if digit(s.last()) { 1nat } else { 0nat }
    }
}

/// How many decimal points `s` holds.
pub open spec fn point_count(s: Seq<char>) -> nat
    decreases s.len(),
{
    if s.len() == 0 {
        0
    } else {
        point_count(s.drop_last()) + if s.last() == '.' { 1nat } else { 0nat }
    }
}

/// Whether `s` begins with a sign.
pub open spec fn signed(s: Seq<char>) -> bool {
    s.len() > 0 && sign(s[0])
}

/// `s` without its leading sign, if it has one.
pub open spec fn magnitude(s: Seq<char>) -> Seq<char> {
    if signed(s) {
        s.subrange(1, s.len() as int)
    } else {
        s
    }
}

/// An integer literal: an optional sign, then one digit or more.
pub open spec fn integer_syntax(s: Seq<char>) -> bool {
    magnitude(s).len() > 0 && all_digits(magnitude(s))
}

/// The value of the integer literal `s`.
pub open spec fn integer_value(s: Seq<char>) -> int {
    if s.len() > 0 && s[0] == '-' {
        -digits_value(magnitude(s))
    } else {
        digits_value(magnitude(s))
    }
}

/// An integer literal whose value a signed 32-bit integer holds.
pub open spec fn is_i32_literal(s: Seq<char>) -> bool {
    integer_syntax(s) && i32::MIN <= integer_value(s) <= i32::MAX
}

/// An integer literal whose value a signed 64-bit integer holds.
pub open spec fn is_i64_literal(s: Seq<char>) -> bool {
    integer_syntax(s) && i64::MIN <= integer_value(s) <= i64::MAX
}

/// A decimal literal: an optional sign, then digits with at most one decimal
/// point among them, and one digit at least.
pub open spec fn decimal_syntax(s: Seq<char>) -> bool {
    let m = magnitude(s);
    &&& digit_count(m) + point_count(m) == m.len()
    &&& point_count(m) <= 1
    &&& digit_count(m) >= 1
}

/// A longer run of digits writes a number that is no smaller.
pub proof fn lemma_digits_value_prefix(s: Seq<char>, k: int)
    requires
        all_digits(s),
        0 <= k <= s.len(),
    ensures
        0 <= digits_value(s.take(k)) <= digits_value(s),
    decreases s.len() - k,
{
    lemma_digits_value_nonnegative(s.take(k));
    if k == s.len() {
        assert(s.take(k) =~= s);
    } else {
        lemma_digits_value_prefix(s, k + 1);
        assert(s.take(k + 1).drop_last() =~= s.take(k));
        assert(digit(s[k]));
    }
}

/// A run of digits writes a number that is not negative.
pub proof fn lemma_digits_value_nonnegative(s: Seq<char>)
    requires
        all_digits(s),
    ensures
        0 <= digits_value(s),
    decreases s.len(),
{
    if s.len() > 0 {
        lemma_digits_value_nonnegative(s.drop_last());
        assert(digit(s[s.len() - 1]));
    }
}

/// Reads the digits of `text` between `from` and `to` as a number in base
/// ten. The result is the number, if the range is not empty, holds digits
/// only and writes no more than `limit`.
pub fn parse_digits(text: &Vec<char>, from: usize, to: usize, limit: u64) -> (r: Option<u64>)
    requires
        from <= to <= text.len(),
    ensures
        ({
            let s = text@.subrange(from as int, to as int);
            match r {
                Some(v) => s.len() > 0 && all_digits(s) && v == digits_value(s) && v <= limit,
                None => !(s.len() > 0 && all_digits(s) && digits_value(s) <= limit),
            }
        }),
{
    let ghost s = text@.subrange(from as int, to as int);
    if from == to {
        return None;
    }
    let mut acc: u128 = 0;
    let mut i: usize = from;
    while i < to
        invariant
            from <= i <= to <= text.len(),
            s == text@.subrange(from as int, to as int),
            all_digits(s.take(i - from)),
            acc == digits_value(s.take(i - from)),
            acc <= limit,
        decreases to - i,
    {
        let c = text[i];
        let ghost k = i - from;
        proof {
            assert(s[k] == c);
            assert(s.take(k + 1).drop_last() =~= s.take(k));
        }
        if !is_digit(c) {
            return None;
        }
        let d: u128 = (c as u32 - '0' as u32) as u128;
        acc = acc * 10 + d;
        proof {
            assert(acc == digits_value(s.take(k + 1)));
            assert forall|j: int| 0 <= j < s.take(k + 1).len() implies digit(
                #[trigger] s.take(k + 1)[j],
            ) by {
                if j < k {
                    assert(s.take(k)[j] == s.take(k + 1)[j]);
                }
            }
        }
        if acc > limit as u128 {
            proof {
                if all_digits(s) {
                    lemma_digits_value_prefix(s, k + 1);
                }
            }
            return None;
        }
        i += 1;
    }
    proof {
        assert(s.take(to - from) =~= s);
    }
    Some(acc as u64)
}

/// Reads `text` between `from` and `to` as a signed 64-bit integer: an
/// optional sign, then digits. The result is the value, if the range holds
/// an integer literal that fits.
pub fn parse_i64(text: &Vec<char>, from: usize, to: usize) -> (r: Option<i64>)
    requires
        from <= to <= text.len(),
    ensures
        ({
            let s = text@.subrange(from as int, to as int);
            match r {
                Some(v) => is_i64_literal(s) && v == integer_value(s),
                None => !is_i64_literal(s),
            }
        }),
{
    let ghost s = text@.subrange(from as int, to as int);
    if from == to {
        return None;
    }
    let first = text[from];
    proof {
        assert(s[0] == first);
    }
    if first == '-' {
        proof {
            assert(magnitude(s) =~= text@.subrange(from + 1, to as int));
        }
        match parse_digits(text, from + 1, to, 0x8000_0000_0000_0000u64) {
            Some(v) => {
                if v == 0x8000_0000_0000_0000u64 {
                    Some(i64::MIN)
                } else {
                    Some(-(v as i64))
                }
            },
            None => None,
        }
    } else if first == '+' {
        proof {
            assert(magnitude(s) =~= text@.subrange(from + 1, to as int));
        }
        match parse_digits(text, from + 1, to, 0x7fff_ffff_ffff_ffffu64) {
            Some(v) => Some(v as i64),
            None => None,
        }
    } else {
        proof {
            assert(magnitude(s) =~= s);
        }
        match parse_digits(text, from, to, 0x7fff_ffff_ffff_ffffu64) {
            Some(v) => Some(v as i64),
            None => None,
        }
    }
}

/// Reads `text` between `from` and `to` as a signed 32-bit integer: an
/// optional sign, then digits. The result is the value, if the range holds
/// an integer literal that fits.
pub fn parse_i32(text: &Vec<char>, from: usize, to: usize) -> (r: Option<i32>)
    requires
        from <= to <= text.len(),
    ensures
        ({
            let s = text@.subrange(from as int, to as int);
            match r {
                Some(v) => is_i32_literal(s) && v == integer_value(s),
                None => !is_i32_literal(s),
            }
        }),
{
    match parse_i64(text, from, to) {
        Some(v) => {
            if -0x8000_0000i64 <= v && v <= 0x7fff_ffffi64 {
                Some(v as i32)
            } else {
                None
            }
        },
        None => {
            proof {
                let s = text@.subrange(from as int, to as int);
                assert(is_i32_literal(s) ==> is_i64_literal(s));
            }
            None
        },
    }
}

/// Whether `text` between `from` and `to` is a decimal literal.
pub fn is_decimal(text: &Vec<char>, from: usize, to: usize) -> (b: bool)
    requires
        from <= to <= text.len(),
    ensures
        b == decimal_syntax(text@.subrange(from as int, to as int)),
{
    let ghost s = text@.subrange(from as int, to as int);
    let mut i: usize = from;
    if from < to {
        let first = text[from];
        proof {
            assert(s[0] == first);
        }
        if first == '+' || first == '-' {
            i = from + 1;
        }
    }
    let begin: usize = i;
    let ghost m = magnitude(s);
    proof {
        assert(m =~= text@.subrange(begin as int, to as int));
    }
    let mut digits: usize = 0;
    let mut points: usize = 0;
    while i < to
        invariant
            from <= begin <= i <= to <= text.len(),
            m == text@.subrange(begin as int, to as int),
            m == magnitude(text@.subrange(from as int, to as int)),
            digits == digit_count(m.take(i - begin)),
            points == point_count(m.take(i - begin)),
            digits + points == i - begin,
        decreases to - i,
    {
        let c = text[i];
        let ghost k = i - begin;
        proof {
            assert(m[k] == c);
            assert(m.take(k + 1).drop_last() =~= m.take(k));
        }
        if is_digit(c) {
            digits += 1;
        } else if c == '.' {
            points += 1;
        } else {
            proof {
                assert(m.take(k + 1).last() == c);
                assert(digit_count(m.take(k + 1)) == digit_count(m.take(k)));
                assert(point_count(m.take(k + 1)) == point_count(m.take(k)));
                lemma_counts_prefix(m, k + 1);
            }
            return false;
        }
        i += 1;
    }
    proof {
        assert(m.take(to - begin) =~= m);
    }
    points <= 1 && digits >= 1
}

/// Digits and points together are never more than the characters, and a
/// prefix that holds another character keeps the whole from being made of
/// digits and points only.
pub proof fn lemma_counts_prefix(s: Seq<char>, k: int)
    requires
        0 <= k <= s.len(),
    ensures
        digit_count(s.take(k)) + point_count(s.take(k)) <= k,
        digit_count(s.take(k)) + point_count(s.take(k)) < k ==> digit_count(s) + point_count(s)
            < s.len(),
    decreases s.len() - k,
{
    lemma_counts_bound(s.take(k));
    if k == s.len() {
        assert(s.take(k) =~= s);
    } else {
        lemma_counts_prefix(s, k + 1);
        assert(s.take(k + 1).drop_last() =~= s.take(k));
    }
}

/// Digits and points together are never more than the characters.
pub proof fn lemma_counts_bound(s: Seq<char>)
    ensures
        digit_count(s) + point_count(s) <= s.len(),
    decreases s.len(),
{
    if s.len() > 0 {
        lemma_counts_bound(s.drop_last());
    }
}

} // verus!
