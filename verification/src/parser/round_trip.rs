//! Reading and writing agree: the text of what was read reads back as the
//! same value.

use vstd::prelude::*;
use super::Position;
use super::chars::{digit, number_part, space, symbol_part, symbol_start};
use super::lexer::{
    lemma_number_end, lemma_skip_spaces, lemma_string_end, lemma_symbol_end,
    lemma_token_at_progress, number_end, skip_spaces, spot, starts_number, string_end,
    symbol_end, token_at, Lexed, TTypeView, TokenView,
};
use super::number::{
    all_digits, decimal_syntax, digit_count, digit_value, digits_value,
    integer_value, is_i32_literal, lemma_counts_bound, magnitude, point_count, signed,
};
use super::parser::{
    atom_of, lemma_read_progress, read_at, read_list, AtomView, SexpTView, SexpView,
};
use crate::builtins::{lemma_unplaced_atom, lemma_unplaced_list};
use crate::errors::ErrorView;
use crate::printer::{atom_text, decimal, digit_char, integer_text, items_text, text_of};

verus! {

/// A text that the tokenizer reads as one symbol: it begins as a symbol
/// does and not as another token, and goes on as a symbol does.
pub open spec fn symbol_text(t: Seq<char>) -> bool {
    &&& t.len() > 0
    &&& t[0] != '(' && t[0] != ')' && t[0] != '"'
    &&& !space(t[0])
    &&& !starts_number(t, 0)
    &&& symbol_start(t[0])
    &&& forall|k: int| 1 <= k < t.len() ==> symbol_part(#[trigger] t[k])
}

/// A text that the tokenizer reads as the inside of one string: a double
/// quote put after it closes it, and none before does.
pub open spec fn string_text(t: Seq<char>) -> bool {
    string_end(t.push('"'), 0) == t.len()
}

/// A text that the tokenizer reads as one float: it begins as a number
/// does, and is a decimal literal that is no integer of 32 bits.
pub open spec fn float_text(t: Seq<char>) -> bool {
    &&& starts_number(t, 0)
    &&& !is_i32_literal(t)
    &&& decimal_syntax(t)
}

/// An atom that the reader can give.
pub open spec fn readable_atom(a: AtomView) -> bool {
    match a {
        AtomView::Symbol(t) => symbol_text(t),
        AtomView::String(t) => string_text(t),
        AtomView::Integer(_) => true,
        AtomView::Float(t) => float_text(t),
    }
}

/// A value that the reader can give: every atom in it is one that the
/// reader can give.
pub open spec fn readable(s: SexpView) -> bool
    decreases s,
{
    match s.sexpt {
        SexpTView::Atom(a) => readable_atom(a),
        SexpTView::List(items) => forall|k: int|
            0 <= k < items.len() ==> readable(#[trigger] items[k]),
    }
}

/// Whether a token that ends before index `e` of `src` is kept apart from
/// what follows: by the end of the text, a space or a closing parenthesis.
pub open spec fn closed_at(src: Seq<char>, e: int) -> bool {
    e >= src.len() || src[e] == ' ' || src[e] == ')'
}

/// A run of characters that can continue a symbol, with none after it, is
/// where a symbol ends.
pub proof fn lemma_symbol_end_is(src: Seq<char>, a: int, b: int)
    requires
        0 <= a <= b <= src.len(),
        forall|k: int| a <= k < b ==> symbol_part(#[trigger] src[k]),
        b == src.len() || !symbol_part(src[b]),
    ensures
        symbol_end(src, a) == b,
    decreases b - a,
{
    if a < b {
        assert(symbol_part(src[a]));
        lemma_symbol_end_is(src, a + 1, b);
    }
}

/// A run of characters that can continue a number, with none after it, is
/// where a number ends.
pub proof fn lemma_number_end_is(src: Seq<char>, a: int, b: int)
    requires
        0 <= a <= b <= src.len(),
        forall|k: int| a <= k < b ==> number_part(#[trigger] src[k]),
        b == src.len() || !number_part(src[b]),
    ensures
        number_end(src, a) == b,
    decreases b - a,
{
    if a < b {
        assert(number_part(src[a]));
        lemma_number_end_is(src, a + 1, b);
    }
}

/// Where a string ends depends on the text up to its closing quote alone:
/// in a part `u` of `src` that begins at index `a`, the closing quote is
/// found within `u` exactly where it is found within that stretch of `src`,
/// and at the same place.
pub proof fn lemma_string_end_local(src: Seq<char>, a: int, u: Seq<char>, k: int)
    requires
        0 <= a,
        a + u.len() <= src.len(),
        u == src.subrange(a, a + u.len()),
        0 <= k <= u.len(),
    ensures
        string_end(u, k) < u.len() <==> string_end(src, a + k) < a + u.len(),
        string_end(u, k) < u.len() ==> string_end(src, a + k) == a + string_end(u, k),
    decreases u.len() - k,
{
    lemma_string_end(src, a + k);
    lemma_string_end(u, k);
    if k < u.len() {
        assert(u[k] == src[a + k]);
        if u[k] == '"' {
        } else if u[k] == '\\' {
            if k + 1 < u.len() {
                lemma_string_end_local(src, a, u, k + 2);
            } else {
                if a + k + 1 < src.len() {
                    lemma_string_end(src, a + k + 2);
                }
            }
        } else {
            lemma_string_end_local(src, a, u, k + 1);
        }
    }
}

/// The character of a digit is a digit, and has the digit's value.
pub proof fn lemma_digit_char(d: int)
    requires
        0 <= d < 10,
    ensures
        digit(digit_char(d)),
        digit_value(digit_char(d)) == d,
        !space(digit_char(d)),
{
}

/// The digits of a number are digits, one at least, and write that number.
pub proof fn lemma_decimal(n: nat)
    ensures
        decimal(n).len() >= 1,
        all_digits(decimal(n)),
        digits_value(decimal(n)) == n,
    decreases n,
{
    if n < 10 {
        lemma_digit_char(n as int);
        let s = decimal(n);
        assert(s.drop_last() =~= Seq::<char>::empty());
        assert(digits_value(s.drop_last()) == 0);
    } else {
        lemma_decimal(n / 10);
        lemma_digit_char((n % 10) as int);
        let s = decimal(n);
        assert(s.drop_last() =~= decimal(n / 10));
        assert(s.last() == digit_char((n % 10) as int));
    }
}

/// In a text that is made of digits and decimal points only, every
/// character is a digit or a decimal point.
pub proof fn lemma_counts_full(s: Seq<char>)
    requires
        digit_count(s) + point_count(s) == s.len(),
    ensures
        forall|k: int| 0 <= k < s.len() ==> number_part(#[trigger] s[k]),
    decreases s.len(),
{
    if s.len() > 0 {
        lemma_counts_bound(s.drop_last());
        lemma_counts_full(s.drop_last());
        assert forall|k: int| 0 <= k < s.len() implies number_part(#[trigger] s[k]) by {
            if k < s.len() - 1 {
                assert(s.drop_last()[k] == s[k]);
            }
        }
    }
}

/// The token that stands for the atom `a` at position `p`.
pub open spec fn token_for(a: AtomView, p: Position) -> TokenView {
    TokenView {
        ttype: match a {
            AtomView::Symbol(t) => TTypeView::Symbol(t),
            AtomView::String(t) => TTypeView::String(t),
            AtomView::Integer(i) => TTypeView::Integer(i),
            AtomView::Float(t) => TTypeView::Float(t),
        },
        line: p.0,
        column: p.1,
    }
}

/// What a step of the tokenizer yields when it reads the token `t` and stops
/// at index `e`.
pub open spec fn found(t: TokenView, e: int) -> (Lexed, int) {
    (Some(Ok(t)), e)
}

/// Whether `text` stands in `src` from index `i` on, kept apart from what
/// follows it.
pub open spec fn stands_at(src: Seq<char>, i: int, text: Seq<char>) -> bool {
    &&& 0 <= i
    &&& i + text.len() <= src.len()
    &&& src.subrange(i, i + text.len()) == text
    &&& closed_at(src, i + text.len())
}

/// Where the text of a symbol stands, the tokenizer reads that symbol.
pub proof fn lemma_token_of_symbol_text(src: Seq<char>, i: int, t: Seq<char>)
    requires
        symbol_text(t),
        stands_at(src, i, t),
    ensures
        token_at(src, i) == found(token_for(AtomView::Symbol(t), spot(src, i + 1)), i + t.len()),
{
    let n = t.len() as int;
    let u = src.subrange(i, i + n);
    assert(u[0] == src[i]);
    assert(skip_spaces(src, i) == i);
    assert forall|k: int| i + 1 <= k < i + n implies symbol_part(#[trigger] src[k]) by {
        assert(u[k - i] == src[k]);
        assert(symbol_part(t[k - i]));
    }
    lemma_symbol_end_is(src, i + 1, i + n);
    if n > 1 {
        assert(u[1] == src[i + 1]);
    }
    assert(!starts_number(src, i));
    assert(src.subrange(i + 1 - 1, i + n) == t);
}

/// Where the text of a float stands, the tokenizer reads that float.
pub proof fn lemma_token_of_float_text(src: Seq<char>, i: int, t: Seq<char>)
    requires
        float_text(t),
        stands_at(src, i, t),
    ensures
        token_at(src, i) == found(token_for(AtomView::Float(t), spot(src, i + 1)), i + t.len()),
{
    let n = t.len() as int;
    let u = src.subrange(i, i + n);
    assert(u[0] == src[i]);
    if n > 1 {
        assert(u[1] == src[i + 1]);
    }
    assert(!space(src[i]));
    assert(skip_spaces(src, i) == i);
    let m = magnitude(t);
    lemma_counts_full(m);
    assert forall|k: int| i + 1 <= k < i + n implies number_part(#[trigger] src[k]) by {
        assert(u[k - i] == src[k]);
        if signed(t) {
            assert(m[k - i - 1] == t[k - i]);
        } else {
            assert(m[k - i] == t[k - i]);
        }
    }
    lemma_number_end_is(src, i + 1, i + n);
    assert(starts_number(src, i));
    assert(src.subrange(i + 1 - 1, i + n) == t);
}

/// The text of an integer of 32 bits is an integer literal with that value,
/// and begins and goes on as a number does.
pub proof fn lemma_integer_text(v: i32)
    ensures
        is_i32_literal(integer_text(v as int)),
        integer_value(integer_text(v as int)) == v,
        starts_number(integer_text(v as int), 0),
        forall|k: int|
            1 <= k < integer_text(v as int).len() ==> digit(#[trigger] integer_text(v as int)[k]),
{
    let t = integer_text(v as int);
    if v < 0 {
        let m = (-(v as int)) as nat;
        lemma_decimal(m);
        let d = decimal(m);
        assert(t =~= seq!['-'] + d);
        assert(t[0] == '-');
        assert(magnitude(t) =~= d);
        assert forall|k: int| 1 <= k < t.len() implies digit(#[trigger] t[k]) by {
            assert(t[k] == d[k - 1]);
        }
        assert(t[1] == d[0]);
    } else {
        let m = v as nat;
        lemma_decimal(m);
        assert(t == decimal(m));
        assert(digit(t[0]));
        assert(!signed(t));
        assert(magnitude(t) =~= t);
    }
}

/// Where the text of an integer stands, the tokenizer reads that integer.
pub proof fn lemma_token_of_integer_text(src: Seq<char>, i: int, v: i32)
    requires
        stands_at(src, i, integer_text(v as int)),
    ensures
        token_at(src, i) == found(
            token_for(AtomView::Integer(v), spot(src, i + 1)),
            i + integer_text(v as int).len(),
        ),
{
    let t = integer_text(v as int);
    lemma_integer_text(v);
    let n = t.len() as int;
    let u = src.subrange(i, i + n);
    assert(u[0] == src[i]);
    if n > 1 {
        assert(u[1] == src[i + 1]);
    }
    assert(!space(src[i]));
    assert(skip_spaces(src, i) == i);
    assert forall|k: int| i + 1 <= k < i + n implies number_part(#[trigger] src[k]) by {
        assert(u[k - i] == src[k]);
        assert(digit(t[k - i]));
    }
    lemma_number_end_is(src, i + 1, i + n);
    assert(starts_number(src, i));
    assert(src.subrange(i + 1 - 1, i + n) == t);
}

/// Where the text of a string stands between double quotes, the tokenizer
/// reads that string.
pub proof fn lemma_token_of_string_text(src: Seq<char>, i: int, t: Seq<char>)
    requires
        string_text(t),
        stands_at(src, i, seq!['"'] + t + seq!['"']),
    ensures
        token_at(src, i) == found(
            token_for(AtomView::String(t), spot(src, i + 1)),
            i + t.len() + 2,
        ),
{
    let text = seq!['"'] + t + seq!['"'];
    let n = text.len() as int;
    let whole = src.subrange(i, i + n);
    assert(whole[0] == src[i]);
    assert(src[i] == '"');
    assert(skip_spaces(src, i) == i);
    let u = t.push('"');
    assert(u =~= src.subrange(i + 1, i + 1 + u.len())) by {
        assert forall|k: int| 0 <= k < u.len() implies u[k] == src[i + 1 + k] by {
            assert(whole[k + 1] == src[i + 1 + k]);
        }
    }
    lemma_string_end_local(src, i + 1, u, 0);
    assert(string_end(src, i + 1) == i + 1 + t.len());
    assert(src.subrange(i + 1, i + 1 + t.len()) =~= t) by {
        assert forall|k: int| 0 <= k < t.len() implies t[k] == src[i + 1 + k] by {
            assert(whole[k + 1] == src[i + 1 + k]);
        }
    }
}

/// Where the text of an atom that the reader can give stands, the
/// tokenizer reads the token of that atom.
pub proof fn lemma_token_of_atom_text(src: Seq<char>, i: int, a: AtomView)
    requires
        readable_atom(a),
        stands_at(src, i, atom_text(a)),
    ensures
        token_at(src, i) == found(token_for(a, spot(src, i + 1)), i + atom_text(a).len()),
{
    match a {
        AtomView::Symbol(t) => lemma_token_of_symbol_text(src, i, t),
        AtomView::String(t) => lemma_token_of_string_text(src, i, t),
        AtomView::Integer(v) => lemma_token_of_integer_text(src, i, v),
        AtomView::Float(t) => lemma_token_of_float_text(src, i, t),
    }
}

/// Whether the outcome `r` of a reading is the value `s`, apart from
/// positions, with the reading stopped at index `e`.
pub open spec fn reads_as(r: (Result<SexpView, ErrorView>, int), s: SexpView, e: int) -> bool {
    &&& r.0 is Ok
    &&& r.0->Ok_0.unplaced() == s.unplaced()
    &&& r.1 == e
}

/// Whether the outcome `r` of reading the rest of a list is the list at
/// `open` of the items `before` and, apart from positions, the items `rest`,
/// with the reading stopped at index `e`.
pub open spec fn list_reads_as(
    r: (Result<SexpView, ErrorView>, int),
    open: Position,
    before: Seq<SexpView>,
    rest: Seq<SexpView>,
    e: int,
) -> bool {
    &&& r.1 == e
    &&& r.0 is Ok
    &&& r.0->Ok_0.pos == open
    &&& r.0->Ok_0.sexpt is List
    &&& r.0->Ok_0.sexpt->List_0.len() == before.len() + rest.len()
    &&& forall|k: int|
        0 <= k < before.len() ==> #[trigger] r.0->Ok_0.sexpt->List_0[k] == before[k]
    &&& forall|k: int|
        0 <= k < rest.len() ==> (#[trigger] r.0->Ok_0.sexpt->List_0[before.len() + k]).unplaced()
            == rest[k].unplaced()
}

/// White space before a token changes nothing of what is read.
pub proof fn lemma_space_before(src: Seq<char>, k: int)
    requires
        0 <= k < src.len(),
        space(src[k]),
    ensures
        token_at(src, k) == token_at(src, k + 1),
        read_at(src, k) == read_at(src, k + 1),
        forall|open: Position, items: Seq<SexpView>|
            #[trigger] read_list(src, k, open, items) == read_list(src, k + 1, open, items),
{
    lemma_token_at_progress(src, k + 1);
    lemma_read_progress(src, k + 1);
    assert(read_at(src, k) == read_at(src, k + 1));
    assert forall|open: Position, items: Seq<SexpView>|
        #[trigger] read_list(src, k, open, items) == read_list(src, k + 1, open, items) by {
    }
}

/// At an opening parenthesis the tokenizer reads that parenthesis.
pub proof fn lemma_token_lparen(src: Seq<char>, k: int)
    requires
        0 <= k < src.len(),
        src[k] == '(',
    ensures
        token_at(src, k) == found(
            TokenView {
                ttype: TTypeView::LParen,
                line: spot(src, k + 1).0,
                column: spot(src, k + 1).1,
            },
            k + 1,
        ),
{
    assert(skip_spaces(src, k) == k);
}

/// At a closing parenthesis the tokenizer reads that parenthesis.
pub proof fn lemma_token_rparen(src: Seq<char>, k: int)
    requires
        0 <= k < src.len(),
        src[k] == ')',
    ensures
        token_at(src, k) == found(
            TokenView {
                ttype: TTypeView::RParen,
                line: spot(src, k + 1).0,
                column: spot(src, k + 1).1,
            },
            k + 1,
        ),
{
    assert(skip_spaces(src, k) == k);
}

/// Where the text of a value that the reader can give stands, the reader
/// reads that value, apart from positions, and stops behind the text.
pub proof fn lemma_read_text(src: Seq<char>, i: int, s: SexpView)
    requires
        readable(s),
        stands_at(src, i, text_of(s)),
    ensures
        reads_as(read_at(src, i), s, i + text_of(s).len()),
    decreases s,
{
    match s.sexpt {
        SexpTView::Atom(a) => {
            lemma_token_of_atom_text(src, i, a);
            let got = read_at(src, i).0->Ok_0;
            assert(got.sexpt == SexpTView::Atom(a));
            lemma_unplaced_atom(got);
            lemma_unplaced_atom(s);
        },
        SexpTView::List(items) => {
            let inner = items_text(items);
            let text = seq!['('] + inner + seq![')'];
            let m = inner.len() as int;
            let whole = src.subrange(i, i + text.len());
            assert(whole[0] == src[i]);
            assert(src[i] == '(');
            lemma_token_lparen(src, i);
            assert(whole[m + 1] == src[i + 1 + m]);
            assert(src[i + 1 + m] == ')');
            assert(src.subrange(i + 1, i + 1 + m) =~= inner) by {
                assert forall|k: int| 0 <= k < m implies inner[k] == src[i + 1 + k] by {
                    assert(whole[k + 1] == src[i + 1 + k]);
                }
            }
            let open = spot(src, i + 1);
            lemma_read_items_text(src, i + 1, open, Seq::empty(), items);
            let got = read_at(src, i).0->Ok_0;
            assert(read_at(src, i) == read_list(src, i + 1, open, Seq::empty()));
            lemma_unplaced_list(got);
            lemma_unplaced_list(s);
            let read = got.sexpt->List_0;
            let none = Seq::<SexpView>::empty();
            assert(read.len() == items.len());
            assert forall|k: int| 0 <= k < items.len() implies read[k].unplaced()
                == items[k].unplaced() by {
                assert(read[none.len() + k].unplaced() == items[k].unplaced());
            }
            assert(got.unplaced().sexpt->List_0 =~= s.unplaced().sexpt->List_0);
        },
    }
}

/// Where the texts of values that the reader can give stand with one space
/// between two of them and a closing parenthesis behind the last, the reader
/// reads them, apart from positions, as the rest of a list, and stops behind
/// the parenthesis.
pub proof fn lemma_read_items_text(
    src: Seq<char>,
    j: int,
    open: Position,
    before: Seq<SexpView>,
    rest: Seq<SexpView>,
)
    requires
        0 <= j,
        forall|k: int| 0 <= k < rest.len() ==> readable(#[trigger] rest[k]),
        j + items_text(rest).len() < src.len(),
        src.subrange(j, j + items_text(rest).len()) == items_text(rest),
        src[j + items_text(rest).len()] == ')',
    ensures
        list_reads_as(
            read_list(src, j, open, before),
            open,
            before,
            rest,
            j + items_text(rest).len() + 1,
        ),
    decreases rest,
{
    let m = items_text(rest).len() as int;
    let part = src.subrange(j, j + m);
    if rest.len() == 0 {
        lemma_token_rparen(src, j);
    } else {
        let first = rest[0];
        let n0 = text_of(first).len() as int;
        assert(readable(first));
        if rest.len() == 1 {
            assert(stands_at(src, j, text_of(first)));
        } else {
            let tail = rest.subrange(1, rest.len() as int);
            assert(items_text(rest) == text_of(first) + seq![' '] + items_text(tail));
            assert(part[n0] == src[j + n0]);
            assert(src[j + n0] == ' ');
            assert(src.subrange(j, j + n0) =~= text_of(first)) by {
                assert forall|k: int| 0 <= k < n0 implies text_of(first)[k] == src[j + k] by {
                    assert(part[k] == src[j + k]);
                }
            }
            assert(stands_at(src, j, text_of(first)));
        }
        lemma_read_text(src, j, first);
        lemma_token_at_progress(src, j);
        lemma_read_progress(src, j);
        let x = read_at(src, j).0->Ok_0;
        assert(token_at(src, j).0 is Some);
        assert(read_list(src, j, open, before) == read_list(
            src,
            j + n0,
            open,
            before.push(x),
        ));
        if rest.len() == 1 {
            lemma_token_rparen(src, j + n0);
        } else {
            let tail = rest.subrange(1, rest.len() as int);
            assert(space(src[j + n0]));
            lemma_space_before(src, j + n0);
            let m1 = items_text(tail).len() as int;
            assert(m == n0 + 1 + m1);
            assert(src.subrange(j + n0 + 1, j + n0 + 1 + m1) =~= items_text(tail)) by {
                assert forall|k: int| 0 <= k < m1 implies items_text(tail)[k] == src[j + n0 + 1
                    + k] by {
                    assert(part[n0 + 1 + k] == src[j + n0 + 1 + k]);
                }
            }
            assert forall|k: int| 0 <= k < tail.len() implies readable(#[trigger] tail[k]) by {
                assert(tail[k] == rest[k + 1]);
            }
            lemma_read_items_text(src, j + n0 + 1, open, before.push(x), tail);
            let r = read_list(src, j, open, before);
            assert(r == read_list(src, j + n0 + 1, open, before.push(x)));
            let got = r.0->Ok_0.sexpt->List_0;
            assert forall|k: int| 0 <= k < before.len() implies #[trigger] got[k] == before[k] by {
                assert(got[k] == before.push(x)[k]);
            }
            assert forall|k: int| 0 <= k < rest.len() implies (#[trigger] got[before.len()
                + k]).unplaced() == rest[k].unplaced() by {
                if k == 0 {
                    assert(got[before.len() as int] == before.push(x)[before.len() as int]);
                } else {
                    assert(got[before.push(x).len() + (k - 1)].unplaced() == tail[k
                        - 1].unplaced());
                    assert(tail[k - 1] == rest[k]);
                }
            }
        }
    }
}

/// An atom token that the tokenizer gives stands for an atom that the
/// reader can give.
pub proof fn lemma_token_readable(src: Seq<char>, i: int)
    requires
        0 <= i <= src.len(),
    ensures
        match token_at(src, i).0 {
            Some(Ok(t)) => match atom_of(t) {
                Some(s) => readable(s),
                None => true,
            },
            _ => true,
        },
{
    lemma_skip_spaces(src, i);
    let j = skip_spaces(src, i);
    if j < src.len() {
        let c = src[j];
        if c == '(' || c == ')' {
        } else if c == '"' {
            lemma_string_end(src, j + 1);
            let e = string_end(src, j + 1);
            if e < src.len() {
                let x = src.subrange(j + 1, e);
                let u = x.push('"');
                assert(u =~= src.subrange(j + 1, j + 1 + u.len()));
                lemma_string_end_local(src, j + 1, u, 0);
                assert(string_text(x));
            }
        } else if starts_number(src, j) {
            lemma_number_end(src, j + 1);
            let e = number_end(src, j + 1);
            let x = src.subrange(j, e);
            assert(x[0] == c);
            if !digit(c) {
                assert(number_part(src[j + 1]));
                assert(e >= j + 2);
                assert(x[1] == src[j + 1]);
            }
            assert(starts_number(x, 0));
        } else if symbol_start(c) {
            lemma_symbol_end(src, j + 1);
            let e = symbol_end(src, j + 1);
            let x = src.subrange(j, e);
            assert(x[0] == c);
            if x.len() > 1 {
                assert(x[1] == src[j + 1]);
            }
            assert(!starts_number(x, 0));
            assert forall|k: int| 1 <= k < x.len() implies symbol_part(#[trigger] x[k]) by {
                assert(x[k] == src[j + k]);
            }
            assert(symbol_text(x));
        }
    }
}

/// What the reader gives is a value that the reader can give.
pub proof fn lemma_read_readable(src: Seq<char>, i: int)
    requires
        0 <= i <= src.len(),
    ensures
        read_at(src, i).0 matches Ok(s) ==> readable(s),
    decreases src.len() - i, 0int,
{
    lemma_token_at_progress(src, i);
    lemma_token_readable(src, i);
    let j = token_at(src, i).1;
    match token_at(src, i).0 {
        Some(Ok(t)) => {
            if t.ttype is LParen {
                lemma_read_list_readable(src, j, Position(t.line, t.column), Seq::empty());
            }
        },
        _ => {},
    }
}

/// The list that the reader gives is a value that the reader can give,
/// where the items read before are.
pub proof fn lemma_read_list_readable(
    src: Seq<char>,
    i: int,
    open: Position,
    items: Seq<SexpView>,
)
    requires
        0 <= i <= src.len(),
        forall|k: int| 0 <= k < items.len() ==> readable(#[trigger] items[k]),
    ensures
        read_list(src, i, open, items).0 matches Ok(s) ==> readable(s),
    decreases src.len() - i, 1int,
{
    lemma_token_at_progress(src, i);
    match token_at(src, i).0 {
        Some(Ok(t)) => {
            if !(t.ttype is RParen) {
                lemma_read_progress(src, i);
                lemma_read_readable(src, i);
                let k = read_at(src, i).1;
                match read_at(src, i).0 {
                    Ok(item) => {
                        let more = items.push(item);
                        assert forall|n: int| 0 <= n < more.len() implies readable(
                            #[trigger] more[n],
                        ) by {
                            if n < items.len() {
                                assert(more[n] == items[n]);
                            }
                        }
                        lemma_read_list_readable(src, k, open, more);
                    },
                    Err(_) => {},
                }
            }
        },
        _ => {},
    }
}

/// The text of a value that the reader can give reads back as that value,
/// apart from positions, and the reading uses up the whole text.
pub proof fn lemma_text_reads_back(s: SexpView)
    requires
        readable(s),
    ensures
        reads_as(read_at(text_of(s), 0), s, text_of(s).len() as int),
{
    let t = text_of(s);
    assert(t.subrange(0, t.len() as int) =~= t);
    lemma_read_text(t, 0, s);
}

/// Reading, writing and reading again gives the same value: where reading
/// `src` from index `i` gives a value, the text of that value reads back as
/// the same value, apart from positions, and the second reading uses up the
/// whole text.
pub proof fn lemma_round_trip(src: Seq<char>, i: int)
    requires
        0 <= i <= src.len(),
        read_at(src, i).0 is Ok,
    ensures
        reads_as(
            read_at(text_of(read_at(src, i).0->Ok_0), 0),
            read_at(src, i).0->Ok_0,
            text_of(read_at(src, i).0->Ok_0).len() as int,
        ),
{
    lemma_read_readable(src, i);
    lemma_text_reads_back(read_at(src, i).0->Ok_0);
}

/// The text of a value does not depend on the positions in it.
pub proof fn lemma_text_ignores_positions(s: SexpView)
    ensures
        text_of(s.unplaced()) == text_of(s),
    decreases s,
{
    match s.sexpt {
        SexpTView::Atom(_) => {
            lemma_unplaced_atom(s);
        },
        SexpTView::List(items) => {
            lemma_unplaced_list(s);
            lemma_items_text_ignores_positions(items, s.unplaced().sexpt->List_0);
        },
    }
}

/// The text of a run of values does not depend on the positions in them.
pub proof fn lemma_items_text_ignores_positions(items: Seq<SexpView>, plain: Seq<SexpView>)
    requires
        plain.len() == items.len(),
        forall|k: int| 0 <= k < items.len() ==> #[trigger] plain[k] == items[k].unplaced(),
    ensures
        items_text(plain) == items_text(items),
    decreases items,
{
    if items.len() > 0 {
        lemma_text_ignores_positions(items[0]);
        if items.len() > 1 {
            let rest = items.subrange(1, items.len() as int);
            let plain_rest = plain.subrange(1, plain.len() as int);
            assert forall|k: int| 0 <= k < rest.len() implies #[trigger] plain_rest[k]
                == rest[k].unplaced() by {
                assert(plain_rest[k] == plain[k + 1]);
                assert(rest[k] == items[k + 1]);
            }
            lemma_items_text_ignores_positions(rest, plain_rest);
        }
    }
}

/// Writing is stable: where reading `src` from index `i` gives a value,
/// reading the text of that value and writing what was read gives the same
/// text again.
pub proof fn lemma_text_is_stable(src: Seq<char>, i: int)
    requires
        0 <= i <= src.len(),
        read_at(src, i).0 is Ok,
    ensures
        read_at(text_of(read_at(src, i).0->Ok_0), 0).0 matches Ok(again) && text_of(again)
            == text_of(read_at(src, i).0->Ok_0),
{
    let first = read_at(src, i).0->Ok_0;
    lemma_round_trip(src, i);
    let again = read_at(text_of(first), 0).0->Ok_0;
    lemma_text_ignores_positions(first);
    lemma_text_ignores_positions(again);
}

} // verus!
