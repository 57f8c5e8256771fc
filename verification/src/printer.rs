//! Text for S-expressions and for failures.

use vstd::prelude::*;
use crate::errors::{Error, ErrorView, EvalError, EvalErrorView, ReadError, ReadErrorView};
use crate::parser::Position;
use crate::parser::parser::{
    items_view, lemma_view_atom, lemma_view_list, read_view, Atom, AtomView, Sexp, SexpT,
    SexpTView, SexpView,
};

verus! {

/// `String::push` of std appends one character to the end of the string.
pub assume_specification[ std::string::String::push ](s: &mut std::string::String, c: char)
    ensures
        final(s)@ == old(s)@.push(c),
;

/// The character that writes the digit `d`.
pub open spec fn digit_char(d: int) -> char {
    (d + 48) as char
}

/// The digits that write `n` in base ten, without leading zeros.
pub open spec fn decimal(n: nat) -> Seq<char>
    decreases n,
{
    if n < 10 {
        seq![digit_char(n as int)]
    } else {
        decimal(n / 10).push(digit_char((n % 10) as int))
    }
}

/// The text of the integer `i`: a minus sign where it is negative, then its
/// digits.
pub open spec fn integer_text(i: int) -> Seq<char> {
    if i < 0 {
        seq!['-'] + decimal((-i) as nat)
    } else {
        decimal(i as nat)
    }
}

/// The text of an atom: a symbol's name, a string between double quotes, an
/// integer's digits, a float's literal.
pub open spec fn atom_text(a: AtomView) -> Seq<char> {
    match a {
        AtomView::Symbol(s) => s,
        AtomView::String(s) => seq!['"'] + s + seq!['"'],
        AtomView::Integer(i) => integer_text(i as int),
        AtomView::Float(s) => s,
    }
}

/// The text of an S-expression: an atom's text, or the texts of a list's
/// items between parentheses, with one space between two items.
pub open spec fn text_of(s: SexpView) -> Seq<char>
    decreases s,
{
    match s.sexpt {
        SexpTView::Atom(a) => atom_text(a),
        SexpTView::List(items) => seq!['('] + items_text(items) + seq![')'],
    }
}

/// The texts of `items`, with one space between two of them.
pub open spec fn items_text(items: Seq<SexpView>) -> Seq<char>
    decreases items,
{
    if items.len() == 0 {
        Seq::empty()
    } else if items.len() == 1 {
        text_of(items[0])
    } else {
        text_of(items[0]) + seq![' '] + items_text(items.subrange(1, items.len() as int))
    }
}

/// The text of a position: a space, then line and column between
/// parentheses, with a colon between them.
pub open spec fn position_text(p: Position) -> Seq<char> {
    " ("@ + decimal(p.0 as nat) + ":"@ + decimal(p.1 as nat) + ")"@
}

/// The message of a failure of the reader.
pub open spec fn read_error_text(e: ReadErrorView) -> Seq<char> {
    match e {
        ReadErrorView::UnexpectedChar(c, p) => "Unexpected character : '"@.push(c) + "'"@
            + position_text(p),
        ReadErrorView::UnclosedString(p) => "Unclosed string"@ + position_text(p),
        ReadErrorView::IncorrectNumber(n, p) => "Incorrect number : "@ + n + position_text(p),
        ReadErrorView::UnclosedParen(p) => "Unclosed parenthesis"@ + position_text(p),
        ReadErrorView::UnexpectedClosingParen(p) => "Unexpected closing parenthesis"@
            + position_text(p),
        ReadErrorView::UnexpectedEOF => "Unexpected end of file."@,
    }
}

/// The message of a failure of the evaluator. A value of the wrong kind is
/// shown by its text.
pub open spec fn eval_error_text(e: EvalErrorView) -> Seq<char> {
    match e {
        EvalErrorView::IllegalFunctionCall(p) => "Illegal function call"@ + position_text(p),
        EvalErrorView::UnboundSymbol(name, p) => "The symbol "@ + name + " is unbound"@
            + position_text(p),
        EvalErrorView::ArityMismatch(name, given, expected, p) => name + " expected "@ + decimal(
            expected as nat,
        ) + " arguments, "@ + decimal(given as nat) + " were given"@ + position_text(p),
        EvalErrorView::TypeMismatch(given, expected, p) => text_of(
            SexpView { sexpt: given, pos: p },
        ) + " is not a "@ + expected + position_text(p),
        EvalErrorView::ReadError(e) => read_error_text(e),
    }
}

/// The message of a failure.
pub open spec fn error_text(e: ErrorView) -> Seq<char> {
    match e {
        ErrorView::ReadError(e) => read_error_text(e),
        ErrorView::EvalError(e) => eval_error_text(e),
    }
}

/// What is shown for an outcome: the text of the S-expression, or the
/// message of the failure.
pub open spec fn outcome_text(r: Result<SexpView, ErrorView>) -> Seq<char> {
    match r {
        Ok(s) => text_of(s),
        Err(e) => error_text(e),
    }
}

/// The text of a list with one more item is the text of the list, a space
/// where the list was not empty, and the text of the item.
pub proof fn lemma_items_text_push(items: Seq<SexpView>, x: SexpView)
    ensures
        items_text(items.push(x)) == if items.len() == 0 {
            text_of(x)
        } else {
            items_text(items) + seq![' '] + text_of(x)
        },
    decreases items.len(),
{
    let more = items.push(x);
    if items.len() == 0 {
    } else {
        let rest = items.subrange(1, items.len() as int);
        assert(more.subrange(1, more.len() as int) =~= rest.push(x));
        lemma_items_text_push(rest, x);
        assert(items_text(more) =~= items_text(items) + seq![' '] + text_of(x));
    }
}

/// Appends the digits of `n` to `out`.
pub fn push_decimal(out: &mut String, n: u64)
    ensures
        final(out)@ == old(out)@ + decimal(n as nat),
    decreases n,
{
    if n >= 10 {
        push_decimal(out, n / 10);
    }
    let d: u8 = (n % 10) as u8;
    let c: char = (d + 48u8) as char;
    out.push(c);
    assert(final(out)@ =~= old(out)@ + decimal(n as nat));
}

/// Appends the text of the integer `i` to `out`.
pub fn push_integer(out: &mut String, i: i64)
    ensures
        final(out)@ == old(out)@ + integer_text(i as int),
{
    if i < 0 {
        out.push('-');
        let m: u64 = if i == i64::MIN {
            0x8000_0000_0000_0000u64
        } else {
            (-i) as u64
        };
        push_decimal(out, m);
        assert(final(out)@ =~= old(out)@ + integer_text(i as int));
    } else {
        push_decimal(out, i as u64);
    }
}

/// Appends the text of the position `p` to `out`.
pub fn push_position(out: &mut String, p: Position)
    ensures
        final(out)@ == old(out)@ + position_text(p),
{
    out.append(" (");
    push_decimal(out, p.0 as u64);
    out.append(":");
    push_decimal(out, p.1 as u64);
    out.append(")");
    assert(final(out)@ =~= old(out)@ + position_text(p));
}

/// Appends the text of the atom `a` to `out`.
pub fn push_atom(out: &mut String, a: &Atom)
    ensures
        final(out)@ == old(out)@ + atom_text(a@),
{
    match a {
        Atom::Symbol(s) => {
            out.append(s.as_str());
        },
        Atom::String(s) => {
            out.push('"');
            out.append(s.as_str());
            out.push('"');
            assert(final(out)@ =~= old(out)@ + atom_text(a@));
        },
        Atom::Integer(i) => {
            push_integer(out, *i as i64);
        },
        Atom::Float(s) => {
            out.append(s.as_str());
        },
    }
}

/// Appends the text of what `t` is to `out`.
pub fn push_sexpt(out: &mut String, t: &SexpT)
    ensures
        final(out)@ == old(out)@ + text_of(SexpView { sexpt: t@, pos: Position(0, 0) }),
    decreases t,
{
    proof {
        let s = Sexp { sexpt: *t, pos: Position(0, 0) };
        if t is List {
            lemma_view_list(s);
        } else {
            lemma_view_atom(s);
        }
    }
    match t {
        SexpT::Atom(a) => {
            push_atom(out, a);
        },
        SexpT::List(v) => {
            let ghost items = items_view(v@);
            out.push('(');
            let mut i: usize = 0;
            while i < v.len()
                invariant
                    i <= v.len(),
                    *t == SexpT::List(*v),
                    items == items_view(v@),
                    out@ == old(out)@ + seq!['('] + items_text(items.take(i as int)),
                decreases v.len() - i,
            {
                proof {
                    vstd::std_specs::vec::axiom_vec_index_decreases(*v, i as int);
                    assert(decreases_to!(*t => t->List_0));
                    assert(decreases_to!(*t => v[i as int]));
                    assert(decreases_to!(v[i as int] => v[i as int].sexpt));
                    lemma_items_text_push(items.take(i as int), items[i as int]);
                    assert(items.take(i as int).push(items[i as int]) =~= items.take(i + 1));
                    let s = v[i as int];
                    if s.sexpt is List {
                        lemma_view_list(s);
                    } else {
                        lemma_view_atom(s);
                    }
                }
                let ghost before = out@;
                if i > 0 {
                    out.push(' ');
                }
                push_sexpt(out, &v[i].sexpt);
                proof {
                    let x = items[i as int];
                    assert(text_of(x) == text_of(SexpView { sexpt: x.sexpt, pos: Position(0, 0) }));
                    assert(out@ =~= old(out)@ + seq!['('] + items_text(items.take(i + 1)));
                }
                i += 1;
            }
            out.push(')');
            proof {
                assert(items.take(v.len() as int) =~= items);
                assert(final(out)@ =~= old(out)@ + (seq!['('] + items_text(items) + seq![')']));
            }
        },
    }
}

/// Appends the message of `e` to `out`.
pub fn push_read_error(out: &mut String, e: &ReadError)
    ensures
        final(out)@ == old(out)@ + read_error_text(e@),
{
    match e {
        ReadError::UnexpectedChar(c, p) => {
            out.append("Unexpected character : '");
            out.push(*c);
            out.append("'");
            push_position(out, *p);
        },
        ReadError::UnclosedString(p) => {
            out.append("Unclosed string");
            push_position(out, *p);
        },
        ReadError::IncorrectNumber(n, p) => {
            out.append("Incorrect number : ");
            out.append(n.as_str());
            push_position(out, *p);
        },
        ReadError::UnclosedParen(p) => {
            out.append("Unclosed parenthesis");
            push_position(out, *p);
        },
        ReadError::UnexpectedClosingParen(p) => {
            out.append("Unexpected closing parenthesis");
            push_position(out, *p);
        },
        ReadError::UnexpectedEOF => {
            out.append("Unexpected end of file.");
        },
    }
    assert(final(out)@ =~= old(out)@ + read_error_text(e@));
}

/// Appends the message of `e` to `out`.
pub fn push_eval_error(out: &mut String, e: &EvalError)
    ensures
        final(out)@ == old(out)@ + eval_error_text(e@),
{
    match e {
        EvalError::IllegalFunctionCall(p) => {
            out.append("Illegal function call");
            push_position(out, *p);
        },
        EvalError::UnboundSymbol(name, p) => {
            out.append("The symbol ");
            out.append(name.as_str());
            out.append(" is unbound");
            push_position(out, *p);
        },
        EvalError::ArityMismatch(name, given, expected, p) => {
            out.append(name.as_str());
            out.append(" expected ");
            push_decimal(out, *expected as u64);
            out.append(" arguments, ");
            push_decimal(out, *given as u64);
            out.append(" were given");
            push_position(out, *p);
        },
        EvalError::TypeMismatch(given, expected, p) => {
            push_sexpt(out, given);
            out.append(" is not a ");
            out.append(expected.as_str());
            push_position(out, *p);
        },
        EvalError::ReadError(e) => {
            push_read_error(out, e);
        },
    }
    assert(final(out)@ =~= old(out)@ + eval_error_text(e@));
}

impl Atom {
    /// The text of the atom.
    pub fn to_string(&self) -> (s: String)
        ensures
            s@ == atom_text(self@),
    {
        let mut out = String::new();
        push_atom(&mut out, self);
        assert(out@ =~= atom_text(self@));
        out
    }
}

impl Sexp {
    /// The text of the S-expression: atoms by their text, lists between
    /// parentheses with one space between two items.
    pub fn to_string(&self) -> (s: String)
        ensures
            s@ == text_of(self@),
    {
        proof {
            if self.sexpt is List {
                lemma_view_list(*self);
            } else {
                lemma_view_atom(*self);
            }
        }
        let mut out = String::new();
        push_sexpt(&mut out, &self.sexpt);
        assert(out@ =~= text_of(self@));
        out
    }
}

impl ReadError {
    /// The message of the failure.
    pub fn to_string(&self) -> (s: String)
        ensures
            s@ == read_error_text(self@),
    {
        let mut out = String::new();
        push_read_error(&mut out, self);
        assert(out@ =~= read_error_text(self@));
        out
    }
}

impl EvalError {
    /// The message of the failure.
    pub fn to_string(&self) -> (s: String)
        ensures
            s@ == eval_error_text(self@),
    {
        let mut out = String::new();
        push_eval_error(&mut out, self);
        assert(out@ =~= eval_error_text(self@));
        out
    }
}

impl Error {
    /// The message of the failure.
    pub fn to_string(&self) -> (s: String)
        ensures
            s@ == error_text(self@),
    {
        match self {
            Error::ReadError(e) => e.to_string(),
            Error::EvalError(e) => e.to_string(),
        }
    }
}

/// What is shown for the outcome of a reading or of an evaluation: the text
/// of the S-expression, or the message of the failure.
pub fn show(outcome: &Result<Sexp, Error>) -> (s: String)
    ensures
        s@ == outcome_text(read_view(*outcome)),
{
    match outcome {
        Ok(sexp) => sexp.to_string(),
        Err(e) => e.to_string(),
    }
}

} // verus!
