//! S-expressions and the reader that builds them from tokens.

use vstd::prelude::*;
use super::Position;
use super::lexer::{
    lemma_skip_spaces, lemma_token_at_progress, token_at, Lexer, TType, TTypeView, Token,
    TokenView,
};
use crate::errors::{Error, ErrorView, ReadError, ReadErrorView};

verus! {

/// A leaf of an S-expression.
///
/// Integers are signed 32-bit values. A number that is no such integer is
/// kept as the decimal literal that the source wrote, digit for digit, so
/// that nothing of it is lost to rounding.
#[derive(Debug, PartialEq)]
pub enum Atom {
    Symbol(String),
    String(String),
    Integer(i32),
    Float(String),
}

/// What an S-expression is: an atom or a list of S-expressions.
#[derive(Debug, PartialEq)]
pub enum SexpT {
    Atom(Atom),
    List(Vec<Sexp>),
}

/// An S-expression with the position that it was read at.
#[derive(Debug, PartialEq)]
pub struct Sexp {
    pub sexpt: SexpT,
    pub pos: Position,
}

/// The mathematical value of an [`Atom`].
pub enum AtomView {
    Symbol(Seq<char>),
    String(Seq<char>),
    Integer(i32),
    Float(Seq<char>),
}

/// The mathematical value of a [`SexpT`].
pub enum SexpTView {
    Atom(AtomView),
    List(Seq<SexpView>),
}

/// The mathematical value of a [`Sexp`].
pub struct SexpView {
    pub sexpt: SexpTView,
    pub pos: Position,
}

impl View for Atom {
    type V = AtomView;

    open spec fn view(&self) -> AtomView {
        match self {
            Atom::Symbol(s) => AtomView::Symbol(s@),
            Atom::String(s) => AtomView::String(s@),
            Atom::Integer(i) => AtomView::Integer(*i),
            Atom::Float(s) => AtomView::Float(s@),
        }
    }
}

/// The value of `s`: the values of its parts, each with its position.
pub open spec fn sexp_view(s: Sexp) -> SexpView
    decreases s,
{
    SexpView {
        sexpt: match s.sexpt {
            SexpT::Atom(a) => SexpTView::Atom(a@),
            SexpT::List(v) => SexpTView::List(
                Seq::new(
                    v@.len(),
                    |i: int|
                        if 0 <= i < v@.len() {
                            sexp_view(v@[i])
                        } else {
                            SexpView::nil()
                        },
                ),
            ),
        },
        pos: s.pos,
    }
}

impl View for Sexp {
    type V = SexpView;

    open spec fn view(&self) -> SexpView {
        sexp_view(*self)
    }
}

impl View for SexpT {
    type V = SexpTView;

    open spec fn view(&self) -> SexpTView {
        sexp_view(Sexp { sexpt: *self, pos: Position(0, 0) }).sexpt
    }
}

/// The values of the items of `v`, in order.
pub open spec fn items_view(v: Seq<Sexp>) -> Seq<SexpView> {
    Seq::new(v.len(), |i: int| v[i]@)
}

impl SexpView {
    /// The empty list, at no position.
    pub open spec fn nil() -> SexpView {
        SexpView { sexpt: SexpTView::List(Seq::empty()), pos: Position(0, 0) }
    }

    /// An atom at no position.
    pub open spec fn atom(a: AtomView) -> SexpView {
        SexpView { sexpt: SexpTView::Atom(a), pos: Position(0, 0) }
    }

    /// This value with every position in it set to line 0, column 0: what is
    /// left when two values are compared without regard to place.
    pub open spec fn unplaced(self) -> SexpView
        decreases self,
    {
        SexpView {
            sexpt: match self.sexpt {
                SexpTView::Atom(a) => SexpTView::Atom(a),
                SexpTView::List(items) => SexpTView::List(
                    Seq::new(
                        items.len(),
                        |i: int|
                            if 0 <= i < items.len() {
                                items[i].unplaced()
                            } else {
                                SexpView::nil()
                            },
                    ),
                ),
            },
            pos: Position(0, 0),
        }
    }
}

/// The value of a list is the list of the values of its items.
pub proof fn lemma_view_list(s: Sexp)
    requires
        s.sexpt is List,
    ensures
        s@.pos == s.pos,
        s@.sexpt == SexpTView::List(items_view(s.sexpt->List_0@)),
        s.sexpt@ == s@.sexpt,
{
    let v = s.sexpt->List_0;
    assert(s@.sexpt->List_0 =~= items_view(v@));
    let t = Sexp { sexpt: s.sexpt, pos: Position(0, 0) };
    assert(t@.sexpt->List_0 =~= items_view(v@));
}

/// The value of an S-expression is the value of what it is, at its position.
pub proof fn lemma_view_parts(s: Sexp)
    ensures
        s@ == (SexpView { sexpt: s.sexpt@, pos: s.pos }),
{
    match s.sexpt {
        SexpT::Atom(_) => lemma_view_atom(s),
        SexpT::List(_) => lemma_view_list(s),
    }
}

/// The value of an atom is the value of what it holds.
pub proof fn lemma_view_atom(s: Sexp)
    requires
        s.sexpt is Atom,
    ensures
        s@.pos == s.pos,
        s@.sexpt == SexpTView::Atom(s.sexpt->Atom_0@),
        s.sexpt@ == s@.sexpt,
{
}

impl Clone for Atom {
    /// A copy with the same value.
    fn clone(&self) -> (r: Self)
        ensures
            r@ == self@,
    {
        match self {
            Atom::Symbol(s) => Atom::Symbol(s.clone()),
            Atom::String(s) => Atom::String(s.clone()),
            Atom::Integer(i) => Atom::Integer(*i),
            Atom::Float(s) => Atom::Float(s.clone()),
        }
    }
}

impl Clone for SexpT {
    /// A deep copy: the same value, positions included.
    fn clone(&self) -> (r: Self)
        ensures
            r@ == self@,
        decreases self,
    {
        match self {
            SexpT::Atom(a) => {
                let r = SexpT::Atom(a.clone());
                proof {
                    lemma_view_atom(Sexp { sexpt: r, pos: Position(0, 0) });
                    lemma_view_atom(Sexp { sexpt: *self, pos: Position(0, 0) });
                }
                r
            },
            SexpT::List(v) => {
                let mut out: Vec<Sexp> = Vec::new();
                let mut i: usize = 0;
                while i < v.len()
                    invariant
                        i <= v.len(),
                        out.len() == i,
                        *self == SexpT::List(*v),
                        forall|k: int| 0 <= k < i ==> out@[k]@ == v@[k]@,
                    decreases v.len() - i,
                {
                    proof {
                        vstd::std_specs::vec::axiom_vec_index_decreases(*v, i as int);
                        assert(decreases_to!(*self => self->List_0));
                        assert(decreases_to!(*self => v[i as int]));
                    }
                    let c = v[i].clone();
                    out.push(c);
                    i += 1;
                }
                let r = SexpT::List(out);
                proof {
                    lemma_view_list(Sexp { sexpt: r, pos: Position(0, 0) });
                    lemma_view_list(Sexp { sexpt: *self, pos: Position(0, 0) });
                    assert(items_view(out@) =~= items_view(v@));
                }
                r
            },
        }
    }
}

impl Clone for Sexp {
    /// A deep copy: the same value, positions included.
    fn clone(&self) -> (r: Self)
        ensures
            r@ == self@,
        decreases self,
    {
        let r = Sexp { sexpt: self.sexpt.clone(), pos: self.pos };
        proof {
            lemma_view_parts(r);
            lemma_view_parts(*self);
        }
        r
    }
}

impl Sexp {
    /// The S-expression `sexpt` at `line` and `column`.
    pub fn new(sexpt: SexpT, line: usize, column: usize) -> (s: Self)
        ensures
            s.sexpt == sexpt,
            s.pos == Position(line, column),
    {
        Self { sexpt, pos: Position::new(line, column) }
    }
}

/// The S-expression `sexpt` at no position: line 0, column 0.
pub fn independant_sexp(sexpt: SexpT) -> (s: Sexp)
    ensures
        s.sexpt == sexpt,
        s.pos == Position(0, 0),
{
    Sexp::new(sexpt, 0, 0)
}

/// The value of an S-expression or failure.
pub open spec fn read_view(r: Result<Sexp, Error>) -> Result<SexpView, ErrorView> {
    match r {
        Ok(s) => Ok(s@),
        Err(e) => Err(e@),
    }
}

/// The atom that a token stands for, at the token's position; a token that
/// is a parenthesis stands for none.
pub open spec fn atom_of(t: TokenView) -> Option<SexpView> {
    let at = |a: AtomView|
        Some(SexpView { sexpt: SexpTView::Atom(a), pos: Position(t.line, t.column) });
    match t.ttype {
        TTypeView::Symbol(s) => at(AtomView::Symbol(s)),
        TTypeView::String(s) => at(AtomView::String(s)),
        TTypeView::Integer(i) => at(AtomView::Integer(i)),
        TTypeView::Float(s) => at(AtomView::Float(s)),
        TTypeView::LParen => None,
        TTypeView::RParen => None,
    }
}

/// What reading one S-expression from index `i` of `src` gives, and the
/// index that reading stops at.
///
/// The next token decides: an atom token is that atom; an opening
/// parenthesis begins a list, read by [`read_list`]; a closing one is
/// `UnexpectedClosingParen`; a failure of the tokenizer is handed on; and the
/// end of the input is `UnexpectedEOF`.
///
/// A token always ends behind where it began and within the input
/// ([`lemma_token_at_progress`]). The list is read under that condition,
/// which therefore always holds, so that the definition is seen to end.
pub open spec fn read_at(src: Seq<char>, i: int) -> (Result<SexpView, ErrorView>, int)
    decreases src.len() - i, 0int,
{
    let j = token_at(src, i).1;
    match token_at(src, i).0 {
        None => (Err(ErrorView::ReadError(ReadErrorView::UnexpectedEOF)), j),
        Some(Err(e)) => (Err(e), j),
        Some(Ok(t)) => match t.ttype {
            TTypeView::LParen => if i < j <= src.len() {
                read_list(src, j, Position(t.line, t.column), Seq::empty())
            } else {
                (Err(ErrorView::ReadError(ReadErrorView::UnexpectedEOF)), j)
            },
            TTypeView::RParen => (
                Err(
                    ErrorView::ReadError(
                        ReadErrorView::UnexpectedClosingParen(Position(t.line, t.column)),
                    ),
                ),
                j,
            ),
            _ => (Ok(atom_of(t)->0), j),
        },
    }
}

/// What reading the rest of a list from index `i` of `src` gives, and the
/// index that reading stops at. The list opened at `open`, and `items` are
/// its items read so far.
///
/// A closing parenthesis ends the list; the end of the input is
/// `UnclosedParen` at `open`; a failure of the tokenizer is handed on; and
/// anything else is the next item, read by [`read_at`], whose failure is the
/// failure of the whole list.
///
/// An item always ends behind where it began and within the input
/// ([`lemma_read_progress`]). The rest of the list is read under that
/// condition, which therefore always holds, so that the definition is seen
/// to end.
pub open spec fn read_list(src: Seq<char>, i: int, open: Position, items: Seq<SexpView>) -> (
    Result<SexpView, ErrorView>,
    int,
)
    decreases src.len() - i, 1int,
{
    let j = token_at(src, i).1;
    match token_at(src, i).0 {
        None => (Err(ErrorView::ReadError(ReadErrorView::UnclosedParen(open))), j),
        Some(Err(e)) => (Err(e), j),
        Some(Ok(t)) => if t.ttype is RParen {
            (Ok(SexpView { sexpt: SexpTView::List(items), pos: open }), j)
        } else {
            let k = read_at(src, i).1;
            match read_at(src, i).0 {
                Err(e) => (Err(e), k),
                Ok(item) => if i < k <= src.len() {
                    read_list(src, k, open, items.push(item))
                } else {
                    (Err(ErrorView::ReadError(ReadErrorView::UnclosedParen(open))), k)
                },
            }
        },
    }
}

/// Reading from within the input stops within the input, and a reading that
/// found anything but the end of the input has used up a character at least.
pub proof fn lemma_read_progress(src: Seq<char>, i: int)
    requires
        0 <= i <= src.len(),
    ensures
        i <= read_at(src, i).1 <= src.len(),
        token_at(src, i).0 is Some ==> i < read_at(src, i).1,
    decreases src.len() - i, 0int,
{
    lemma_token_at_progress(src, i);
    let j = token_at(src, i).1;
    match token_at(src, i).0 {
        Some(Ok(t)) => {
            if t.ttype is LParen {
                lemma_read_list_progress(src, j, Position(t.line, t.column), Seq::empty());
            }
        },
        _ => {},
    }
}

/// Reading the rest of a list from within the input stops within the input.
pub proof fn lemma_read_list_progress(
    src: Seq<char>,
    i: int,
    open: Position,
    items: Seq<SexpView>,
)
    requires
        0 <= i <= src.len(),
    ensures
        i <= read_list(src, i, open, items).1 <= src.len(),
    decreases src.len() - i, 1int,
{
    lemma_token_at_progress(src, i);
    match token_at(src, i).0 {
        Some(Ok(t)) => {
            if !(t.ttype is RParen) {
                lemma_read_progress(src, i);
                let k = read_at(src, i).1;
                match read_at(src, i).0 {
                    Ok(item) => {
                        lemma_read_list_progress(src, k, open, items.push(item));
                    },
                    Err(_) => {},
                }
            }
        },
        _ => {},
    }
}

/// The reader: a tokenizer, and a look ahead in the text for the end of a
/// list.
#[derive(Debug)]
pub struct Parser<'src> {
    input: Lexer<'src>,
}

impl<'src> Parser<'src> {
    /// The source text.
    pub closed spec fn source(&self) -> Seq<char> {
        self.input.source()
    }

    /// The cursor: the index in the source that the next reading begins at.
    pub closed spec fn position(&self) -> int {
        self.input.offset()
    }

    /// A reader at the start of `input`.
    pub fn new(input: &'src str) -> (parser: Self)
        ensures
            parser.source() == input@,
            parser.position() == 0,
    {
        Self { input: Lexer::new(input) }
    }

    /// Reads one S-expression and leaves the cursor behind it.
    ///
    /// An atom token gives that atom at the token's position. An opening
    /// parenthesis gives the list of the S-expressions up to the parenthesis
    /// that closes it, at the position of the opening one. The failures are
    /// `UnexpectedEOF` where the input holds no further token,
    /// `UnexpectedClosingParen` for a closing parenthesis that closes
    /// nothing, `UnclosedParen` where the input ends inside a list, and
    /// whatever the tokenizer reports. After a failure nothing of the list
    /// in hand is returned.
    ///
    /// Every call stops within the source. It moves the cursor forward, but
    /// for `UnexpectedEOF`, which comes with the cursor at the end of the
    /// source: so a caller that reads until `UnexpectedEOF` comes to an end.
    pub fn read(&mut self) -> (r: Result<Sexp, Error>)
        ensures
            final(self).source() == old(self).source(),
            (read_view(r), final(self).position()) == read_at(
                old(self).source(),
                old(self).position(),
            ),
            0 <= old(self).position() <= final(self).position() <= old(self).source().len(),
            read_view(r) == Err::<SexpView, ErrorView>(
                ErrorView::ReadError(ReadErrorView::UnexpectedEOF),
            ) ==> final(self).position() == old(self).source().len(),
            read_view(r) != Err::<SexpView, ErrorView>(
                ErrorView::ReadError(ReadErrorView::UnexpectedEOF),
            ) ==> old(self).position() < final(self).position(),
        decreases old(self).source().len() - old(self).position(),
    {
        let ghost src = self.source();
        let ghost from = self.position();
        let first = self.input.next();
        proof {
            lemma_token_at_progress(src, from);
            lemma_read_progress(src, from);
        }
        match first {
            None => Err(Error::ReadError(ReadError::UnexpectedEOF)),
            Some(Err(e)) => Err(e),
            Some(Ok(Token { ttype, line, column })) => match ttype {
                TType::LParen => {
                    let mut content: Vec<Sexp> = Vec::new();
                    assert(items_view(content@) =~= Seq::empty());
                    loop
                        invariant
                            self.source() == src,
                            src == old(self).source(),
                            from == old(self).position(),
                            0 <= from < self.position() <= src.len(),
                            read_list(
                                src,
                                self.position(),
                                Position(line, column),
                                items_view(content@),
                            ) == read_at(src, from),
                        decreases src.len() - self.position(),
                    {
                        let ghost at = self.position();
                        let ghost items = items_view(content@);
                        proof {
                            lemma_token_at_progress(src, at);
                            lemma_read_progress(src, at);
                            lemma_skip_spaces(src, at);
                        }
                        match self.input.peek_token_start() {
                            None => {
                                let _ = self.input.next();
                                return Err(
                                    Error::ReadError(
                                        ReadError::UnclosedParen(Position(line, column)),
                                    ),
                                );
                            },
                            Some(')') => {
                                let _ = self.input.next();
                                let s = Sexp::new(SexpT::List(content), line, column);
                                proof {
                                    lemma_view_list(s);
                                }
                                return Ok(s);
                            },
                            Some(_) => {
                                match self.read() {
                                    Ok(item) => {
                                        content.push(item);
                                        assert(items_view(content@) =~= items.push(item@));
                                    },
                                    Err(e) => {
                                        return Err(e);
                                    },
                                }
                            },
                        }
                    }
                },
                TType::RParen => Err(
                    Error::ReadError(ReadError::UnexpectedClosingParen(Position(line, column))),
                ),
                TType::Symbol(s) => Ok(Sexp::new(SexpT::Atom(Atom::Symbol(s)), line, column)),
                TType::String(s) => Ok(Sexp::new(SexpT::Atom(Atom::String(s)), line, column)),
                TType::Integer(i) => Ok(Sexp::new(SexpT::Atom(Atom::Integer(i)), line, column)),
                TType::Float(f) => Ok(Sexp::new(SexpT::Atom(Atom::Float(f)), line, column)),
            },
        }
    }
}

} // verus!
