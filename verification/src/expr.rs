//! Expressions with quote marks, built from a sequence of scanned tokens.
//!
//! A quote mark or an unquote mark before an expression wraps that
//! expression. The parser here works on tokens that are all at hand, and
//! its cursor is an index among them.

use vstd::prelude::*;
use crate::lexer::{Token, TokenView};
use crate::parser::Position;
use crate::parser::parser::{
    independant_sexp, items_view, lemma_view_atom, Atom as PlainAtom, AtomView as PlainAtomView,
    Sexp, SexpT, SexpTView, SexpView,
};
use crate::printer::{integer_text, push_integer};

verus! {

/// A leaf of an expression. A float is kept as its literal.
#[derive(Debug, PartialEq)]
pub enum Atom {
    Symbol(String),
    String(String),
    Integer(i64),
    Float(String),
}

/// An expression: an atom, a list, or an expression under a quote mark or
/// an unquote mark.
#[derive(Debug, PartialEq)]
pub enum Expr {
    Atom(Atom),
    List(Vec<Expr>),
    Quote(Box<Expr>),
    Unquote(Box<Expr>),
}

/// The mathematical value of an [`Atom`].
pub enum AtomView {
    Symbol(Seq<char>),
    String(Seq<char>),
    Integer(i64),
    Float(Seq<char>),
}

/// The mathematical value of an [`Expr`].
pub enum ExprView {
    Atom(AtomView),
    List(Seq<ExprView>),
    Quote(Box<ExprView>),
    Unquote(Box<ExprView>),
}

impl View for Atom {
    type V = AtomView;

    open spec fn view(&self) -> AtomView {
        match self {
            Atom::Symbol(s) => AtomView::Symbol(s@),
            Atom::String(s) => AtomView::String(s@),
            Atom::Integer(i) => AtomView::Integer(*i),
            Atom::Float(s) => AtomView::Float(s@),
        }
    }
}

/// The value of `e`: the values of its parts.
pub open spec fn expr_view(e: Expr) -> ExprView
    decreases e,
{
    match e {
        Expr::Atom(a) => ExprView::Atom(a@),
        Expr::List(v) => ExprView::List(
            Seq::new(
                v@.len(),
                |i: int|
                    if 0 <= i < v@.len() {
                        expr_view(v@[i])
                    } else {
                        ExprView::List(Seq::empty())
                    },
            ),
        ),
        Expr::Quote(b) => ExprView::Quote(Box::new(expr_view(*b))),
        Expr::Unquote(b) => ExprView::Unquote(Box::new(expr_view(*b))),
    }
}

impl View for Expr {
    type V = ExprView;

    open spec fn view(&self) -> ExprView {
        expr_view(*self)
    }
}

/// The values of the expressions `v`, in order.
pub open spec fn exprs_view(v: Seq<Expr>) -> Seq<ExprView> {
    Seq::new(v.len(), |i: int| v[i]@)
}

/// The values of the tokens `v`, in order.
pub open spec fn tokens_view(v: Seq<Token>) -> Seq<TokenView> {
    Seq::new(v.len(), |i: int| v[i]@)
}

/// The value of a list is the list of the values of its items.
pub proof fn lemma_view_list(v: Vec<Expr>)
    ensures
        Expr::List(v)@ == ExprView::List(exprs_view(v@)),
{
    assert(Expr::List(v)@->List_0 =~= exprs_view(v@));
}

impl Clone for Atom {
    /// A copy with the same value.
    fn clone(&self) -> (r: Self)
        ensures
            r@ == self@,
    {
        match self {
            Atom::Symbol(s) => Atom::Symbol(s.clone()),
            Atom::String(s) => Atom::String(s.clone()),
            Atom::Integer(i) => Atom::Integer(*i),
            Atom::Float(s) => Atom::Float(s.clone()),
        }
    }
}

impl Clone for Expr {
    /// A deep copy with the same value.
    fn clone(&self) -> (r: Self)
        ensures
            r@ == self@,
        decreases self,
    {
        match self {
            Expr::Atom(a) => Expr::Atom(a.clone()),
            Expr::List(v) => {
                let mut out: Vec<Expr> = Vec::new();
                let mut i: usize = 0;
                while i < v.len()
                    invariant
                        i <= v.len(),
                        out.len() == i,
                        *self == Expr::List(*v),
                        forall|k: int| 0 <= k < i ==> out@[k]@ == v@[k]@,
                    decreases v.len() - i,
                {
                    proof {
                        vstd::std_specs::vec::axiom_vec_index_decreases(*v, i as int);
                        assert(decreases_to!(*self => self->List_0));
                        assert(decreases_to!(*self => v[i as int]));
                    }
                    let c = v[i].clone();
                    out.push(c);
                    i += 1;
                }
                proof {
                    lemma_view_list(out);
                    lemma_view_list(*v);
                    assert(exprs_view(out@) =~= exprs_view(v@));
                }
                Expr::List(out)
            },
            Expr::Quote(b) => Expr::Quote(Box::new((&**b).clone())),
            Expr::Unquote(b) => Expr::Unquote(Box::new((&**b).clone())),
        }
    }
}

/// The atom of an S-expression that the atom `a` of an expression is. An
/// integer that 32 bits do not hold becomes the float that its digits write.
pub open spec fn plain_atom(a: AtomView) -> PlainAtomView {
    match a {
        AtomView::Symbol(s) => PlainAtomView::Symbol(s),
        AtomView::String(s) => PlainAtomView::String(s),
        AtomView::Integer(i) => if i32::MIN <= i <= i32::MAX {
            PlainAtomView::Integer(i as i32)
        } else {
            PlainAtomView::Float(integer_text(i as int))
        },
        AtomView::Float(s) => PlainAtomView::Float(s),
    }
}

/// The list of the symbol `name` and of `x`, at no position.
pub open spec fn marked(name: Seq<char>, x: SexpView) -> SexpView {
    SexpView {
        sexpt: SexpTView::List(
            seq![SexpView::atom(PlainAtomView::Symbol(name)), x],
        ),
        pos: Position(0, 0),
    }
}

/// The S-expression that the expression `e` is, with every position in it
/// at line 0, column 0: an atom is that atom, a list is the list of its
/// items, an expression under a quote mark is the list `(quote x)`, and one
/// under an unquote mark is the list `(unquote x)`.
pub open spec fn sexp_of(e: ExprView) -> SexpView
    decreases e,
{
    match e {
        ExprView::Atom(a) => SexpView::atom(plain_atom(a)),
        ExprView::List(items) => SexpView {
            sexpt: SexpTView::List(
                Seq::new(
                    items.len(),
                    |i: int|
                        if 0 <= i < items.len() {
                            sexp_of(items[i])
                        } else {
                            SexpView::nil()
                        },
                ),
            ),
            pos: Position(0, 0),
        },
        ExprView::Quote(x) => marked("quote"@, sexp_of(*x)),
        ExprView::Unquote(x) => marked("unquote"@, sexp_of(*x)),
    }
}

impl Atom {
    /// The atom of an S-expression that this atom is.
    pub fn to_atom(&self) -> (a: PlainAtom)
        ensures
            a@ == plain_atom(self@),
    {
        match self {
            Atom::Symbol(s) => PlainAtom::Symbol(s.clone()),
            Atom::String(s) => PlainAtom::String(s.clone()),
            Atom::Integer(i) => {
                if -0x8000_0000i64 <= *i && *i <= 0x7fff_ffffi64 {
                    PlainAtom::Integer(*i as i32)
                } else {
                    let mut digits = String::new();
                    push_integer(&mut digits, *i);
                    assert(digits@ =~= integer_text(*i as int));
                    PlainAtom::Float(digits)
                }
            },
            Atom::Float(s) => PlainAtom::Float(s.clone()),
        }
    }
}

/// The list of the symbol `name` and of `x`, at no position.
fn mark(name: &str, x: Sexp) -> (r: Sexp)
    ensures
        r@ == marked(name@, x@),
{
    let head = independant_sexp(
        SexpT::Atom(PlainAtom::Symbol(String::from_str(name))),
    );
    proof {
        lemma_view_atom(head);
    }
    let mut v: Vec<Sexp> = Vec::new();
    v.push(head);
    v.push(x);
    let r = independant_sexp(SexpT::List(v));
    proof {
        crate::parser::parser::lemma_view_list(r);
        assert(items_view(v@) =~= seq![head@, x@]);
    }
    r
}

impl Expr {
    /// The S-expression that this expression is, with every position in it
    /// at line 0, column 0. An expression under a quote mark becomes the
    /// list `(quote x)`, one under an unquote mark the list `(unquote x)`.
    pub fn to_sexp(&self) -> (r: Sexp)
        ensures
            r@ == sexp_of(self@),
        decreases self,
    {
        match self {
            Expr::Atom(a) => {
                let r = independant_sexp(SexpT::Atom(a.to_atom()));
                proof {
                    lemma_view_atom(r);
                }
                r
            },
            Expr::List(v) => {
                let mut out: Vec<Sexp> = Vec::new();
                let mut i: usize = 0;
                while i < v.len()
                    invariant
                        i <= v.len(),
                        out.len() == i,
                        *self == Expr::List(*v),
                        forall|k: int| 0 <= k < i ==> out@[k]@ == sexp_of(v@[k]@),
                    decreases v.len() - i,
                {
                    proof {
                        vstd::std_specs::vec::axiom_vec_index_decreases(*v, i as int);
                        assert(decreases_to!(*self => self->List_0));
                        assert(decreases_to!(*self => v[i as int]));
                    }
                    let c = v[i].to_sexp();
                    out.push(c);
                    i += 1;
                }
                let r = independant_sexp(SexpT::List(out));
                proof {
                    crate::parser::parser::lemma_view_list(r);
                    lemma_view_list(*v);
                    assert(r@.sexpt->List_0 =~= sexp_of(self@).sexpt->List_0);
                }
                r
            },
            Expr::Quote(b) => mark("quote", (&**b).to_sexp()),
            Expr::Unquote(b) => mark("unquote", (&**b).to_sexp()),
        }
    }
}

/// The expression that begins at index `i` of `tokens`, and the index
/// behind it; nothing where no whole expression begins there.
///
/// An atom token is that atom. A quote mark or an unquote mark wraps the
/// expression behind it. An opening parenthesis begins a list, read by
/// [`list_at`]. No expression begins with a closing parenthesis, nor at the
/// end of the tokens.
pub open spec fn expr_at(tokens: Seq<TokenView>, i: int) -> Option<(ExprView, int)>
    decreases tokens.len() - i, 0int,
{
    if 0 <= i < tokens.len() {
        match tokens[i] {
            TokenView::LParen => list_at(tokens, i + 1, Seq::empty()),
            TokenView::Quote => match expr_at(tokens, i + 1) {
                Some((e, j)) => Some((ExprView::Quote(Box::new(e)), j)),
                None => None,
            },
            TokenView::Unquote => match expr_at(tokens, i + 1) {
                Some((e, j)) => Some((ExprView::Unquote(Box::new(e)), j)),
                None => None,
            },
            TokenView::Symbol(s) => Some((ExprView::Atom(AtomView::Symbol(s)), i + 1)),
            TokenView::String(s) => Some((ExprView::Atom(AtomView::String(s)), i + 1)),
            TokenView::Int(n) => Some((ExprView::Atom(AtomView::Integer(n)), i + 1)),
            TokenView::Float(s) => Some((ExprView::Atom(AtomView::Float(s)), i + 1)),
            TokenView::RParen => None,
        }
    } else {
        None
    }
}

/// The list whose items before index `i` of `tokens` are `items`, and the
/// index behind its closing parenthesis; nothing where the tokens end
/// before the list does, or an item is no whole expression.
///
/// An expression always ends behind where it began and within the tokens
/// ([`lemma_expr_at_progress`]). The rest of the list is read under that
/// condition, which therefore always holds, so that the definition is seen
/// to end.
pub open spec fn list_at(tokens: Seq<TokenView>, i: int, items: Seq<ExprView>) -> Option<
    (ExprView, int),
>
    decreases tokens.len() - i, 1int,
{
    if 0 <= i < tokens.len() {
        if tokens[i] is RParen {
            Some((ExprView::List(items), i + 1))
        } else {
            match expr_at(tokens, i) {
                Some((e, j)) => if i < j <= tokens.len() {
                    list_at(tokens, j, items.push(e))
                } else {
                    None
                },
                None => None,
            }
        }
    } else {
        None
    }
}

/// The run of whole lists that `tokens` hold from index `i` on, and the
/// index that the run stops at: the end of the tokens, or the first place
/// where no whole list begins.
pub open spec fn lists_run(tokens: Seq<TokenView>, i: int) -> (Seq<ExprView>, int)
    decreases tokens.len() - i,
{
    if 0 <= i < tokens.len() {
        match expr_at(tokens, i) {
            Some((e, j)) => if e is List && i < j <= tokens.len() {
                (seq![e] + lists_run(tokens, j).0, lists_run(tokens, j).1)
            } else {
                (Seq::empty(), i)
            },
            None => (Seq::empty(), i),
        }
    } else {
        (Seq::empty(), i)
    }
}

/// An expression ends within the tokens, behind where it began.
pub proof fn lemma_expr_at_progress(tokens: Seq<TokenView>, i: int)
    ensures
        expr_at(tokens, i) matches Some((_, j)) ==> 0 <= i < j <= tokens.len(),
    decreases tokens.len() - i, 0int,
{
    if 0 <= i < tokens.len() {
        match tokens[i] {
            TokenView::LParen => lemma_list_at_progress(tokens, i + 1, Seq::empty()),
            TokenView::Quote => lemma_expr_at_progress(tokens, i + 1),
            TokenView::Unquote => lemma_expr_at_progress(tokens, i + 1),
            _ => {},
        }
    }
}

/// A list ends within the tokens, behind where its rest began.
pub proof fn lemma_list_at_progress(tokens: Seq<TokenView>, i: int, items: Seq<ExprView>)
    ensures
        list_at(tokens, i, items) matches Some((_, j)) ==> 0 <= i < j <= tokens.len(),
    decreases tokens.len() - i, 1int,
{
    if 0 <= i < tokens.len() {
        if !(tokens[i] is RParen) {
            lemma_expr_at_progress(tokens, i);
            match expr_at(tokens, i) {
                Some((e, j)) => {
                    if i < j <= tokens.len() {
                        lemma_list_at_progress(tokens, j, items.push(e));
                    }
                },
                None => {},
            }
        }
    }
}

/// A parser over tokens that are all at hand.
#[derive(Debug)]
pub struct Parser {
    input: Vec<Token>,
    pub output: Vec<Expr>,
    curr: usize,
}

impl Parser {
    /// The tokens.
    pub closed spec fn tokens(&self) -> Seq<TokenView> {
        tokens_view(self.input@)
    }

    /// The cursor: how many tokens are used up.
    pub closed spec fn cursor(&self) -> int {
        self.curr as int
    }

    /// The expressions read so far.
    pub closed spec fn outputs(&self) -> Seq<ExprView> {
        exprs_view(self.output@)
    }

    /// A parser at the start of `input`, with no output yet.
    pub fn new(input: Vec<Token>) -> (parser: Self)
        ensures
            parser.tokens() == tokens_view(input@),
            parser.cursor() == 0,
            parser.outputs().len() == 0,
    {
        Self { input, output: Vec::new(), curr: 0 }
    }


    /// Whether every token is used up.
    pub fn is_eof(&self) -> (b: bool)
        ensures
            b == (self.cursor() >= self.tokens().len()),
    {
        self.curr >= self.input.len()
    }

    /// The token at the cursor, which is not used up.
    pub fn peek(&self) -> (t: Token)
        requires
            self.cursor() < self.tokens().len(),
        ensures
            t@ == self.tokens()[self.cursor()],
    {
        self.input[self.curr].clone()
    }

    /// Uses up the token at the cursor and gives it.
    pub fn consume(&mut self) -> (t: Token)
        requires
            old(self).cursor() < old(self).tokens().len(),
        ensures
            final(self).tokens() == old(self).tokens(),
            final(self).outputs() == old(self).outputs(),
            final(self).cursor() == old(self).cursor() + 1,
            t@ == old(self).tokens()[old(self).cursor()],
    {
        assert(self.curr < self.input.len());
        self.curr = self.curr + 1;
        self.input[self.curr - 1].clone()
    }

    /// Uses up the token at the cursor, which is `predicate`, and gives it.
    pub fn consume_and_check(&mut self, predicate: Token) -> (t: Token)
        requires
            old(self).cursor() < old(self).tokens().len(),
            old(self).tokens()[old(self).cursor()] == predicate@,
        ensures
            final(self).tokens() == old(self).tokens(),
            final(self).outputs() == old(self).outputs(),
            final(self).cursor() == old(self).cursor() + 1,
            t@ == predicate@,
    {
        assert(self.curr < self.input.len());
        self.curr = self.curr + 1;
        self.input[self.curr - 1].clone()
    }

    /// Reads the expression at the cursor, if a whole expression begins
    /// there, and leaves the cursor behind it. Where none does, the result
    /// is nothing and the cursor stays.
    pub fn try_parse_expr(&mut self) -> (r: Option<Expr>)
        ensures
            final(self).tokens() == old(self).tokens(),
            final(self).outputs() == old(self).outputs(),
            match expr_at(old(self).tokens(), old(self).cursor()) {
                Some((e, j)) => r matches Some(x) && x@ == e && final(self).cursor() == j,
                None => r is None && final(self).cursor() == old(self).cursor(),
            },
        decreases old(self).tokens().len() - old(self).cursor(),
    {
        let ghost tokens = self.tokens();
        let ghost from = self.cursor();
        proof {
            lemma_expr_at_progress(tokens, from);
        }
        if self.is_eof() {
            return None;
        }
        let start = self.curr;
        let ct = self.consume();
        let r = match ct {
            Token::LParen => {
                let mut args: Vec<Expr> = Vec::new();
                let mut list: Option<Expr> = None;
                assert(exprs_view(args@) =~= Seq::empty());
                while !self.is_eof()
                    invariant
                                    self.tokens() == tokens,
                        tokens == old(self).tokens(),
                        from == old(self).cursor(),
                        self.outputs() == old(self).outputs(),
                        from < self.cursor() <= tokens.len(),
                        start == from,
                        match list {
                            Some(x) => expr_at(tokens, from) == Some((x@, self.cursor())),
                            None => list_at(tokens, self.cursor(), exprs_view(args@)) == expr_at(
                                tokens,
                                from,
                            ),
                        },
                    ensures
                                    self.tokens() == tokens,
                        self.outputs() == old(self).outputs(),
                        start == from,
                        match list {
                            Some(x) => expr_at(tokens, from) == Some((x@, self.cursor())),
                            None => expr_at(tokens, from) is None,
                        },
                    decreases tokens.len() - self.cursor(),
                {
                    let ghost at = self.cursor();
                    let ghost items = exprs_view(args@);
                    proof {
                        lemma_expr_at_progress(tokens, at);
                    }
                    if list.is_some() {
                        break;
                    }
                    match &self.input[self.curr] {
                        Token::RParen => {
                            let _ = self.consume();
                            proof {
                                lemma_view_list(args);
                            }
                            list = Some(Expr::List(args));
                            break;
                        },
                        _ => {},
                    }
                    match self.try_parse_expr() {
                        Some(e) => {
                            args.push(e);
                            assert(exprs_view(args@) =~= items.push(e@));
                        },
                        None => {
                            break;
                        },
                    }
                }
                list
            },
            Token::Quote => match self.try_parse_expr() {
                Some(e) => Some(Expr::Quote(Box::new(e))),
                None => None,
            },
            Token::Unquote => match self.try_parse_expr() {
                Some(e) => Some(Expr::Unquote(Box::new(e))),
                None => None,
            },
            Token::Symbol(s) => Some(Expr::Atom(Atom::Symbol(s))),
            Token::String(s) => Some(Expr::Atom(Atom::String(s))),
            Token::Int(i) => Some(Expr::Atom(Atom::Integer(i))),
            Token::Float(f) => Some(Expr::Atom(Atom::Float(f))),
            Token::RParen => None,
        };
        if r.is_none() {
            self.curr = start;
        }
        r
    }

    /// Reads the expression at the cursor and leaves the cursor behind it.
    /// A whole expression must begin at the cursor.
    pub fn parse_expr(&mut self) -> (r: Expr)
        requires
            expr_at(old(self).tokens(), old(self).cursor()) is Some,
        ensures
            final(self).tokens() == old(self).tokens(),
            final(self).outputs() == old(self).outputs(),
            (r@, final(self).cursor()) == expr_at(old(self).tokens(), old(self).cursor())->0,
    {
        self.try_parse_expr().unwrap()
    }

    /// Reads whole lists from the cursor on and adds them to `output`, up to
    /// the end of the tokens or to the first place where no whole list
    /// begins, and leaves the cursor there. The result says whether that is
    /// the end of the tokens.
    pub fn try_parse(&mut self) -> (done: bool)
        ensures
            final(self).tokens() == old(self).tokens(),
            final(self).outputs() == old(self).outputs() + lists_run(
                old(self).tokens(),
                old(self).cursor(),
            ).0,
            final(self).cursor() == lists_run(old(self).tokens(), old(self).cursor()).1,
            done == (final(self).cursor() >= old(self).tokens().len()),
    {
        let ghost tokens = self.tokens();
        let ghost before = self.outputs();
        let ghost from = self.cursor();
        let ghost mut read: Seq<ExprView> = Seq::empty();
        assert(before + read =~= before);
        while !self.is_eof()
            invariant
                    self.tokens() == tokens,
                tokens == old(self).tokens(),
                from == old(self).cursor(),
                before == old(self).outputs(),
                self.outputs() == before + read,
                lists_run(tokens, from) == (
                    read + lists_run(tokens, self.cursor()).0,
                    lists_run(tokens, self.cursor()).1,
                ),
            decreases tokens.len() - self.cursor(),
        {
            let ghost at = self.cursor();
            proof {
                lemma_expr_at_progress(tokens, at);
            }
            let start = self.curr;
            match self.try_parse_expr() {
                Some(Expr::List(v)) => {
                    let e = Expr::List(v);
                    let ghost out = self.output@;
                    self.output.push(e);
                    proof {
                        assert(exprs_view(self.output@) =~= exprs_view(out).push(e@));
                        let rest = lists_run(tokens, self.cursor()).0;
                        assert(read + (seq![e@] + rest) =~= read.push(e@) + rest);
                        read = read.push(e@);
                        assert(self.outputs() =~= before + read);
                    }
                },
                _ => {
                    self.curr = start;
                    proof {
                        assert(read + Seq::<ExprView>::empty() =~= read);
                    }
                    return false;
                },
            }
        }
        proof {
            assert(read + Seq::<ExprView>::empty() =~= read);
        }
        true
    }

    /// Reads lists up to the end of the tokens and adds them to `output`.
    /// The tokens from the cursor on must be a run of whole lists.
    pub fn parse(&mut self)
        requires
            lists_run(old(self).tokens(), old(self).cursor()).1 >= old(self).tokens().len(),
        ensures
            final(self).tokens() == old(self).tokens(),
            final(self).cursor() >= old(self).tokens().len(),
            final(self).outputs() == old(self).outputs() + lists_run(
                old(self).tokens(),
                old(self).cursor(),
            ).0,
    {
        let _ = self.try_parse();
    }
}

} // verus!
