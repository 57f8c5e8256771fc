//! The evaluator: primitive names, arity, and the dispatch of forms.

use vstd::prelude::*;
use crate::builtins::quote;
use crate::errors::{Error, ErrorView, EvalError, EvalErrorView};
use crate::parser::Position;
use crate::parser::parser::{
    lemma_view_atom, lemma_view_list, read_view, Atom, AtomView, Sexp, SexpT, SexpTView,
    SexpView,
};

verus! {

/// The names that the evaluator knows as primitives. A symbol that is one of
/// them evaluates to itself.
#[derive(Debug, PartialEq, Eq, Clone, Copy, Structural)]
pub enum Primitive {
    Car,
    Cdr,
    Cons,
    Atom,
    Quote,
    Lambda,
    Cond,
    Eq,
}

/// The forms that the evaluator carries out when their name heads a list.
#[derive(Debug, PartialEq, Eq, Clone, Copy, Structural)]
pub enum Form {
    Eval,
    Quote,
}

/// The primitive that `name` names, if it names one.
pub open spec fn primitive_named(name: Seq<char>) -> Option<Primitive> {
    if name == "car"@ {
        Some(Primitive::Car)
    } else if name == "cdr"@ {
        Some(Primitive::Cdr)
    } else if name == "cons"@ {
        Some(Primitive::Cons)
    } else if name == "atom"@ {
        Some(Primitive::Atom)
    } else if name == "quote"@ {
        Some(Primitive::Quote)
    } else if name == "lambda"@ {
        Some(Primitive::Lambda)
    } else if name == "cond"@ {
        Some(Primitive::Cond)
    } else if name == "eq"@ {
        Some(Primitive::Eq)
    } else {
        None
    }
}

/// The form that `name` names, if it names one.
pub open spec fn form_named(name: Seq<char>) -> Option<Form> {
    if name == "eval"@ {
        Some(Form::Eval)
    } else if name == "quote"@ {
        Some(Form::Quote)
    } else {
        None
    }
}

/// The failure of a form `name` at `pos` that takes `expected` operands and
/// was given `given`.
pub open spec fn arity_mismatch(name: Seq<char>, given: int, expected: int, pos: Position)
    -> ErrorView {
    ErrorView::EvalError(
        EvalErrorView::ArityMismatch(name, given as usize, expected as usize, pos),
    )
}

/// The failure of a symbol `name` at `pos` that names nothing.
pub open spec fn unbound(name: Seq<char>, pos: Position) -> ErrorView {
    ErrorView::EvalError(EvalErrorView::UnboundSymbol(name, pos))
}

/// What `s` evaluates to.
///
/// A symbol that names a primitive, any other atom that is no symbol, and
/// the empty list evaluate to themselves; any other symbol is unbound. A
/// list is a form, named by its head. `quote` gives its one operand as it
/// stands. `eval` evaluates its one operand and then evaluates what that
/// gave, so that `(eval (quote x))` evaluates `x`. With another number of
/// operands either is an `ArityMismatch`. Any other name at the head is
/// unbound, and a head that is no symbol is an `IllegalFunctionCall`.
///
/// What an evaluation gives is always a part of what was evaluated
/// ([`lemma_eval_gives_a_part`]). The second evaluation of `eval` is written
/// under that condition, which therefore always holds, so that the
/// definition is seen to end.
pub open spec fn eval_of(s: SexpView) -> Result<SexpView, ErrorView>
    decreases s,
{
    match s.sexpt {
        SexpTView::Atom(AtomView::Symbol(name)) => if primitive_named(name) is Some {
            Ok(s)
        } else {
            Err(unbound(name, s.pos))
        },
        SexpTView::Atom(_) => Ok(s),
        SexpTView::List(items) => if items.len() == 0 {
            Ok(s)
        } else {
            let head = items[0];
            match head.sexpt {
                SexpTView::Atom(AtomView::Symbol(name)) => match form_named(name) {
                    Some(form) => if items.len() - 1 != 1 {
                        Err(arity_mismatch(name, items.len() - 1, 1, head.pos))
                    } else {
                        match form {
                            Form::Eval => match eval_of(items[1]) {
                                Ok(v) => if decreases_to!(s => v) {
                                    eval_of(v)
                                } else {
                                    Ok(v)
                                },
                                Err(e) => Err(e),
                            },
                            Form::Quote => Ok(items[1]),
                        }
                    },
                    None => Err(unbound(name, head.pos)),
                },
                _ => Err(ErrorView::EvalError(EvalErrorView::IllegalFunctionCall(head.pos))),
            }
        },
    }
}

/// What evaluating the outcome of a reading gives: a failure is handed on
/// as it is, an S-expression is evaluated.
pub open spec fn eval_result(ast: Result<SexpView, ErrorView>) -> Result<SexpView, ErrorView> {
    match ast {
        Ok(s) => eval_of(s),
        Err(e) => Err(e),
    }
}

/// What an evaluation gives is the value that was evaluated or a part of
/// it.
pub proof fn lemma_eval_gives_a_part(s: SexpView)
    ensures
        eval_of(s) matches Ok(v) ==> v == s || decreases_to!(s => v),
    decreases s,
{
    match s.sexpt {
        SexpTView::List(items) => {
            if items.len() == 2 {
                assert(decreases_to!(s => items[1]));
                lemma_eval_gives_a_part(items[1]);
                match eval_of(items[1]) {
                    Ok(v) => {
                        assert(decreases_to!(s => v));
                        lemma_eval_gives_a_part(v);
                    },
                    Err(_) => {},
                }
            }
        },
        _ => {},
    }
}

/// What the form `eval` gives: its operand evaluated, and what that gave
/// evaluated again.
pub proof fn lemma_eval_form(s: SexpView)
    requires
        s.sexpt is List,
        s.sexpt->List_0.len() == 2,
        s.sexpt->List_0[0].sexpt matches SexpTView::Atom(AtomView::Symbol(name)) && form_named(
            name,
        ) == Some(Form::Eval),
    ensures
        eval_of(s) == eval_result(eval_of(s.sexpt->List_0[1])),
{
    let items = s.sexpt->List_0;
    assert(decreases_to!(s => items[1]));
    lemma_eval_gives_a_part(items[1]);
}

/// Whether `a` is the text `b`.
fn is_text(a: &String, b: &str) -> (r: bool)
    ensures
        r == (a@ == b@),
{
    *a == String::from_str(b)
}

/// The primitive that `name` names, if it names one.
pub fn primitive_of(name: &String) -> (p: Option<Primitive>)
    ensures
        p == primitive_named(name@),
{
    if is_text(name, "car") {
        Some(Primitive::Car)
    } else if is_text(name, "cdr") {
        Some(Primitive::Cdr)
    } else if is_text(name, "cons") {
        Some(Primitive::Cons)
    } else if is_text(name, "atom") {
        Some(Primitive::Atom)
    } else if is_text(name, "quote") {
        Some(Primitive::Quote)
    } else if is_text(name, "lambda") {
        Some(Primitive::Lambda)
    } else if is_text(name, "cond") {
        Some(Primitive::Cond)
    } else if is_text(name, "eq") {
        Some(Primitive::Eq)
    } else {
        None
    }
}

/// The form that `name` names, if it names one.
pub fn form_of(name: &String) -> (f: Option<Form>)
    ensures
        f == form_named(name@),
{
    if is_text(name, "eval") {
        Some(Form::Eval)
    } else if is_text(name, "quote") {
        Some(Form::Quote)
    } else {
        None
    }
}

/// How many operands a form of `length` items has: all but the operator,
/// and none where the form is empty.
pub open spec fn operands(length: int) -> int {
    if length > 0 {
        length - 1
    } else {
        0
    }
}

/// Checks the number of operands of the form `name` at `pos`. `args` is the
/// whole form, the operator first. The check passes if and only if the
/// length of `args` less one is `expected`; else the failure is an
/// `ArityMismatch` with the number of operands that were given.
pub fn args_checker(name: String, expected: usize, args: Vec<Sexp>, pos: Position) -> (r: Result<
    (),
    Error,
>)
    ensures
        r is Ok <==> args.len() - 1 == expected,
        r matches Err(e) ==> e@ == arity_mismatch(
            name@,
            operands(args.len() as int),
            expected as int,
            pos,
        ),
{
    if args.len() == 0 {
        return Err(Error::EvalError(EvalError::ArityMismatch(name, 0, expected, pos)));
    }
    let amount = args.len() - 1;
    if amount == expected {
        Ok(())
    } else {
        Err(Error::EvalError(EvalError::ArityMismatch(name, amount, expected, pos)))
    }
}

/// Evaluates `sexp`, as [`eval`] does an S-expression.
pub fn eval_sexp(sexp: Sexp) -> (r: Result<Sexp, Error>)
    ensures
        read_view(r) == eval_of(sexp@),
    decreases sexp@,
{
    proof {
        if sexp.sexpt is List {
            lemma_view_list(sexp);
        } else {
            lemma_view_atom(sexp);
        }
    }
    let Sexp { sexpt, pos } = sexp;
    match sexpt {
        SexpT::Atom(Atom::Symbol(s)) => {
            if primitive_of(&s).is_some() {
                let r = Sexp { sexpt: SexpT::Atom(Atom::Symbol(s)), pos };
                Ok(r)
            } else {
                Err(Error::EvalError(EvalError::UnboundSymbol(s, pos)))
            }
        },
        SexpT::Atom(a) => Ok(Sexp { sexpt: SexpT::Atom(a), pos }),
        SexpT::List(v) => {
            if v.len() == 0 {
                return Ok(Sexp { sexpt: SexpT::List(v), pos });
            }
            proof {
                if v@[0].sexpt is List {
                    lemma_view_list(v@[0]);
                } else {
                    lemma_view_atom(v@[0]);
                }
            }
            let head_pos = v[0].pos;
            let form = match &v[0].sexpt {
                SexpT::Atom(Atom::Symbol(sn)) => {
                    match form_of(sn) {
                        Some(form) => {
                            if let Err(e) = args_checker(sn.clone(), 1, v.clone(), head_pos) {
                                return Err(e);
                            }
                            form
                        },
                        None => {
                            return Err(
                                Error::EvalError(EvalError::UnboundSymbol(sn.clone(), head_pos)),
                            );
                        },
                    }
                },
                _ => {
                    return Err(Error::EvalError(EvalError::IllegalFunctionCall(head_pos)));
                },
            };
            let mut v = v;
            let ghost whole = v;
            let operand = v.pop().unwrap();
            proof {
                assert(operand == whole@[1]);
                assert(sexp@.sexpt->List_0[1] == operand@);
                assert(decreases_to!(sexp@ => operand@));
                lemma_eval_gives_a_part(operand@);
            }
            match form {
                Form::Eval => match eval_sexp(operand) {
                    Ok(v) => eval_sexp(v),
                    Err(e) => Err(e),
                },
                Form::Quote => Ok(quote(operand)),
            }
        },
    }
}

/// Evaluates the outcome of a reading: a failure is handed on as it is, an
/// S-expression is evaluated.
///
/// A symbol that names a primitive, an atom that is no symbol, and the empty
/// list evaluate to themselves. `(quote x)` gives `x` as it stands, and
/// `(eval x)` evaluates `x` and then what that gave. The failures are
/// `UnboundSymbol` for a symbol
/// that names no primitive and for a list headed by a name that is no form,
/// `ArityMismatch` for a form with another number of operands than one, and
/// `IllegalFunctionCall` for a list whose head is no symbol.
pub fn eval(ast: Result<Sexp, Error>) -> (r: Result<Sexp, Error>)
    ensures
        read_view(r) == eval_result(read_view(ast)),
{
    match ast {
        Ok(sexp) => eval_sexp(sexp),
        Err(e) => Err(e),
    }
}

} // verus!
