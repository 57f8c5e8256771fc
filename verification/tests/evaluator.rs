use sexpr::builtins::{atom, car, cdr, cons, eq, quote, same};
use sexpr::errors::{Error, EvalError, ReadError};
use sexpr::eval::{args_checker, eval, eval_sexp, form_of, primitive_of, Form, Primitive};
use sexpr::parser::parser::{independant_sexp, Atom, Parser, Sexp, SexpT};
use sexpr::parser::Position;

fn read(text: &str) -> Result<Sexp, Error> {
    Parser::new(text).read()
}

fn sym(name: &str) -> Sexp {
    independant_sexp(SexpT::Atom(Atom::Symbol(name.to_string())))
}

fn num(value: i32) -> Sexp {
    independant_sexp(SexpT::Atom(Atom::Integer(value)))
}

fn list(items: Vec<Sexp>) -> Sexp {
    independant_sexp(SexpT::List(items))
}

fn eval_error(e: EvalError) -> Error {
    Error::EvalError(e)
}

#[test]
fn eval_quote_returns_operand_unevaluated() {
    let r = eval(read("(quote (1 2 3))"));
    let expected = Sexp::new(
        SexpT::List(vec![
            Sexp::new(SexpT::Atom(Atom::Integer(1)), 1, 9),
            Sexp::new(SexpT::Atom(Atom::Integer(2)), 1, 11),
            Sexp::new(SexpT::Atom(Atom::Integer(3)), 1, 13),
        ]),
        1,
        8,
    );
    assert_eq!(r, Ok(expected));
}

#[test]
fn eval_quote_does_not_evaluate_unbound_symbol() {
    let r = eval(read("(quote x)"));
    assert_eq!(r, Ok(Sexp::new(SexpT::Atom(Atom::Symbol("x".to_string())), 1, 8)));
}

#[test]
fn eval_of_quoted_unbound_symbol_fails() {
    let r = eval(read("(eval (quote x)))"));
    assert_eq!(
        r,
        Err(eval_error(EvalError::UnboundSymbol("x".to_string(), Position(1, 14))))
    );
}

#[test]
fn eval_evaluates_its_operand() {
    assert_eq!(
        eval(read("(eval x)")),
        Err(eval_error(EvalError::UnboundSymbol("x".to_string(), Position(1, 7))))
    );
    assert_eq!(
        eval(read("(eval car)")),
        Ok(Sexp::new(SexpT::Atom(Atom::Symbol("car".to_string())), 1, 7))
    );
    assert_eq!(
        eval(read("(eval (eval 5))")),
        Ok(Sexp::new(SexpT::Atom(Atom::Integer(5)), 1, 13))
    );
}

#[test]
fn eval_quote_without_operand_is_arity_mismatch() {
    assert_eq!(
        eval(read("(quote)")),
        Err(eval_error(EvalError::ArityMismatch("quote".to_string(), 0, 1, Position(1, 2))))
    );
}

#[test]
fn eval_with_two_operands_is_arity_mismatch() {
    assert_eq!(
        eval(read("(eval 1 2)")),
        Err(eval_error(EvalError::ArityMismatch("eval".to_string(), 2, 1, Position(1, 2))))
    );
    assert_eq!(
        eval(read("(quote a b c)")),
        Err(eval_error(EvalError::ArityMismatch("quote".to_string(), 3, 1, Position(1, 2))))
    );
}

#[test]
fn eval_passes_errors_through() {
    let e = Error::ReadError(ReadError::UnclosedParen(Position(3, 4)));
    assert_eq!(eval(Err(e.clone())), Err(e));
    let e = eval_error(EvalError::IllegalFunctionCall(Position(1, 1)));
    assert_eq!(eval(Err(e.clone())), Err(e));
    assert_eq!(
        eval(read("(")),
        Err(Error::ReadError(ReadError::UnclosedParen(Position(1, 1))))
    );
}

#[test]
fn eval_atoms() {
    assert_eq!(eval(read("42")), read("42"));
    assert_eq!(eval(read("\"s\"")), read("\"s\""));
    assert_eq!(eval(read("1.5")), read("1.5"));
    for name in ["car", "cdr", "cons", "atom", "quote", "lambda", "cond", "eq"] {
        assert_eq!(eval(read(name)), read(name));
    }
    assert_eq!(
        eval(read(" foo")),
        Err(eval_error(EvalError::UnboundSymbol("foo".to_string(), Position(1, 2))))
    );
    assert_eq!(
        eval(read("eval")),
        Err(eval_error(EvalError::UnboundSymbol("eval".to_string(), Position(1, 1))))
    );
}

#[test]
fn eval_empty_list_is_itself() {
    assert_eq!(eval(read("()")), read("()"));
}

#[test]
fn eval_unimplemented_primitive_as_head_is_unbound() {
    assert_eq!(
        eval(read("(car (quote (1 2)))")),
        Err(eval_error(EvalError::UnboundSymbol("car".to_string(), Position(1, 2))))
    );
    assert_eq!(
        eval(read("(foo 1)")),
        Err(eval_error(EvalError::UnboundSymbol("foo".to_string(), Position(1, 2))))
    );
}

#[test]
fn eval_head_that_is_no_symbol_is_illegal_call() {
    assert_eq!(
        eval(read("(1 2)")),
        Err(eval_error(EvalError::IllegalFunctionCall(Position(1, 2))))
    );
    assert_eq!(
        eval(read("(\"f\" 2)")),
        Err(eval_error(EvalError::IllegalFunctionCall(Position(1, 2))))
    );
    assert_eq!(
        eval(read("( (quote a) 2)")),
        Err(eval_error(EvalError::IllegalFunctionCall(Position(1, 3))))
    );
}

#[test]
fn eval_sexp_agrees_with_eval() {
    let s = read("(quote (a))").unwrap();
    assert_eq!(eval_sexp(s.clone()), eval(Ok(s)));
}

#[test]
fn args_checker_counts_operands_without_operator() {
    let form = vec![sym("quote"), num(1)];
    assert_eq!(args_checker("quote".to_string(), 1, form.clone(), Position(1, 2)), Ok(()));
    assert_eq!(
        args_checker("quote".to_string(), 2, form.clone(), Position(1, 2)),
        Err(eval_error(EvalError::ArityMismatch("quote".to_string(), 1, 2, Position(1, 2))))
    );
    assert_eq!(
        args_checker("f".to_string(), 0, vec![sym("f")], Position(0, 0)),
        Ok(())
    );
    assert_eq!(
        args_checker("f".to_string(), 1, vec![sym("f")], Position(5, 6)),
        Err(eval_error(EvalError::ArityMismatch("f".to_string(), 0, 1, Position(5, 6))))
    );
}

#[test]
fn args_checker_fails_on_a_form_without_operator() {
    assert_eq!(
        args_checker("f".to_string(), 0, Vec::new(), Position(1, 1)),
        Err(eval_error(EvalError::ArityMismatch("f".to_string(), 0, 0, Position(1, 1))))
    );
    assert_eq!(
        args_checker("f".to_string(), 2, Vec::new(), Position(1, 1)),
        Err(eval_error(EvalError::ArityMismatch("f".to_string(), 0, 2, Position(1, 1))))
    );
}

#[test]
fn primitive_table() {
    assert_eq!(primitive_of(&"car".to_string()), Some(Primitive::Car));
    assert_eq!(primitive_of(&"cdr".to_string()), Some(Primitive::Cdr));
    assert_eq!(primitive_of(&"cons".to_string()), Some(Primitive::Cons));
    assert_eq!(primitive_of(&"atom".to_string()), Some(Primitive::Atom));
    assert_eq!(primitive_of(&"quote".to_string()), Some(Primitive::Quote));
    assert_eq!(primitive_of(&"lambda".to_string()), Some(Primitive::Lambda));
    assert_eq!(primitive_of(&"cond".to_string()), Some(Primitive::Cond));
    assert_eq!(primitive_of(&"eq".to_string()), Some(Primitive::Eq));
    assert_eq!(primitive_of(&"eval".to_string()), None);
    assert_eq!(primitive_of(&"CAR".to_string()), None);
    assert_eq!(primitive_of(&"".to_string()), None);
    assert_eq!(form_of(&"eval".to_string()), Some(Form::Eval));
    assert_eq!(form_of(&"quote".to_string()), Some(Form::Quote));
    assert_eq!(form_of(&"car".to_string()), None);
}

#[test]
fn car_of_empty_list_is_empty_list() {
    assert_eq!(car(list(Vec::new())), Ok(list(Vec::new())));
    let read_empty = read("  ()").unwrap();
    assert_eq!(car(read_empty), Ok(list(Vec::new())));
}

#[test]
fn car_of_atom_is_type_mismatch() {
    let a = Sexp::new(SexpT::Atom(Atom::Integer(3)), 2, 5);
    assert_eq!(
        car(a),
        Err(eval_error(EvalError::TypeMismatch(
            SexpT::Atom(Atom::Integer(3)),
            "list".to_string(),
            Position(2, 5)
        )))
    );
}

#[test]
fn car_returns_first_item() {
    let l = read("(a b c)").unwrap();
    assert_eq!(car(l), Ok(Sexp::new(SexpT::Atom(Atom::Symbol("a".to_string())), 1, 2)));
}

#[test]
fn cdr_returns_the_rest() {
    let l = read("(a b c)").unwrap();
    let rest = list(vec![
        Sexp::new(SexpT::Atom(Atom::Symbol("b".to_string())), 1, 4),
        Sexp::new(SexpT::Atom(Atom::Symbol("c".to_string())), 1, 6),
    ]);
    assert_eq!(cdr(l), Ok(rest));
    assert_eq!(cdr(list(vec![num(1)])), Ok(list(Vec::new())));
    assert_eq!(cdr(list(Vec::new())), Ok(list(Vec::new())));
}

#[test]
fn cdr_of_atom_is_type_mismatch() {
    assert_eq!(
        cdr(Sexp::new(SexpT::Atom(Atom::Symbol("x".to_string())), 1, 1)),
        Err(eval_error(EvalError::TypeMismatch(
            SexpT::Atom(Atom::Symbol("x".to_string())),
            "list".to_string(),
            Position(1, 1)
        )))
    );
}

#[test]
fn cons_prepends() {
    assert_eq!(cons(num(1), list(vec![num(2), num(3)])), Ok(list(vec![num(1), num(2), num(3)])));
    assert_eq!(cons(list(Vec::new()), list(Vec::new())), Ok(list(vec![list(Vec::new())])));
}

#[test]
fn cons_onto_atom_is_type_mismatch() {
    assert_eq!(
        cons(num(1), Sexp::new(SexpT::Atom(Atom::Integer(2)), 7, 8)),
        Err(eval_error(EvalError::TypeMismatch(
            SexpT::Atom(Atom::Integer(2)),
            "list".to_string(),
            Position(7, 8)
        )))
    );
}

#[test]
fn atom_tells_atoms_from_lists() {
    assert_eq!(atom(num(1)), sym("t"));
    assert_eq!(atom(read("\"s\"").unwrap()), sym("t"));
    assert_eq!(atom(list(vec![num(1)])), list(Vec::new()));
    assert_eq!(atom(list(Vec::new())), list(Vec::new()));
}

#[test]
fn eq_ignores_positions() {
    let a = read("(a (b 1 \"s\" 2.5) ())").unwrap();
    let b = read("\n\n   ( a\n(b   1 \"s\"  2.5 )( ) )").unwrap();
    assert_ne!(a, b);
    assert!(same(&a, &b));
    assert_eq!(eq(a, b), sym("t"));
}

#[test]
fn eq_of_a_tree_with_itself() {
    let a = read("(a (b c) 1)").unwrap();
    assert_eq!(eq(a.clone(), a), sym("t"));
}

#[test]
fn eq_tells_different_trees_apart() {
    let cases = [
        ("a", "b"),
        ("a", "\"a\""),
        ("1", "1.0"),
        ("1", "2"),
        ("1.0", "1.00"),
        ("(a b)", "(a b c)"),
        ("(a b)", "(a c)"),
        ("(a (b))", "(a b)"),
        ("()", "a"),
        ("(())", "()"),
    ];
    for (x, y) in cases {
        assert_eq!(eq(read(x).unwrap(), read(y).unwrap()), list(Vec::new()));
        assert_eq!(eq(read(y).unwrap(), read(x).unwrap()), list(Vec::new()));
    }
}

#[test]
fn quote_is_identity() {
    let a = read("(a b)").unwrap();
    assert_eq!(quote(a.clone()), a);
}
