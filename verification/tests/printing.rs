use sexpr::builtins::same;
use sexpr::errors::{Error, EvalError, ReadError};
use sexpr::eval::eval;
use sexpr::parser::parser::{independant_sexp, Atom, Parser, Sexp, SexpT};
use sexpr::parser::Position;
use sexpr::printer::{push_decimal, push_integer, push_position, show};

fn read(text: &str) -> Result<Sexp, Error> {
    Parser::new(text).read()
}

#[test]
fn decimal_text_of_numbers() {
    let mut out = String::new();
    push_decimal(&mut out, 0);
    assert_eq!(out, "0");
    let mut out = String::from("x");
    push_decimal(&mut out, 9);
    push_decimal(&mut out, 10);
    push_decimal(&mut out, 12345);
    assert_eq!(out, "x91012345");
    let mut out = String::new();
    push_decimal(&mut out, u64::MAX);
    assert_eq!(out, "18446744073709551615");
}

#[test]
fn integer_text_of_numbers() {
    let mut out = String::new();
    push_integer(&mut out, -5);
    assert_eq!(out, "-5");
    let mut out = String::new();
    push_integer(&mut out, i64::MIN);
    assert_eq!(out, "-9223372036854775808");
    let mut out = String::new();
    push_integer(&mut out, i64::MAX);
    assert_eq!(out, "9223372036854775807");
}

#[test]
fn position_text() {
    let mut out = String::new();
    push_position(&mut out, Position(12, 0));
    assert_eq!(out, " (12:0)");
}

#[test]
fn atom_texts() {
    assert_eq!(Atom::Symbol("foo".to_string()).to_string(), "foo");
    assert_eq!(Atom::String("a b".to_string()).to_string(), "\"a b\"");
    assert_eq!(Atom::Integer(-17).to_string(), "-17");
    assert_eq!(Atom::Integer(i32::MIN).to_string(), "-2147483648");
    assert_eq!(Atom::Integer(0).to_string(), "0");
    assert_eq!(Atom::Float("1.50".to_string()).to_string(), "1.50");
}

#[test]
fn sexp_texts() {
    assert_eq!(read("(a b c)").unwrap().to_string(), "(a b c)");
    assert_eq!(
        read("  ( a   (b\n1 ) ()  \"s\" 2.5 ) ").unwrap().to_string(),
        "(a (b 1) () \"s\" 2.5)"
    );
    assert_eq!(read("()").unwrap().to_string(), "()");
    assert_eq!(read("(())").unwrap().to_string(), "(())");
    assert_eq!(read("+007").unwrap().to_string(), "7");
    assert_eq!(independant_sexp(SexpT::List(Vec::new())).to_string(), "()");
}

#[test]
fn read_error_messages() {
    assert_eq!(
        ReadError::UnexpectedChar('#', Position(1, 3)).to_string(),
        "Unexpected character : '#' (1:3)"
    );
    assert_eq!(ReadError::UnclosedString(Position(2, 10)).to_string(), "Unclosed string (2:10)");
    assert_eq!(
        ReadError::IncorrectNumber("1.2.3".to_string(), Position(1, 1)).to_string(),
        "Incorrect number : 1.2.3 (1:1)"
    );
    assert_eq!(
        ReadError::UnclosedParen(Position(4, 5)).to_string(),
        "Unclosed parenthesis (4:5)"
    );
    assert_eq!(
        ReadError::UnexpectedClosingParen(Position(1, 1)).to_string(),
        "Unexpected closing parenthesis (1:1)"
    );
    assert_eq!(ReadError::UnexpectedEOF.to_string(), "Unexpected end of file.");
}

#[test]
fn eval_error_messages() {
    assert_eq!(
        EvalError::IllegalFunctionCall(Position(1, 2)).to_string(),
        "Illegal function call (1:2)"
    );
    assert_eq!(
        EvalError::UnboundSymbol("x".to_string(), Position(1, 14)).to_string(),
        "The symbol x is unbound (1:14)"
    );
    assert_eq!(
        EvalError::ArityMismatch("quote".to_string(), 0, 1, Position(1, 2)).to_string(),
        "quote expected 1 arguments, 0 were given (1:2)"
    );
    assert_eq!(
        EvalError::TypeMismatch(
            SexpT::Atom(Atom::Integer(3)),
            "list".to_string(),
            Position(2, 5)
        )
        .to_string(),
        "3 is not a list (2:5)"
    );
    assert_eq!(
        EvalError::ReadError(ReadError::UnexpectedEOF).to_string(),
        "Unexpected end of file."
    );
}

#[test]
fn error_messages() {
    assert_eq!(
        Error::ReadError(ReadError::UnclosedParen(Position(1, 1))).to_string(),
        "Unclosed parenthesis (1:1)"
    );
    assert_eq!(
        Error::EvalError(EvalError::IllegalFunctionCall(Position(3, 4))).to_string(),
        "Illegal function call (3:4)"
    );
}

#[test]
fn show_outcomes() {
    assert_eq!(show(&eval(read("(quote (1 2 3))"))), "(1 2 3)");
    assert_eq!(show(&eval(read("(quote)"))), "quote expected 1 arguments, 0 were given (1:2)");
    assert_eq!(show(&eval(read("(eval (quote x)))"))), "The symbol x is unbound (1:14)");
    assert_eq!(show(&read(")")), "Unexpected closing parenthesis (1:1)");
}

fn assert_round_trip(text: &str) {
    let first = read(text).unwrap();
    let written = first.to_string();
    let mut parser = Parser::new(&written);
    let second = parser.read().unwrap();
    assert!(same(&first, &second));
    assert_eq!(second.to_string(), written);
    assert_eq!(parser.read(), Err(Error::ReadError(ReadError::UnexpectedEOF)));
}

#[test]
fn reading_the_text_of_what_was_read_gives_it_back() {
    assert_round_trip("a");
    assert_round_trip("-");
    assert_round_trip("+a1");
    assert_round_trip("\u{e9}t\u{e9}");
    assert_round_trip("\"\"");
    assert_round_trip("\"a \\\" b \\\\\"");
    assert_round_trip("\"two\nlines\"");
    assert_round_trip("0");
    assert_round_trip("-0");
    assert_round_trip("+12");
    assert_round_trip("-2147483648");
    assert_round_trip("2147483648");
    assert_round_trip("1.");
    assert_round_trip("-1.250");
    assert_round_trip("()");
    assert_round_trip("(())");
    assert_round_trip("(a)");
    assert_round_trip("\n( a\t(b \"c d\" (1 2.0 -3))\n  () e )");
    assert_round_trip("(quote (eval (quote x)))");
}
