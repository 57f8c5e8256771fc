use sexpr::errors::{Error, ReadError};
use sexpr::parser::lexer::{Lexer, TType, Token};
use sexpr::parser::parser::{independant_sexp, Atom, Parser, Sexp, SexpT};
use sexpr::parser::Position;

fn symbol(name: &str, line: usize, column: usize) -> Sexp {
    Sexp::new(SexpT::Atom(Atom::Symbol(name.to_string())), line, column)
}

fn integer(value: i32, line: usize, column: usize) -> Sexp {
    Sexp::new(SexpT::Atom(Atom::Integer(value)), line, column)
}

fn token(ttype: TType, line: usize, column: usize) -> Option<Result<Token, Error>> {
    Some(Ok(Token { ttype, line, column }))
}

fn read_error(e: ReadError) -> Error {
    Error::ReadError(e)
}

#[test]
fn position_new_keeps_line_and_column() {
    let p = Position::new(3, 7);
    assert_eq!(p.0, 3);
    assert_eq!(p.1, 7);
    assert_eq!(p, Position(3, 7));
}

#[test]
fn sexp_new_sets_position() {
    let s = Sexp::new(SexpT::List(Vec::new()), 4, 9);
    assert_eq!(s.pos, Position(4, 9));
    assert_eq!(s.sexpt, SexpT::List(Vec::new()));
}

#[test]
fn independant_sexp_is_at_origin() {
    let s = independant_sexp(SexpT::Atom(Atom::Integer(5)));
    assert_eq!(s.pos, Position(0, 0));
    assert_eq!(s.sexpt, SexpT::Atom(Atom::Integer(5)));
}

#[test]
fn lexer_parens_and_symbols() {
    let mut lexer = Lexer::new("(a b)");
    assert_eq!(lexer.next(), token(TType::LParen, 1, 1));
    assert_eq!(lexer.next(), token(TType::Symbol("a".to_string()), 1, 2));
    assert_eq!(lexer.next(), token(TType::Symbol("b".to_string()), 1, 4));
    assert_eq!(lexer.next(), token(TType::RParen, 1, 5));
    assert_eq!(lexer.next(), None);
    assert_eq!(lexer.next(), None);
}

#[test]
fn lexer_symbol_at_end_of_input() {
    let mut lexer = Lexer::new("abc");
    assert_eq!(lexer.next(), token(TType::Symbol("abc".to_string()), 1, 1));
    assert_eq!(lexer.next(), None);
}

#[test]
fn lexer_numbers() {
    let mut lexer = Lexer::new("12 -3 +4 1.5 -0.25 007");
    assert_eq!(lexer.next(), token(TType::Integer(12), 1, 1));
    assert_eq!(lexer.next(), token(TType::Integer(-3), 1, 4));
    assert_eq!(lexer.next(), token(TType::Integer(4), 1, 7));
    assert_eq!(lexer.next(), token(TType::Float("1.5".to_string()), 1, 10));
    assert_eq!(lexer.next(), token(TType::Float("-0.25".to_string()), 1, 14));
    assert_eq!(lexer.next(), token(TType::Integer(7), 1, 20));
    assert_eq!(lexer.next(), None);
}

#[test]
fn lexer_integer_limits() {
    let mut lexer = Lexer::new("2147483647 -2147483648 2147483648 -2147483649");
    assert_eq!(lexer.next(), token(TType::Integer(i32::MAX), 1, 1));
    assert_eq!(lexer.next(), token(TType::Integer(i32::MIN), 1, 12));
    assert_eq!(lexer.next(), token(TType::Float("2147483648".to_string()), 1, 24));
    assert_eq!(lexer.next(), token(TType::Float("-2147483649".to_string()), 1, 35));
    assert_eq!(lexer.next(), None);
}

#[test]
fn lexer_number_with_two_points_is_incorrect() {
    let mut lexer = Lexer::new(" 1.2.3 x");
    assert_eq!(
        lexer.next(),
        Some(Err(read_error(ReadError::IncorrectNumber("1.2.3".to_string(), Position(1, 2)))))
    );
    assert_eq!(lexer.next(), token(TType::Symbol("x".to_string()), 1, 8));
}

#[test]
fn lexer_number_with_trailing_point_is_a_float() {
    let mut lexer = Lexer::new("1.");
    assert_eq!(lexer.next(), token(TType::Float("1.".to_string()), 1, 1));
}

#[test]
fn lexer_sign_without_digit_is_a_symbol() {
    let mut lexer = Lexer::new("+ - -a +");
    assert_eq!(lexer.next(), token(TType::Symbol("+".to_string()), 1, 1));
    assert_eq!(lexer.next(), token(TType::Symbol("-".to_string()), 1, 3));
    assert_eq!(lexer.next(), token(TType::Symbol("-a".to_string()), 1, 5));
    assert_eq!(lexer.next(), token(TType::Symbol("+".to_string()), 1, 8));
    assert_eq!(lexer.next(), None);
}

#[test]
fn lexer_symbol_punctuation() {
    let mut lexer = Lexer::new("a-b*c|d~e1 *");
    assert_eq!(lexer.next(), token(TType::Symbol("a-b*c|d~e1".to_string()), 1, 1));
    assert_eq!(lexer.next(), token(TType::Symbol("*".to_string()), 1, 12));
}

#[test]
fn lexer_symbol_keeps_its_case() {
    let mut lexer = Lexer::new("Quote");
    assert_eq!(lexer.next(), token(TType::Symbol("Quote".to_string()), 1, 1));
}

#[test]
fn lexer_symbol_may_start_with_any_letter() {
    let mut lexer = Lexer::new("\u{e9}a \u{3bb}");
    assert_eq!(lexer.next(), token(TType::Symbol("\u{e9}a".to_string()), 1, 1));
    assert_eq!(lexer.next(), token(TType::Symbol("\u{3bb}".to_string()), 1, 4));
    assert_eq!(lexer.next(), None);
}

#[test]
fn lexer_symbol_continues_with_ascii_only() {
    let mut lexer = Lexer::new("a\u{e9}");
    assert_eq!(lexer.next(), token(TType::Symbol("a".to_string()), 1, 1));
    assert_eq!(lexer.next(), token(TType::Symbol("\u{e9}".to_string()), 1, 2));
}

#[test]
fn lexer_strings() {
    let mut lexer = Lexer::new("\"abc\" \"a b\" \"\"");
    assert_eq!(lexer.next(), token(TType::String("abc".to_string()), 1, 1));
    assert_eq!(lexer.next(), token(TType::String("a b".to_string()), 1, 7));
    assert_eq!(lexer.next(), token(TType::String("".to_string()), 1, 13));
    assert_eq!(lexer.next(), None);
}

#[test]
fn lexer_string_with_space_before_closing_quote() {
    let mut lexer = Lexer::new("\"a \" b");
    assert_eq!(lexer.next(), token(TType::String("a ".to_string()), 1, 1));
    assert_eq!(lexer.next(), token(TType::Symbol("b".to_string()), 1, 6));
}

#[test]
fn lexer_string_with_escaped_quote() {
    let mut lexer = Lexer::new("\"a\\\"b\" c");
    assert_eq!(lexer.next(), token(TType::String("a\\\"b".to_string()), 1, 1));
    assert_eq!(lexer.next(), token(TType::Symbol("c".to_string()), 1, 8));
}

#[test]
fn lexer_string_with_escaped_backslash() {
    let mut lexer = Lexer::new("\"a\\\\\" c");
    assert_eq!(lexer.next(), token(TType::String("a\\\\".to_string()), 1, 1));
    assert_eq!(lexer.next(), token(TType::Symbol("c".to_string()), 1, 7));
}

#[test]
fn lexer_unclosed_string() {
    let mut lexer = Lexer::new("  \"abc");
    assert_eq!(
        lexer.next(),
        Some(Err(read_error(ReadError::UnclosedString(Position(1, 3)))))
    );
    assert_eq!(lexer.next(), None);
}

#[test]
fn lexer_string_ending_in_backslash_is_unclosed() {
    let mut lexer = Lexer::new("\"abc\\");
    assert_eq!(
        lexer.next(),
        Some(Err(read_error(ReadError::UnclosedString(Position(1, 1)))))
    );
    let mut lexer = Lexer::new("\"abc\\\"");
    assert_eq!(
        lexer.next(),
        Some(Err(read_error(ReadError::UnclosedString(Position(1, 1)))))
    );
}

#[test]
fn lexer_unexpected_char_is_reported_and_passed() {
    let mut lexer = Lexer::new("a # b");
    assert_eq!(lexer.next(), token(TType::Symbol("a".to_string()), 1, 1));
    assert_eq!(
        lexer.next(),
        Some(Err(read_error(ReadError::UnexpectedChar('#', Position(1, 3)))))
    );
    assert_eq!(lexer.next(), token(TType::Symbol("b".to_string()), 1, 5));
    assert_eq!(lexer.next(), None);
}

#[test]
fn lexer_quote_mark_is_unexpected() {
    let mut lexer = Lexer::new("'a");
    assert_eq!(
        lexer.next(),
        Some(Err(read_error(ReadError::UnexpectedChar('\'', Position(1, 1)))))
    );
}

#[test]
fn lexer_lines_and_columns() {
    let mut lexer = Lexer::new("a\n  b\r\tc\n\n(");
    assert_eq!(lexer.next(), token(TType::Symbol("a".to_string()), 1, 1));
    assert_eq!(lexer.next(), token(TType::Symbol("b".to_string()), 2, 3));
    assert_eq!(lexer.next(), token(TType::Symbol("c".to_string()), 3, 2));
    assert_eq!(lexer.next(), token(TType::LParen, 5, 1));
    assert_eq!(lexer.next(), None);
}

#[test]
fn lexer_string_over_lines_is_at_its_opening_quote() {
    let mut lexer = Lexer::new(" \"a\nb\" c");
    assert_eq!(lexer.next(), token(TType::String("a\nb".to_string()), 1, 2));
    assert_eq!(lexer.next(), token(TType::Symbol("c".to_string()), 2, 4));
}

#[test]
fn lexer_passes_over_unicode_white_space() {
    let mut lexer = Lexer::new("\u{a0}a\u{2003}\u{c}b");
    assert_eq!(lexer.next(), token(TType::Symbol("a".to_string()), 1, 2));
    assert_eq!(lexer.next(), token(TType::Symbol("b".to_string()), 1, 5));
}

#[test]
fn lexer_empty_and_blank_input() {
    let mut lexer = Lexer::new("");
    assert!(lexer.is_eof());
    assert_eq!(lexer.next(), None);
    let mut lexer = Lexer::new(" \n\t ");
    assert!(!lexer.is_eof());
    assert_eq!(lexer.next(), None);
    assert!(lexer.is_eof());
}

#[test]
fn lexer_consume_skips_white_space() {
    let mut lexer = Lexer::new("  x y");
    assert_eq!(lexer.consume(), Some('x'));
    assert_eq!(lexer.consume(), Some('y'));
    assert_eq!(lexer.consume(), None);
    assert!(lexer.is_eof());
}

#[test]
fn lexer_scanners_after_first_character() {
    let mut lexer = Lexer::new("abc 12.5 \"hi\"");
    assert_eq!(lexer.consume(), Some('a'));
    assert_eq!(
        lexer.symbol(),
        Ok(Token { ttype: TType::Symbol("abc".to_string()), line: 1, column: 1 })
    );
    assert_eq!(lexer.consume(), Some('1'));
    assert_eq!(
        lexer.number(),
        Ok(Token { ttype: TType::Float("12.5".to_string()), line: 1, column: 5 })
    );
    assert_eq!(lexer.consume(), Some('"'));
    let t = lexer.string();
    assert_eq!(t, Ok(Token { ttype: TType::String("hi".to_string()), line: 1, column: 10 }));
    assert_eq!(
        lexer.build_token(TType::RParen),
        Token { ttype: TType::RParen, line: 1, column: 10 }
    );
}

#[test]
fn lexer_number_scanner_rejects_other_text() {
    let mut lexer = Lexer::new("x12");
    assert_eq!(lexer.consume(), Some('x'));
    assert_eq!(
        lexer.number(),
        Err(read_error(ReadError::IncorrectNumber("x12".to_string(), Position(1, 1))))
    );
}

#[test]
fn read_list_of_three_symbols() {
    let mut parser = Parser::new("(a b c)");
    let expected = Sexp::new(
        SexpT::List(vec![symbol("a", 1, 2), symbol("b", 1, 4), symbol("c", 1, 6)]),
        1,
        1,
    );
    assert_eq!(parser.read(), Ok(expected));
    assert_eq!(parser.read(), Err(read_error(ReadError::UnexpectedEOF)));
}

#[test]
fn read_unclosed_paren() {
    let mut parser = Parser::new("(");
    assert_eq!(parser.read(), Err(read_error(ReadError::UnclosedParen(Position(1, 1)))));
}

#[test]
fn read_unclosed_nested_paren_reports_the_inner_one() {
    let mut parser = Parser::new("(a (b c");
    assert_eq!(parser.read(), Err(read_error(ReadError::UnclosedParen(Position(1, 4)))));
    assert_eq!(parser.read(), Err(read_error(ReadError::UnexpectedEOF)));
}

#[test]
fn read_unexpected_closing_paren() {
    let mut parser = Parser::new(")");
    assert_eq!(
        parser.read(),
        Err(read_error(ReadError::UnexpectedClosingParen(Position(1, 1))))
    );
}

#[test]
fn read_unclosed_string() {
    let mut parser = Parser::new("\"abc");
    assert_eq!(parser.read(), Err(read_error(ReadError::UnclosedString(Position(1, 1)))));
}

#[test]
fn read_unclosed_string_inside_list() {
    let mut parser = Parser::new("(a \"bc");
    assert_eq!(parser.read(), Err(read_error(ReadError::UnclosedString(Position(1, 4)))));
}

#[test]
fn read_lexical_error_inside_list() {
    let mut parser = Parser::new("(a # b) c");
    assert_eq!(
        parser.read(),
        Err(read_error(ReadError::UnexpectedChar('#', Position(1, 4))))
    );
    assert_eq!(parser.read(), Ok(symbol("b", 1, 6)));
    assert_eq!(
        parser.read(),
        Err(read_error(ReadError::UnexpectedClosingParen(Position(1, 7))))
    );
    assert_eq!(parser.read(), Ok(symbol("c", 1, 9)));
    assert_eq!(parser.read(), Err(read_error(ReadError::UnexpectedEOF)));
}

#[test]
fn read_empty_input_is_end_of_file() {
    let mut parser = Parser::new("");
    assert_eq!(parser.read(), Err(read_error(ReadError::UnexpectedEOF)));
    let mut parser = Parser::new("  \n ");
    assert_eq!(parser.read(), Err(read_error(ReadError::UnexpectedEOF)));
}

#[test]
fn read_atoms() {
    let mut parser = Parser::new("foo \"bar\" 42 -7 3.25");
    assert_eq!(parser.read(), Ok(symbol("foo", 1, 1)));
    assert_eq!(
        parser.read(),
        Ok(Sexp::new(SexpT::Atom(Atom::String("bar".to_string())), 1, 5))
    );
    assert_eq!(parser.read(), Ok(integer(42, 1, 11)));
    assert_eq!(parser.read(), Ok(integer(-7, 1, 14)));
    assert_eq!(
        parser.read(),
        Ok(Sexp::new(SexpT::Atom(Atom::Float("3.25".to_string())), 1, 17))
    );
    assert_eq!(parser.read(), Err(read_error(ReadError::UnexpectedEOF)));
}

#[test]
fn read_nested_lists_in_order() {
    let mut parser = Parser::new("(a (b 1) () c)\n(d)");
    let inner = Sexp::new(SexpT::List(vec![symbol("b", 1, 5), integer(1, 1, 7)]), 1, 4);
    let empty = Sexp::new(SexpT::List(Vec::new()), 1, 10);
    let first = Sexp::new(
        SexpT::List(vec![symbol("a", 1, 2), inner, empty, symbol("c", 1, 13)]),
        1,
        1,
    );
    assert_eq!(parser.read(), Ok(first));
    let second = Sexp::new(SexpT::List(vec![symbol("d", 2, 2)]), 2, 1);
    assert_eq!(parser.read(), Ok(second));
    assert_eq!(parser.read(), Err(read_error(ReadError::UnexpectedEOF)));
}

#[test]
fn read_deeply_nested_input_ends() {
    let mut text = String::new();
    for _ in 0..200 {
        text.push('(');
    }
    let mut parser = Parser::new(&text);
    assert_eq!(parser.read(), Err(read_error(ReadError::UnclosedParen(Position(1, 200)))));
    for _ in 0..200 {
        text.push(')');
    }
    let mut parser = Parser::new(&text);
    assert!(parser.read().is_ok());
    assert_eq!(parser.read(), Err(read_error(ReadError::UnexpectedEOF)));
}

#[test]
fn clone_is_deep_and_equal() {
    let mut parser = Parser::new("(a (b \"s\" 1 2.5))");
    let s = parser.read().unwrap();
    let c = s.clone();
    assert_eq!(s, c);
}
