use sexpr::parser::chars::{
    chars_of, is_digit, is_newline, is_number_part, is_sign, is_space, is_symbol_part,
    is_symbol_punctuation, is_symbol_start,
};
use sexpr::parser::lexer::Lexer;
use sexpr::parser::number::{is_decimal, parse_digits, parse_i32, parse_i64};

fn chars(s: &str) -> Vec<char> {
    s.chars().collect()
}

#[test]
fn parse_digits_reads_base_ten() {
    let t = chars("x0123y");
    assert_eq!(parse_digits(&t, 1, 5, 1000), Some(123));
    assert_eq!(parse_digits(&t, 1, 5, 123), Some(123));
    assert_eq!(parse_digits(&t, 1, 5, 122), None);
    assert_eq!(parse_digits(&t, 1, 1, 1000), None);
    assert_eq!(parse_digits(&t, 0, 5, 1000), None);
    assert_eq!(parse_digits(&t, 1, 6, 1000), None);
    let big = chars("18446744073709551615");
    assert_eq!(parse_digits(&big, 0, 20, u64::MAX), Some(u64::MAX));
    let bigger = chars("18446744073709551616");
    assert_eq!(parse_digits(&bigger, 0, 20, u64::MAX), None);
    let long = chars("000000000000000000000000000000000000000007");
    assert_eq!(parse_digits(&long, 0, long.len(), 7), Some(7));
}

#[test]
fn parse_i32_agrees_with_std() {
    for text in [
        "0", "-0", "+0", "7", "-7", "+7", "007", "2147483647", "2147483648", "-2147483648",
        "-2147483649", "", "-", "+", "--1", "1-", "1.0", "a", " 1", "1 ", "99999999999999999999",
        "\u{661}",
    ] {
        let t = chars(text);
        assert_eq!(parse_i32(&t, 0, t.len()), text.parse::<i32>().ok());
    }
}

#[test]
fn parse_i64_agrees_with_std() {
    for text in [
        "0", "-1", "+1", "9223372036854775807", "9223372036854775808", "-9223372036854775808",
        "-9223372036854775809", "", "-", "12a", "000000000000000000000000000000012",
    ] {
        let t = chars(text);
        assert_eq!(parse_i64(&t, 0, t.len()), text.parse::<i64>().ok());
    }
}

#[test]
fn parse_within_a_range() {
    let t = chars("ab-12cd");
    assert_eq!(parse_i32(&t, 2, 5), Some(-12));
    assert_eq!(parse_i32(&t, 3, 5), Some(12));
    assert_eq!(parse_i32(&t, 2, 6), None);
    assert_eq!(parse_i64(&t, 4, 5), Some(2));
}

#[test]
fn decimal_literals() {
    for (text, expected) in [
        ("1.5", true),
        ("1.", true),
        (".5", true),
        ("-1.5", true),
        ("+1.5", true),
        ("15", true),
        ("-15", true),
        ("1.2.3", false),
        (".", false),
        ("-.", false),
        ("", false),
        ("-", false),
        ("1e5", false),
        ("--1", false),
        ("1.5 ", false),
        ("..", false),
    ] {
        let t = chars(text);
        assert_eq!(is_decimal(&t, 0, t.len()), expected);
    }
}

#[test]
fn every_decimal_literal_is_a_float_to_std() {
    for text in ["1.5", "1.", ".5", "-1.5", "+1.5", "15", "-15", "007.250"] {
        let t = chars(text);
        assert!(is_decimal(&t, 0, t.len()));
        assert!(text.parse::<f32>().is_ok());
    }
}

#[test]
fn character_classes() {
    assert!(is_newline('\n') && is_newline('\r') && !is_newline(' '));
    assert!(is_digit('0') && is_digit('9') && !is_digit('a') && !is_digit('\u{661}'));
    assert!(is_sign('+') && is_sign('-') && !is_sign('*'));
    for c in ['-', '+', '*', '|', '~'] {
        assert!(is_symbol_punctuation(c));
        assert!(is_symbol_start(c));
        assert!(is_symbol_part(c));
    }
    assert!(!is_symbol_punctuation('/'));
    assert!(is_symbol_start('a') && is_symbol_start('Z') && is_symbol_start('\u{e9}'));
    assert!(!is_symbol_start('1') && !is_symbol_start('(') && !is_symbol_start('#'));
    assert!(is_symbol_part('a') && is_symbol_part('Z') && is_symbol_part('5'));
    assert!(!is_symbol_part('\u{e9}') && !is_symbol_part('.') && !is_symbol_part(' '));
    assert!(is_number_part('.') && is_number_part('3') && !is_number_part('-'));
}

#[test]
fn space_is_unicode_white_space() {
    let mut c = 0u32;
    while c <= 0x3100 {
        if let Some(ch) = char::from_u32(c) {
            assert_eq!(is_space(ch), ch.is_whitespace());
        }
        c += 1;
    }
    assert!(!is_space('\u{feff}'));
}

#[test]
fn lexer_peek_looks_ahead() {
    let mut lexer = Lexer::new(" ab");
    assert_eq!(lexer.peek(0), Some(' '));
    assert_eq!(lexer.peek(1), Some('a'));
    assert_eq!(lexer.peek(2), Some('b'));
    assert_eq!(lexer.peek(3), None);
    assert_eq!(lexer.peek(usize::MAX), None);
    assert_eq!(lexer.consume(), Some('a'));
    assert_eq!(lexer.previous_char(), 'a');
    assert_eq!(lexer.peek(0), Some('b'));
    assert_eq!(lexer.peek(1), None);
}

#[test]
fn chars_of_gives_the_characters_in_order() {
    assert_eq!(chars_of(""), Vec::<char>::new());
    assert_eq!(chars_of("a\u{e9}\u{1f600}b"), vec!['a', '\u{e9}', '\u{1f600}', 'b']);
}

#[test]
fn lexer_peek_token_start_passes_over_white_space() {
    let mut lexer = Lexer::new("  \n x )");
    assert_eq!(lexer.peek_token_start(), Some('x'));
    assert_eq!(lexer.peek(0), Some(' '));
    assert_eq!(lexer.consume(), Some('x'));
    assert_eq!(lexer.peek_token_start(), Some(')'));
    assert_eq!(lexer.consume(), Some(')'));
    assert_eq!(lexer.peek_token_start(), None);
    assert_eq!(Lexer::new(" \t ").peek_token_start(), None);
}
