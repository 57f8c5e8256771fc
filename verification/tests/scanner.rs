use sexpr::lexer::{Error, Lexer, Scanned, Step, TType, Token};

fn scanned(kind: Result<TType, TType>, start: usize, end: usize, slice: &str) -> Option<Scanned> {
    Some(Scanned { kind, span: start..end, slice: slice.to_string() })
}

#[test]
fn default_kind_is_error() {
    assert_eq!(TType::default(), TType::Error);
}

#[test]
fn to_token_of_marks() {
    let lexer = Lexer::new();
    assert_eq!(lexer.to_token(TType::LParen, 0..1, "("), Ok(Token::LParen));
    assert_eq!(lexer.to_token(TType::RParen, 0..1, ")"), Ok(Token::RParen));
    assert_eq!(lexer.to_token(TType::Quote, 0..1, "'"), Ok(Token::Quote));
    assert_eq!(lexer.to_token(TType::Unquote, 0..1, ","), Ok(Token::Unquote));
}

#[test]
fn to_token_keeps_the_text_of_symbols_and_strings() {
    let lexer = Lexer::new();
    assert_eq!(
        lexer.to_token(TType::Symbol, 3..6, "foo"),
        Ok(Token::Symbol("foo".to_string()))
    );
    assert_eq!(
        lexer.to_token(TType::String, 0..5, "\"a b\""),
        Ok(Token::String("\"a b\"".to_string()))
    );
}

#[test]
fn to_token_of_integers() {
    let lexer = Lexer::new();
    assert_eq!(lexer.to_token(TType::Int, 0..2, "42"), Ok(Token::Int(42)));
    assert_eq!(lexer.to_token(TType::Int, 0..2, "-7"), Ok(Token::Int(-7)));
    assert_eq!(lexer.to_token(TType::Int, 0..2, "+7"), Ok(Token::Int(7)));
    assert_eq!(
        lexer.to_token(TType::Int, 0..19, "9223372036854775807"),
        Ok(Token::Int(i64::MAX))
    );
    assert_eq!(
        lexer.to_token(TType::Int, 0..20, "-9223372036854775808"),
        Ok(Token::Int(i64::MIN))
    );
    assert_eq!(
        lexer.to_token(TType::Int, 5..24, "9223372036854775808"),
        Err(Error::IntParsingError(5..24))
    );
    assert_eq!(
        lexer.to_token(TType::Int, 0..21, "-9223372036854775809"),
        Err(Error::IntParsingError(0..21))
    );
    assert_eq!(
        lexer.to_token(TType::Int, 1..3, "\u{665}\u{666}"),
        Err(Error::IntParsingError(1..3))
    );
    assert_eq!(lexer.to_token(TType::Int, 0..0, ""), Err(Error::IntParsingError(0..0)));
    assert_eq!(lexer.to_token(TType::Int, 0..1, "-"), Err(Error::IntParsingError(0..1)));
    assert_eq!(lexer.to_token(TType::Int, 0..3, "1.5"), Err(Error::IntParsingError(0..3)));
}

#[test]
fn to_token_of_floats() {
    let lexer = Lexer::new();
    assert_eq!(
        lexer.to_token(TType::Float, 0..4, "1.50"),
        Ok(Token::Float("1.50".to_string()))
    );
    assert_eq!(
        lexer.to_token(TType::Float, 0..5, "-0.25"),
        Ok(Token::Float("-0.25".to_string()))
    );
    assert_eq!(
        lexer.to_token(TType::Float, 2..7, "1.2.3"),
        Err(Error::FloatParsingError(2..7))
    );
    assert_eq!(lexer.to_token(TType::Float, 0..1, "."), Err(Error::FloatParsingError(0..1)));
    assert_eq!(lexer.to_token(TType::Float, 0..3, "abc"), Err(Error::FloatParsingError(0..3)));
}

#[test]
fn to_token_of_error_kind() {
    let lexer = Lexer::new();
    assert_eq!(
        lexer.to_token(TType::Error, 4..5, "#"),
        Err(Error::InvalidChar(4..5, "#".to_string()))
    );
}

#[test]
fn step_yields_tokens() {
    let mut lexer = Lexer::new();
    assert_eq!(lexer.step(scanned(Ok(TType::LParen), 0, 1, "(")), Step::Yield(Some(Token::LParen)));
    assert_eq!(
        lexer.step(scanned(Ok(TType::Symbol), 1, 4, "foo")),
        Step::Yield(Some(Token::Symbol("foo".to_string())))
    );
    assert_eq!(lexer.step(scanned(Ok(TType::Int), 5, 7, "12")), Step::Yield(Some(Token::Int(12))));
    assert!(lexer.errors.is_empty());
}

#[test]
fn step_ends_at_end_of_source() {
    let mut lexer = Lexer::new();
    assert_eq!(lexer.step(None), Step::Yield(None));
    assert!(lexer.errors.is_empty());
}

#[test]
fn step_records_invalid_pieces_and_scans_on() {
    let mut lexer = Lexer::new();
    assert_eq!(lexer.step(scanned(Err(TType::Error), 2, 3, "#")), Step::Again);
    assert_eq!(lexer.step(scanned(Err(TType::Error), 3, 4, "@")), Step::Again);
    assert_eq!(
        lexer.errors,
        vec![
            Error::InvalidChar(2..3, "#".to_string()),
            Error::InvalidChar(3..4, "@".to_string())
        ]
    );
}

#[test]
fn step_with_failure_that_is_a_token_records_nothing() {
    let mut lexer = Lexer::new();
    assert_eq!(lexer.step(scanned(Err(TType::LParen), 0, 1, "(")), Step::Again);
    assert!(lexer.errors.is_empty());
}

#[test]
fn step_ends_the_stream_on_a_number_that_is_none() {
    let mut lexer = Lexer::new();
    assert_eq!(
        lexer.step(scanned(Ok(TType::Int), 0, 20, "99999999999999999999")),
        Step::Yield(None)
    );
    assert!(lexer.errors.is_empty());
}

#[test]
fn token_texts() {
    assert_eq!(Token::LParen.to_string(), "(");
    assert_eq!(Token::RParen.to_string(), ")");
    assert_eq!(Token::Quote.to_string(), "'");
    assert_eq!(Token::Unquote.to_string(), ",");
    assert_eq!(Token::Symbol("abc".to_string()).to_string(), "ABC");
    assert_eq!(Token::String("a\u{df}c".to_string()).to_string(), "ASSC");
    assert_eq!(Token::Int(-12).to_string(), "i-12");
    assert_eq!(Token::Float("1.5".to_string()).to_string(), "f1.5");
}

#[test]
fn token_clone_is_equal() {
    let t = Token::Symbol("abc".to_string());
    assert_eq!(t.clone(), t);
}
