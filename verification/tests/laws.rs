//! Concrete instances of the library's stated laws: the integer round
//! trip by value, the unary and quantifier lexers, and the identifier
//! lexer feeding the other recognizers.

use rulelang::numeric::render_radix;
use rulelang::quantifier::QuantifierType;
use rulelang::unary_operator::UnaryOperator;
use rulelang::{Identifier, Literal};

fn parsed_int(input: &[u8]) -> i64 {
    match Literal::parser(input) {
        Ok(Literal::Integer(v)) => v,
        other => panic!("expected an integer for {:?}, got {:?}", input, other),
    }
}

#[test]
fn test_integer_round_trip_by_value() {
    // Parse a literal in each base, re-render its value, parse again:
    // the value is unchanged.
    for input in [
        &b"123"[..],
        b"0",
        b"076",
        b"0600",
        b"0x1A3F",
        b"0XBadFace",
        b"9223372036854775807",
    ] {
        let v = parsed_int(input);
        let rendered = render_radix(v as u64, 10);
        assert_eq!(parsed_int(&rendered), v, "input: {:?}", input);
    }
}

#[test]
fn test_render_radix_digits() {
    assert_eq!(render_radix(62, 10), b"62".to_vec());
    assert_eq!(render_radix(62, 8), b"76".to_vec());
    assert_eq!(render_radix(0x1A3F, 16), b"1a3f".to_vec());
    assert_eq!(render_radix(0, 10), b"0".to_vec());
}

#[test]
fn test_unary_operator_lexer() {
    let lex = |s: &[u8]| UnaryOperator::parser(s, 0);
    assert_eq!(lex(b"+1"), Some((UnaryOperator::Plus, 1)));
    assert_eq!(lex(b"-1"), Some((UnaryOperator::Minus, 1)));
    assert_eq!(lex(b"!x"), Some((UnaryOperator::Not, 1)));
    assert_eq!(lex(b"is empty x"), Some((UnaryOperator::IsEmpty, 8)));
    assert_eq!(lex(b"is not empty x"), Some((UnaryOperator::IsNotEmpty, 12)));
    assert_eq!(lex(b"is defined x"), Some((UnaryOperator::IsDefined, 10)));
    assert_eq!(
        lex(b"is not defined x"),
        Some((UnaryOperator::IsNotDefined, 14))
    );
    assert_eq!(lex(b"x"), None);
}

#[test]
fn test_quantifier_lexer() {
    let lex = |s: &[u8]| QuantifierType::parser(s, 0);
    assert_eq!(lex(b"all "), Some((QuantifierType::All, 3)));
    assert_eq!(lex(b"any "), Some((QuantifierType::Any, 3)));
    assert_eq!(lex(b"filter "), Some((QuantifierType::Filter, 6)));
    assert_eq!(lex(b"map "), Some((QuantifierType::MapEach, 3)));
    // A quantifier keyword must not split a longer identifier.
    assert_eq!(lex(b"mapped"), None);
    assert_eq!(lex(b"allocate"), None);
}

#[test]
fn test_identifier_lexer() {
    match Identifier::parser(b"foo_bar9+1", 0) {
        Some((id, end)) => {
            assert_eq!(id, Identifier::new("foo_bar9".to_string()));
            assert_eq!(end, 8);
        }
        None => panic!("expected an identifier"),
    }
    assert!(Identifier::parser(b"9foo", 0).is_none());
}
