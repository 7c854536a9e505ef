//! Standalone binary operator parses, one per operator, with whitespace
//! tolerated on both sides.

use rulelang::BinaryOperator;

fn parse(input: &str) -> BinaryOperator {
    BinaryOperator::parser(input.as_bytes()).unwrap_or_else(|ds| {
        panic!("parse of {:?} failed: {:?}", input, ds[0].message());
    })
}

#[test]
fn test_parse() {
    assert_eq!(parse("+"), BinaryOperator::Add);
    assert_eq!(parse("-"), BinaryOperator::Subtract);
    assert_eq!(parse("*"), BinaryOperator::Multiply);
    assert_eq!(parse("/"), BinaryOperator::Divide);
    assert_eq!(parse("%"), BinaryOperator::Modulus);
    assert_eq!(parse("=="), BinaryOperator::Equals);
    assert_eq!(parse("!="), BinaryOperator::NotEquals);
    assert_eq!(parse("<"), BinaryOperator::LessThan);
    assert_eq!(parse(">"), BinaryOperator::GreaterThan);
    assert_eq!(parse("<="), BinaryOperator::LessThanOrEqual);
    assert_eq!(parse(">="), BinaryOperator::GreaterThanOrEqual);
    assert_eq!(parse("and"), BinaryOperator::And);
    assert_eq!(parse("or"), BinaryOperator::Or);
    assert_eq!(parse("xor"), BinaryOperator::Xor);
    assert_eq!(parse("contains"), BinaryOperator::Contains);
    assert_eq!(parse("in"), BinaryOperator::In);
    assert_eq!(parse("not matches"), BinaryOperator::NotMatches);
    assert_eq!(parse("matches"), BinaryOperator::Matches);
    assert_eq!(parse("is not"), BinaryOperator::IsNot);
    assert_eq!(parse("is"), BinaryOperator::Is);
}

#[test]
fn test_parse_padded() {
    assert_eq!(parse("  ==  "), BinaryOperator::Equals);
    assert_eq!(parse("\tand\n"), BinaryOperator::And);
}

#[test]
fn test_priorities() {
    assert_eq!(BinaryOperator::Multiply.priority(), 5);
    assert_eq!(BinaryOperator::Divide.priority(), 5);
    assert_eq!(BinaryOperator::Modulus.priority(), 5);
    assert_eq!(BinaryOperator::Add.priority(), 4);
    assert_eq!(BinaryOperator::Subtract.priority(), 4);
    assert_eq!(BinaryOperator::Equals.priority(), 3);
    assert_eq!(BinaryOperator::IsNot.priority(), 3);
    assert_eq!(BinaryOperator::Contains.priority(), 3);
    assert_eq!(BinaryOperator::And.priority(), 2);
    assert_eq!(BinaryOperator::Or.priority(), 1);
    assert_eq!(BinaryOperator::Xor.priority(), 1);
}

#[test]
fn test_no_operator_is_error() {
    match BinaryOperator::parser(b"?") {
        Err(ds) => assert_eq!(ds[0].message(), "found ? expected an operator"),
        Ok(op) => panic!("expected an error, got {:?}", op),
    }
}

#[test]
fn test_word_operator_needs_boundary() {
    // `in` must not match as a prefix of a longer identifier.
    assert!(BinaryOperator::parser(b"inx").is_err());
    assert!(BinaryOperator::parser(b"andy").is_err());
}
