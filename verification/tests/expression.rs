//! Full-input expression parses: primaries, unary prefixes, the five
//! binary tiers with their precedence and associativity, and calls.

use rulelang::{BinaryOperator, Expression, Identifier, Literal, UnaryOperator};

fn parse(input: &str) -> Expression {
    Expression::parser(input.as_bytes()).unwrap_or_else(|ds| {
        panic!("parse of {:?} failed: {:?}", input, ds[0].message());
    })
}

fn int_lit(v: i64) -> Expression {
    Expression::Literal(Literal::Integer(v))
}

fn ident(name: &str) -> Expression {
    Expression::Identifier(Identifier::new(name.to_string()))
}

#[test]
fn test_parse_literal() {
    assert_eq!(parse("42"), int_lit(42));
}

#[test]
fn test_parse_identifier() {
    assert_eq!(parse("foobar"), ident("foobar"));
}

#[test]
fn test_parse_unary_expression() {
    assert_eq!(
        parse("!foobar"),
        Expression::unary_expr(UnaryOperator::Not, ident("foobar"))
    );
}

#[test]
fn test_addition() {
    assert_eq!(
        parse("10+10"),
        Expression::binary_expr(int_lit(10), BinaryOperator::Add, int_lit(10))
    );
}

#[test]
fn test_multiplication() {
    assert_eq!(
        parse("5*3"),
        Expression::binary_expr(int_lit(5), BinaryOperator::Multiply, int_lit(3))
    );
}

#[test]
fn test_complex_expression() {
    assert_eq!(
        parse("5+3*2"),
        Expression::binary_expr(
            int_lit(5),
            BinaryOperator::Add,
            Expression::binary_expr(int_lit(3), BinaryOperator::Multiply, int_lit(2)),
        )
    );
}

#[test]
fn test_comparison() {
    assert_eq!(
        parse("10 == 10"),
        Expression::binary_expr(int_lit(10), BinaryOperator::Equals, int_lit(10))
    );
}

#[test]
fn test_logical_and() {
    assert_eq!(
        parse("true and false"),
        Expression::binary_expr(
            Expression::Literal(Literal::Boolean(true)),
            BinaryOperator::And,
            Expression::Literal(Literal::Boolean(false)),
        )
    );
}

#[test]
fn test_logical_or() {
    assert_eq!(
        parse("true or false"),
        Expression::binary_expr(
            Expression::Literal(Literal::Boolean(true)),
            BinaryOperator::Or,
            Expression::Literal(Literal::Boolean(false)),
        )
    );
}

#[test]
fn test_functions() {
    assert_eq!(
        parse("foobar()"),
        Expression::call(Identifier::new("foobar".to_string()), vec![])
    );
    assert_eq!(
        parse("foobar(a, b)"),
        Expression::call(
            Identifier::new("foobar".to_string()),
            vec![ident("a"), ident("b")],
        )
    );
    assert_eq!(
        parse("foobar(42)"),
        Expression::call(Identifier::new("foobar".to_string()), vec![int_lit(42)])
    );
}

#[test]
fn test_associativity() {
    // Left associative: 10-3-2 is (10-3)-2, never 10-(3-2).
    assert_eq!(
        parse("10-3-2"),
        Expression::binary_expr(
            Expression::binary_expr(int_lit(10), BinaryOperator::Subtract, int_lit(3)),
            BinaryOperator::Subtract,
            int_lit(2),
        )
    );
}

#[test]
fn test_multiword_operators_greedy() {
    assert_eq!(
        parse("a is not b"),
        Expression::binary_expr(ident("a"), BinaryOperator::IsNot, ident("b"))
    );
    assert_eq!(
        parse("a not matches b"),
        Expression::binary_expr(ident("a"), BinaryOperator::NotMatches, ident("b"))
    );
    assert_eq!(
        parse("a is b"),
        Expression::binary_expr(ident("a"), BinaryOperator::Is, ident("b"))
    );
}

#[test]
fn test_string_expression() {
    assert_eq!(
        parse("\"hello\""),
        Expression::Literal(Literal::String(b"hello".to_vec()))
    );
    assert_eq!(
        parse("\"\""),
        Expression::Literal(Literal::String(b"".to_vec()))
    );
}

#[test]
fn test_empty_input_is_error() {
    match Expression::parser(b"") {
        Err(ds) => {
            assert_eq!(ds.len(), 1);
            assert_eq!(ds[0].message(), "found end of input expected an expression");
            assert_eq!((ds[0].start, ds[0].end), (0, 0));
        }
        Ok(x) => panic!("expected an error, got {:?}", x),
    }
}

#[test]
fn test_trailing_input_is_error() {
    match Expression::parser(b"truex") {
        Err(ds) => {
            assert_eq!(ds[0].message(), "found x expected end of input");
            assert_eq!(ds[0].start, 4);
        }
        Ok(x) => panic!("expected an error, got {:?}", x),
    }
}

#[test]
fn test_unclosed_call_is_error() {
    // The call form backtracks, `f` parses as an identifier, and the `(`
    // is trailing input.
    match Expression::parser(b"f(a") {
        Err(ds) => {
            assert_eq!(ds[0].message(), "found ( expected end of input");
            assert_eq!(ds[0].start, 1);
        }
        Ok(x) => panic!("expected an error, got {:?}", x),
    }
}

#[test]
fn test_overflow_in_expression() {
    match Expression::parser(b"9223372036854775808") {
        Err(ds) => {
            assert_eq!(
                ds[0].message(),
                "integer literal out of the signed 64-bit range"
            );
            assert_eq!((ds[0].start, ds[0].end), (0, 19));
        }
        Ok(x) => panic!("expected an error, got {:?}", x),
    }
}

#[test]
fn test_unary_binds_loosest() {
    // The operand of a prefix operator is a full expression.
    assert_eq!(
        parse("-5*3"),
        Expression::unary_expr(
            UnaryOperator::Minus,
            Expression::binary_expr(int_lit(5), BinaryOperator::Multiply, int_lit(3)),
        )
    );
}
