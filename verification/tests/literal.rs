//! Full-input literal parses: floats, integers in three bases, strings,
//! booleans, and the diagnostics of the malformed forms.

use rulelang::Literal;

fn parse_float(input: &str) -> f64 {
    match Literal::parser(input.as_bytes()) {
        Ok(Literal::Float(text)) => String::from_utf8(text).unwrap().parse::<f64>().unwrap(),
        other => panic!("expected a float for {:?}, got {:?}", input, other),
    }
}

fn expect_error(input: &str, needle: &str) {
    match Literal::parser(input.as_bytes()) {
        Ok(v) => panic!("expected an error for {:?}, got {:?}", input, v),
        Err(ds) => {
            assert_eq!(ds.len(), 1, "input: {:?}", input);
            let msg = ds[0].message();
            assert!(
                msg.contains(needle),
                "expected error {:?} got: {:?}",
                needle,
                msg
            );
        }
    }
}

#[test]
fn test_parse_float() {
    assert_eq!(parse_float("123.45"), 123.45);
    assert_eq!(parse_float("1.e+0"), 1.0);
    assert_eq!(parse_float("6.67428e-11"), 6.67428e-11);
    assert_eq!(parse_float("1E6"), 1e6);
    assert_eq!(parse_float(".25"), 0.25);
    assert_eq!(parse_float(".12345E+5"), 12345.0);
}

#[test]
fn test_parse_integer() {
    assert_eq!(Literal::parser(b"123"), Ok(Literal::Integer(123)));
    assert_eq!(Literal::parser(b"0"), Ok(Literal::Integer(0)));
    // Octal
    assert_eq!(Literal::parser(b"076"), Ok(Literal::Integer(62)));
    expect_error("099", "found end of input");
    // Hexadecimal
    assert_eq!(Literal::parser(b"0x1A3F"), Ok(Literal::Integer(0x1A3F)));
    expect_error("0x9X", "found X expected end of input");
    assert_eq!(Literal::parser(b"0X1A3F"), Ok(Literal::Integer(0x1A3F)));
}

#[test]
fn test_parse_string() {
    assert_eq!(
        Literal::parser(br#""hello""#),
        Ok(Literal::String(b"hello".to_vec()))
    );
    assert_eq!(
        Literal::parser(br#""world""#),
        Ok(Literal::String(b"world".to_vec()))
    );
    assert_eq!(
        Literal::parser(br#""12345""#),
        Ok(Literal::String(b"12345".to_vec()))
    );
    assert_eq!(Literal::parser(br#""""#), Ok(Literal::String(b"".to_vec())));
}

#[test]
fn test_parse_boolean() {
    assert_eq!(Literal::parser(b"true"), Ok(Literal::Boolean(true)));
    assert_eq!(Literal::parser(b"false"), Ok(Literal::Boolean(false)));
}

#[test]
fn test_parse_sentinels() {
    assert_eq!(Literal::parser(b"null"), Ok(Literal::Null));
    assert_eq!(Literal::parser(b"undefined"), Ok(Literal::Undefined));
}

#[test]
fn test_hex_error_position() {
    // The diagnostic points at the first unconsumed byte, the `X`.
    match Literal::parser(b"0x9X") {
        Err(ds) => {
            assert_eq!(ds[0].start, 3);
            assert_eq!(ds[0].end, 4);
            assert_eq!(ds[0].found, Some(b'X'));
        }
        Ok(v) => panic!("expected an error, got {:?}", v),
    }
}

#[test]
fn test_integer_overflow_rejected() {
    // One past the largest signed 64-bit value, in each base.
    expect_error("9223372036854775808", "out of the signed 64-bit range");
    expect_error("0x8000000000000000", "out of the signed 64-bit range");
    expect_error("01000000000000000000000", "out of the signed 64-bit range");
    expect_error(
        "170141183460469231731687303715884105727",
        "out of the signed 64-bit range",
    );
    // The largest value itself still parses.
    assert_eq!(
        Literal::parser(b"9223372036854775807"),
        Ok(Literal::Integer(i64::MAX))
    );
    assert_eq!(
        Literal::parser(b"0x7FFFFFFFFFFFFFFF"),
        Ok(Literal::Integer(i64::MAX))
    );
}

#[test]
fn test_float_overflow_rejected() {
    // A well-formed float form whose nearest double is infinite solely
    // from overflow is a diagnostic, never an infinity.
    expect_error("1e999", "outside the finite 64-bit range");
    expect_error("1.8e308", "outside the finite 64-bit range");
    expect_error("179769313486231586e291", "outside the finite 64-bit range");
    expect_error("123456789e9999999999999999999999999", "outside the finite 64-bit range");
    // The largest finite doubles still parse.
    assert_eq!(parse_float("1.7976931348623157e308"), f64::MAX);
    assert_eq!(parse_float("1e308"), 1e308);
    assert_eq!(parse_float("0.0e999999"), 0.0);
    assert_eq!(parse_float("1e-999"), 0.0);
}

#[test]
fn test_unterminated_string() {
    expect_error("\"abc", "found end of input expected a closing quote");
}

#[test]
fn test_missing_hex_digits() {
    expect_error("0x", "found end of input expected a hexadecimal digit");
}

#[test]
fn test_no_literal() {
    expect_error("@", "found @ expected a digit");
}

#[test]
fn test_trailing_input_after_literal() {
    expect_error("true!", "found ! expected end of input");
}
