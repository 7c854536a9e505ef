//! Span-anchored diagnostics for failed parses.
//!
//! Every failure is a value: a half-open byte span `[start, end)` into the
//! original input, what was found there (a byte, or the end of the input),
//! and what was expected instead.  The parser never panics on malformed
//! input; it reports one of these.

use vstd::prelude::*;
use vstd::string::StringExecFns;

verus! {

/// What a recognizer was looking for when it stopped.
#[derive(Debug, Clone, Copy, PartialEq, Eq, Structural)]
pub enum Expected {
    /// Any literal token.
    Literal,
    /// A decimal digit.
    Digit,
    /// An octal digit.
    OctalDigit,
    /// A hexadecimal digit.
    HexDigit,
    /// A decimal point.
    Dot,
    /// An exponent marker.
    Exponent,
    /// The closing quote of a string literal.
    ClosingQuote,
    /// The end of the input.
    EndOfInput,
    /// Any expression.
    Expression,
    /// The closing parenthesis of an argument list.
    ClosingParen,
    /// A binary operator.
    Operator,
    /// An integer small enough for the signed 64-bit range.
    IntegerInRange,
    /// A float small enough for the finite 64-bit range.
    FloatInRange,
}

/// A parse failure anchored to the byte span `[start, end)` of the input.
#[derive(Debug, Clone, PartialEq)]
pub struct Diagnostic {
    /// First byte offset of the offending span.
    pub start: usize,
    /// One past the last byte offset of the offending span.
    pub end: usize,
    /// The byte found at `start`, or `None` at the end of the input.
    pub found: Option<u8>,
    /// What was expected there.
    pub expected: Expected,
}

/// The characters of the rendered "found" part.
pub open spec fn found_text(found: Option<u8>) -> Seq<char> {
    match found {
        Option::None => "end of input"@,
        Option::Some(b) => seq![b as char],
    }
}

/// The characters of the rendered "expected" part.
pub open spec fn expected_text(e: Expected) -> Seq<char> {
    match e {
        Expected::Literal => "a literal"@,
        Expected::Digit => "a digit"@,
        Expected::OctalDigit => "an octal digit"@,
        Expected::HexDigit => "a hexadecimal digit"@,
        Expected::Dot => "a decimal point"@,
        Expected::Exponent => "an exponent"@,
        Expected::ClosingQuote => "a closing quote"@,
        Expected::EndOfInput => "end of input"@,
        Expected::Expression => "an expression"@,
        Expected::ClosingParen => "a closing parenthesis"@,
        Expected::Operator => "an operator"@,
        Expected::IntegerInRange => "an integer"@,
        Expected::FloatInRange => "a float"@,
    }
}

/// The characters of the whole human-readable reason.
pub open spec fn message_text(d: Diagnostic) -> Seq<char> {
    if d.expected == Expected::IntegerInRange {
        "integer literal out of the signed 64-bit range"@
    } else if d.expected == Expected::FloatInRange {
        "float literal outside the finite 64-bit range"@
    } else {
        "found "@ + found_text(d.found) + " expected "@ + expected_text(d.expected)
    }
}

/// Relies on `format!` with a `char` argument: the result is exactly that
/// one character.
#[verifier::external_body]
fn byte_char_string(b: u8) -> (r: String)
    ensures
        r@ == seq![b as char],
{
    format!("{}", b as char)
}

impl Diagnostic {
    /// The human-readable reason, of the form `found <x> expected <y>`.
    pub fn message(&self) -> (r: String)
        ensures
            r@ == message_text(*self),
    {
        if self.expected == Expected::IntegerInRange {
            return "integer literal out of the signed 64-bit range".to_owned();
        }
        if self.expected == Expected::FloatInRange {
            return "float literal outside the finite 64-bit range".to_owned();
        }
        let mut m = "found ".to_owned();
        match self.found {
            Option::None => m.append("end of input"),
            Option::Some(b) => {
                let c = byte_char_string(b);
                m.append(c.as_str());
            },
        }
        m.append(" expected ");
        let phrase: &str = match self.expected {
            Expected::Literal => "a literal",
            Expected::Digit => "a digit",
            Expected::OctalDigit => "an octal digit",
            Expected::HexDigit => "a hexadecimal digit",
            Expected::Dot => "a decimal point",
            Expected::Exponent => "an exponent",
            Expected::ClosingQuote => "a closing quote",
            Expected::EndOfInput => "end of input",
            Expected::Expression => "an expression",
            Expected::ClosingParen => "a closing parenthesis",
            Expected::Operator => "an operator",
            Expected::IntegerInRange => "an integer",
            Expected::FloatInRange => "a float",
        };
        m.append(phrase);
        m
    }
}

} // verus!
