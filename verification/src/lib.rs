//! Lexical and syntactic front end for a small expression/rule language.
//!
//! Raw text (as bytes) goes in; an immutable [`Expression`] tree or a list of
//! span-anchored [`Diagnostic`]s comes out.  The grammar is recognized by a
//! layered set of lexers (literals, identifiers, operators) composed into a
//! precedence-climbing expression parser.

pub mod binary_operator;
pub mod diagnostic;
pub mod expression;
pub mod identifier;
pub mod literal;
pub mod numeric;
pub mod quantifier;
pub mod scan;
pub mod statement;
pub mod unary_operator;

pub use binary_operator::BinaryOperator;
pub use diagnostic::Diagnostic;
pub use diagnostic::Expected;
pub use expression::Expression;
pub use identifier::Identifier;
pub use literal::Literal;
pub use quantifier::QuantifierType;
pub use statement::Statement;
pub use unary_operator::UnaryOperator;
