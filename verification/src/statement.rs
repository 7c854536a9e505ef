//! The statement layer of the AST: assignment, conditional, case dispatch,
//! iteration and control transfer.  These nodes are the data model an
//! evaluator consumes; their surface grammar is a planned extension and is
//! not wired into the parser here.

use vstd::prelude::*;

use crate::expression::Expression;
use crate::identifier::Identifier;

verus! {

/// A statement; nested statements and expressions are exclusively owned,
/// the same way expression children are.
#[derive(Debug, PartialEq)]
pub enum Statement {
    Expression(Expression),
    Assignment { target: Expression, value: Expression },
    If {
        condition: Expression,
        then_branch: Box<Statement>,
        else_branch: Option<Box<Statement>>,
    },
    Case {
        expr: Option<Expression>,
        clauses: Vec<(Expression, Statement)>,
        else_clause: Option<Box<Statement>>,
    },
    For {
        collection: Expression,
        key: Option<Identifier>,
        value: Identifier,
        body: Box<Statement>,
    },
    Break,
    Continue,
    Return(Option<Expression>),
}

} // verus!
