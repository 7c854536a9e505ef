//! The expression grammar: primaries composed with binary operators by
//! precedence climbing.
//!
//! A primary is tried, in order: a function call, a literal, an identifier,
//! and last a prefix-unary operator applied to a full expression.  After a
//! primary, operators are folded in left-associatively while their tier is
//! at least the minimum binding tier carried through the recursion, which
//! reproduces the precedence table: `* / %` bind tighter than `+ -`, which
//! bind tighter than comparisons, which bind tighter than `and`, which
//! binds tighter than `or` and `xor`.
//!
//! Every failure is a value; in particular a numeric literal out of range
//! -- an integer beyond the signed 64-bit range, or a float whose nearest
//! double is non-finite -- aborts the parse with a diagnostic naming its
//! whole token, never a panic.
//!
//! The whole parse is specified as a function of the input bytes: each
//! exec function's result equals its `sp_*` spec mirror, and the
//! full-input parse equals [`sp_parse`], so the tree an input parses to,
//! and the diagnostic a malformed input reports, are pinned exactly.

use vstd::prelude::*;

use crate::binary_operator::{binop_token, spec_priority, BinaryOperator};
use crate::diagnostic::{Diagnostic, Expected};
use crate::identifier::{ascii_seq, ident_end, Identifier};
use crate::literal::{
    lemma_lit_hit_view, lex_literal, lit_fail_info, lit_hit_ok, lit_overflow,
    lit_token, lit_value, litv, mk_diag, overflow_diag, overflow_label, point_diag, LitHit,
    LitSel, LitV, Literal,
};
use crate::quantifier::QuantifierType;
use crate::scan::{skip_ws, ws_end, B_COMMA, B_LP, B_RP};
use crate::unary_operator::{unary_token, UnaryOperator};

verus! {

/// An immutable expression tree.  Every child is exclusively owned; there
/// is no sharing and no cycle, so dropping a node drops its subtree.
///
/// The grammar produces `Literal`, `Identifier`, `UnaryExpr`, `BinaryExpr`
/// and `Call` nodes.  The remaining kinds are the data model for planned
/// surface syntax (element access, composite literals, guarded rules and
/// quantified collection operations); an evaluator can already consume
/// them.
#[derive(Debug, PartialEq)]
pub enum Expression {
    Literal(Literal),
    Identifier(Identifier),
    UnaryExpr { op: UnaryOperator, expr: Box<Expression> },
    BinaryExpr { left: Box<Expression>, op: BinaryOperator, right: Box<Expression> },
    Call { func: Identifier, args: Vec<Expression> },
    Index { collection: Box<Expression>, index: Box<Expression> },
    Slice {
        collection: Box<Expression>,
        start: Option<Box<Expression>>,
        end: Option<Box<Expression>>,
    },
    Select { object: Box<Expression>, field: Identifier },
    List(Vec<Expression>),
    MapLit(Vec<(Expression, Expression)>),
    Rule { when: Option<Box<Expression>>, body: Box<Expression> },
    Quantifier {
        quant: QuantifierType,
        collection: Box<Expression>,
        key: Option<Identifier>,
        value: Identifier,
        body: Box<Expression>,
    },
}

/// The mathematical view of an [`Expression`]: names and token texts as
/// sequences, children boxed the same way.
pub enum ExprV {
    Literal(LitV),
    Identifier(Seq<char>),
    UnaryExpr { op: UnaryOperator, expr: Box<ExprV> },
    BinaryExpr { left: Box<ExprV>, op: BinaryOperator, right: Box<ExprV> },
    Call { func: Seq<char>, args: Seq<ExprV> },
    Index { collection: Box<ExprV>, index: Box<ExprV> },
    Slice { collection: Box<ExprV>, start: Option<Box<ExprV>>, end: Option<Box<ExprV>> },
    Select { object: Box<ExprV>, field: Seq<char> },
    List(Seq<ExprV>),
    MapLit(Seq<(ExprV, ExprV)>),
    Rule { when: Option<Box<ExprV>>, body: Box<ExprV> },
    Quantifier {
        quant: QuantifierType,
        collection: Box<ExprV>,
        key: Option<Seq<char>>,
        value: Seq<char>,
        body: Box<ExprV>,
    },
}

/// The view of an expression tree.
pub open spec fn exprv(x: Expression) -> ExprV
    decreases x,
    via exprv_dec
{
    match x {
        Expression::Literal(l) => ExprV::Literal(litv(l)),
        Expression::Identifier(id) => ExprV::Identifier(id.0@),
        Expression::UnaryExpr { op, expr } => ExprV::UnaryExpr {
            op,
            expr: Box::new(exprv(*expr)),
        },
        Expression::BinaryExpr { left, op, right } => ExprV::BinaryExpr {
            left: Box::new(exprv(*left)),
            op,
            right: Box::new(exprv(*right)),
        },
        Expression::Call { func, args } => ExprV::Call {
            func: func.0@,
            args: exprv_seq(args@),
        },
        Expression::Index { collection, index } => ExprV::Index {
            collection: Box::new(exprv(*collection)),
            index: Box::new(exprv(*index)),
        },
        Expression::Slice { collection, start, end } => ExprV::Slice {
            collection: Box::new(exprv(*collection)),
            start: match start {
                Option::Some(b) => Option::Some(Box::new(exprv(*b))),
                Option::None => Option::None,
            },
            end: match end {
                Option::Some(b) => Option::Some(Box::new(exprv(*b))),
                Option::None => Option::None,
            },
        },
        Expression::Select { object, field } => ExprV::Select {
            object: Box::new(exprv(*object)),
            field: field.0@,
        },
        Expression::List(items) => ExprV::List(exprv_seq(items@)),
        Expression::MapLit(pairs) => ExprV::MapLit(exprv_pairs(pairs@)),
        Expression::Rule { when, body } => ExprV::Rule {
            when: match when {
                Option::Some(b) => Option::Some(Box::new(exprv(*b))),
                Option::None => Option::None,
            },
            body: Box::new(exprv(*body)),
        },
        Expression::Quantifier { quant, collection, key, value, body } => ExprV::Quantifier {
            quant,
            collection: Box::new(exprv(*collection)),
            key: match key {
                Option::Some(k) => Option::Some(k.0@),
                Option::None => Option::None,
            },
            value: value.0@,
            body: Box::new(exprv(*body)),
        },
    }
}

#[via_fn]
proof fn exprv_dec(x: Expression) {
    match x {
        Expression::Call { func, args } => {
            assert(decreases_to!(x => args));
            assert(decreases_to!(args => args@));
        },
        Expression::List(items) => {
            assert(decreases_to!(x => items));
            assert(decreases_to!(items => items@));
        },
        Expression::MapLit(pairs) => {
            assert(decreases_to!(x => pairs));
            assert(decreases_to!(pairs => pairs@));
        },
        _ => {},
    }
}

/// The views of a sequence of expressions, in order.
pub open spec fn exprv_seq(vs: Seq<Expression>) -> Seq<ExprV>
    decreases vs,
    via exprv_seq_dec
{
    if vs.len() == 0 {
        Seq::empty()
    } else {
        exprv_seq(vs.subrange(0, vs.len() - 1)).push(exprv(vs[vs.len() - 1]))
    }
}

#[via_fn]
proof fn exprv_seq_dec(vs: Seq<Expression>) {
    if vs.len() > 0 {
        assert(decreases_to!(vs => vs.subrange(0, vs.len() - 1)));
        assert(decreases_to!(vs => vs[vs.len() - 1]));
    }
}

/// The views of a sequence of expression pairs, in order.
pub open spec fn exprv_pairs(vs: Seq<(Expression, Expression)>) -> Seq<(ExprV, ExprV)>
    decreases vs,
    via exprv_pairs_dec
{
    if vs.len() == 0 {
        Seq::empty()
    } else {
        exprv_pairs(vs.subrange(0, vs.len() - 1)).push(
            (exprv(vs[vs.len() - 1].0), exprv(vs[vs.len() - 1].1)),
        )
    }
}

#[via_fn]
proof fn exprv_pairs_dec(vs: Seq<(Expression, Expression)>) {
    if vs.len() > 0 {
        assert(decreases_to!(vs => vs.subrange(0, vs.len() - 1)));
        assert(decreases_to!(vs => vs[vs.len() - 1]));
        assert(decreases_to!(vs[vs.len() - 1] => vs[vs.len() - 1].0));
        assert(decreases_to!(vs[vs.len() - 1] => vs[vs.len() - 1].1));
    }
}

/// Appending an expression appends its view.
pub proof fn lemma_exprv_seq_push(vs: Seq<Expression>, x: Expression)
    ensures
        exprv_seq(vs.push(x)) == exprv_seq(vs).push(exprv(x)),
{
    let w = vs.push(x);
    assert(w.subrange(0, w.len() - 1) =~= vs);
    assert(w[w.len() - 1] == x);
}

/// The precedence discipline of a parsed tree, below a minimum binding
/// tier: a binary node's operator binds at tier `min` or tighter, its left
/// child keeps at least that operator's tier, and its right child binds
/// strictly tighter, while a unary operand is a full expression again.
/// This both reproduces the precedence table (`5+3*2` can only be shaped
/// `Add(5, Multiply(3,2))`, never `Multiply(Add(5,3), 2)`) and forces left
/// associativity (`10-3-2` can only be shaped
/// `Subtract(Subtract(10,3), 2)`: a right child never repeats its
/// parent's tier).
pub open spec fn wf_prec(x: Expression, min: int) -> bool
    decreases x,
{
    match x {
        Expression::BinaryExpr { left, op, right } => spec_priority(op) >= min && wf_prec(
            *left,
            spec_priority(op),
        ) && wf_prec(*right, spec_priority(op) + 1),
        Expression::UnaryExpr { op: _, expr } => wf_prec(*expr, 1),
        _ => true,
    }
}

/// Lowering the minimum binding tier preserves the precedence discipline.
pub proof fn lemma_wf_prec_mono(x: Expression, a: int, b: int)
    requires
        wf_prec(x, a),
        b <= a,
    ensures
        wf_prec(x, b),
{
    match x {
        Expression::BinaryExpr { left, op, right } => {},
        _ => {},
    }
}

/// One step of the parse: a node and the position after it, a recoverable
/// failure with its position and expectation, or a failure that ends the
/// whole parse with a ready diagnostic.
pub enum PRes {
    Hit(Expression, usize),
    Fail(usize, Expected),
    Fatal(Diagnostic),
}

/// The view of one parse step.
pub enum PResV {
    HitV(ExprV, int),
    FailV(int, Expected),
    FatalV(Diagnostic),
}

/// The view of a parse step's result.
pub open spec fn pres_v(r: PRes) -> PResV {
    match r {
        PRes::Hit(x, e) => PResV::HitV(exprv(x), e as int),
        PRes::Fail(fp, fe) => PResV::FailV(fp as int, fe),
        PRes::Fatal(d) => PResV::FatalV(d),
    }
}

/// The parse of a function call at `p`, as a function of the input bytes:
/// an identifier, whitespace, `(`; then either an immediate `)` or the
/// argument list.  Where no identifier or no `(` stands, the recoverable
/// failure points there.
pub open spec fn sp_function(s: Seq<u8>, pos: int) -> PResV
    recommends
        0 <= pos <= s.len(),
    decreases s.len() - pos, 1int
{
    match ident_end(s, pos) {
        Option::None => PResV::FailV(pos, Expected::Expression),
        Option::Some(ie) => {
            let q = ws_end(s, ie);
            if q < s.len() && s[q] == B_LP {
                let p = ws_end(s, q + 1);
                if p < s.len() && s[p] == B_RP {
                    PResV::HitV(
                        ExprV::Call { func: ascii_seq(s.subrange(pos, ie)), args: Seq::empty() },
                        ws_end(s, p + 1),
                    )
                } else if pos < p <= s.len() {
                    sp_args(s, p, ascii_seq(s.subrange(pos, ie)), Seq::empty())
                } else {
                    PResV::FailV(pos, Expected::Expression)
                }
            } else {
                PResV::FailV(q, Expected::Expression)
            }
        },
    }
}

/// The parse of the non-empty argument list of `func` from `pos`: one
/// expression, then either a comma and the rest, or the closing
/// parenthesis, else a failure at the offending position.
pub open spec fn sp_args(s: Seq<u8>, pos: int, func: Seq<char>, args: Seq<ExprV>) -> PResV
    recommends
        0 <= pos <= s.len(),
    decreases s.len() - pos, 4int
{
    match sp_expr(s, pos, 1) {
        PResV::HitV(arg, pe) => {
            let args2 = args.push(arg);
            let q = ws_end(s, pe);
            if q < s.len() && s[q] == B_COMMA {
                let p2 = ws_end(s, q + 1);
                if pos < p2 <= s.len() {
                    sp_args(s, p2, func, args2)
                } else {
                    PResV::FailV(q, Expected::ClosingParen)
                }
            } else if q < s.len() && s[q] == B_RP {
                PResV::HitV(ExprV::Call { func, args: args2 }, ws_end(s, q + 1))
            } else {
                PResV::FailV(q, Expected::ClosingParen)
            }
        },
        o => o,
    }
}

/// The parse of one primary at `pos`: a call, else a literal (an
/// out-of-range one ends the parse), else an identifier, else a prefix
/// operator applied to a full expression; where everything fails, the
/// deeper of the call attempt's and the literal lexer's failures.
pub open spec fn sp_primary(s: Seq<u8>, pos: int) -> PResV
    recommends
        0 <= pos <= s.len(),
    decreases s.len() - pos, 2int
{
    match sp_function(s, pos) {
        PResV::FailV(ffp, ffe) => match lit_token(s, pos) {
            Option::Some(t) => if lit_overflow(s, pos, t.0, t.1) {
                PResV::FatalV(overflow_diag(pos, t.1, overflow_label(t.0)))
            } else {
                PResV::HitV(ExprV::Literal(lit_value(s, pos)), t.1)
            },
            Option::None => match ident_end(s, pos) {
                Option::Some(ie) => PResV::HitV(
                    ExprV::Identifier(ascii_seq(s.subrange(pos, ie))),
                    ie,
                ),
                Option::None => match unary_token(s, pos) {
                    Option::Some(u) => if pos < u.1 <= s.len() {
                        match sp_expr(s, u.1, 1) {
                            PResV::HitV(x, e) => PResV::HitV(
                                ExprV::UnaryExpr { op: u.0, expr: Box::new(x) },
                                e,
                            ),
                            o => o,
                        }
                    } else {
                        PResV::FailV(pos, Expected::Expression)
                    },
                    Option::None => if lit_fail_info(s, pos).0 >= ffp {
                        PResV::FailV(lit_fail_info(s, pos).0, lit_fail_info(s, pos).1)
                    } else {
                        PResV::FailV(ffp, ffe)
                    },
                },
            },
        },
        o => o,
    }
}

/// The left-associative operator fold from `p` onto `lhs`, at minimum
/// binding tier `min`: stop where no operator stands or it binds looser;
/// otherwise parse the right operand one tier up and fold.
pub open spec fn sp_binops(s: Seq<u8>, lhs: ExprV, p: int, min: int) -> PResV
    recommends
        0 <= p <= s.len(),
    decreases s.len() - p, 0int
{
    match binop_token(s, ws_end(s, p)) {
        Option::None => PResV::HitV(lhs, p),
        Option::Some(t) => if spec_priority(t.0) < min {
            PResV::HitV(lhs, p)
        } else {
            let q2 = ws_end(s, t.1);
            if p < q2 <= s.len() {
                match sp_expr(s, q2, spec_priority(t.0) + 1) {
                    PResV::HitV(rhs, p2) => if p < p2 <= s.len() {
                        sp_binops(
                            s,
                            ExprV::BinaryExpr {
                                left: Box::new(lhs),
                                op: t.0,
                                right: Box::new(rhs),
                            },
                            p2,
                            min,
                        )
                    } else {
                        PResV::FailV(p, Expected::EndOfInput)
                    },
                    o => o,
                }
            } else {
                PResV::FailV(p, Expected::EndOfInput)
            }
        },
    }
}

/// The parse of one expression at `pos` with minimum binding tier `min`:
/// a primary, then the operator fold.
pub open spec fn sp_expr(s: Seq<u8>, pos: int, min: int) -> PResV
    recommends
        0 <= pos <= s.len(),
    decreases s.len() - pos, 3int
{
    match sp_primary(s, pos) {
        PResV::HitV(lhs, p) => if pos <= p <= s.len() {
            sp_binops(s, lhs, p, min)
        } else {
            PResV::FailV(pos, Expected::Expression)
        },
        o => o,
    }
}

/// The full-input expression parse, as a function of the input bytes:
/// the parsed tree when one expression covers the whole input, otherwise
/// the single diagnostic reported -- at offset zero for empty input, at
/// the first unconsumed byte for trailing input, at the failure position
/// otherwise, and the out-of-range literal diagnostic as it stands.
pub open spec fn sp_parse(s: Seq<u8>) -> Result<ExprV, Diagnostic> {
    if s.len() == 0 {
        Result::Err(point_diag(s, 0, Expected::Expression))
    } else {
        match sp_expr(s, 0, 1) {
            PResV::HitV(x, e) => if e == s.len() {
                Result::Ok(x)
            } else {
                Result::Err(point_diag(s, e, Expected::EndOfInput))
            },
            PResV::FailV(fp, fe) => Result::Err(point_diag(s, fp, fe)),
            PResV::FatalV(d) => Result::Err(d),
        }
    }
}

impl Expression {
    /// Wrap a unary operator application, boxing the operand.
    pub fn unary_expr(op: UnaryOperator, expr: Self) -> (r: Self)
        ensures
            (match r {
                Expression::UnaryExpr { op: o, expr: e } => o == op && *e == expr,
                _ => false,
            }),
    {
        Expression::UnaryExpr { op, expr: Box::new(expr) }
    }

    /// Wrap a binary operator application, boxing both operands.
    pub fn binary_expr(lhs: Self, op: BinaryOperator, rhs: Self) -> (r: Self)
        ensures
            (match r {
                Expression::BinaryExpr { left, op: o, right } => o == op && *left == lhs && *right
                    == rhs,
                _ => false,
            }),
    {
        Expression::BinaryExpr { left: Box::new(lhs), op, right: Box::new(rhs) }
    }

    /// Wrap a function call.
    pub fn call(func: Identifier, args: Vec<Expression>) -> (r: Self)
        ensures
            (match r {
                Expression::Call { func: f, args: a } => f == func && a == args,
                _ => false,
            }),
    {
        Expression::Call { func, args }
    }

    /// Lex a literal at `pos` into a `Literal` node.  A numeric literal
    /// out of range is fatal, with a diagnostic naming its whole token.
    pub fn literal(s: &[u8], pos: usize) -> (r: PRes)
        requires
            pos <= s@.len(),
        ensures
            (match r {
                PRes::Hit(x, e) => pos < e <= s@.len() && (match x {
                    Expression::Literal(l) => lit_hit_ok(s@, pos as int, LitHit::Lit(l, e)),
                    _ => false,
                }),
                PRes::Fail(fp, fe) => lit_token(s@, pos as int) is None && fp as int
                    == lit_fail_info(s@, pos as int).0 && fe == lit_fail_info(s@, pos as int).1
                    && fp <= s@.len(),
                PRes::Fatal(d) => (match lit_token(s@, pos as int) {
                    Option::Some(t) => lit_overflow(s@, pos as int, t.0, t.1) && d
                        == overflow_diag(pos as int, t.1, overflow_label(t.0)),
                    Option::None => false,
                }),
            }),
    {
        let n = s.len();
        let (hit, fpos, fexp) = lex_literal(s, pos);
        proof {
            assert(s@.len() <= usize::MAX);
            if lit_token(s@, pos as int) is None {
                assert(hit is Miss);
            }
        }
        match hit {
            LitHit::Lit(l, e) => {
                proof {
                    let tok = lit_token(s@, pos as int);
                    assert(tok is Some);
                    let t = tok->Some_0;
                    assert(lit_hit_ok(s@, pos as int, LitHit::Lit(l, e)));
                    match t.0 {
                        LitSel::FloatTok => assert(e as int == t.1),
                        LitSel::HexTok => assert(e as int == t.1),
                        LitSel::OctTok => assert(e as int == t.1),
                        LitSel::DecTok => assert(e as int == t.1),
                        LitSel::StrTok => assert(e as int == t.1),
                        LitSel::TrueTok => assert(e as int == t.1),
                        LitSel::FalseTok => assert(e as int == t.1),
                        LitSel::UndefTok => assert(e as int == t.1),
                        LitSel::NullTok => assert(e as int == t.1),
                    }
                    assert(pos < e <= s@.len());
                }
                PRes::Hit(Expression::Literal(l), e)
            },
            LitHit::Overflow(a, b, x) => PRes::Fatal(
                Diagnostic { start: a, end: b, found: None, expected: x },
            ),
            LitHit::Miss => PRes::Fail(fpos, fexp),
        }
    }

    /// Lex an identifier at `pos` into an `Identifier` node.
    pub fn identifier(s: &[u8], pos: usize) -> (r: PRes)
        requires
            pos <= s@.len(),
        ensures
            (match r {
                PRes::Hit(x, e) => ident_end(s@, pos as int) == Option::Some(e as int) && pos < e
                    <= s@.len() && (match x {
                    Expression::Identifier(id) => id.0@ == ascii_seq(
                        s@.subrange(pos as int, e as int),
                    ),
                    _ => false,
                }),
                PRes::Fail(fp, fe) => ident_end(s@, pos as int) is None && fp == pos && fe
                    == Expected::Expression,
                PRes::Fatal(_) => false,
            }),
    {
        match Identifier::parser(s, pos) {
            Some((id, e)) => PRes::Hit(Expression::Identifier(id), e),
            None => PRes::Fail(pos, Expected::Expression),
        }
    }

    /// Parse a function call at `pos`: an identifier, then a
    /// comma-separated, possibly empty argument list in parentheses, with
    /// insignificant whitespace around the punctuation and after the
    /// closing parenthesis.
    pub fn function(s: &[u8], pos: usize) -> (r: PRes)
        requires
            pos <= s@.len(),
        ensures
            (match r {
                PRes::Hit(x, e) => pos < e <= s@.len() && (x matches Expression::Call {
                    func: _,
                    args: _,
                }),
                PRes::Fail(fp, _) => fp <= s@.len(),
                PRes::Fatal(_) => true,
            }),
            pres_v(r) == sp_function(s@, pos as int),
        decreases s@.len() - pos, 1int,
    {
        let (id, ie) = match Identifier::parser(s, pos) {
            Some(t) => t,
            None => {
                return PRes::Fail(pos, Expected::Expression);
            },
        };
        let q = skip_ws(s, ie);
        if q == s.len() || s[q] != B_LP {
            return PRes::Fail(q, Expected::Expression);
        }
        let p = skip_ws(s, q + 1);
        if p < s.len() && s[p] == B_RP {
            let e = skip_ws(s, p + 1);
            let args: Vec<Expression> = Vec::new();
            proof {
                assert(args@ =~= Seq::<Expression>::empty());
                assert(exprv_seq(args@) =~= Seq::<ExprV>::empty());
            }
            return PRes::Hit(Expression::Call { func: id, args }, e);
        }
        let args: Vec<Expression> = Vec::new();
        proof {
            assert(args@ =~= Seq::<Expression>::empty());
            assert(exprv_seq(args@) =~= Seq::<ExprV>::empty());
        }
        parse_args(s, p, id, args)
    }

    /// Parse the whole input as one expression.
    ///
    /// The result is exactly [`sp_parse`] of the input bytes: the parsed
    /// tree when one expression covers the whole input, else one
    /// diagnostic -- at offset zero for empty input, at the first
    /// unconsumed byte for trailing input, naming an out-of-range numeric
    /// token, or at the failure position otherwise.  Every successful
    /// result also obeys the precedence discipline [`wf_prec`].
    pub fn parser(input: &[u8]) -> (r: Result<Expression, Vec<Diagnostic>>)
        ensures
            (match r {
                Result::Ok(x) => input@.len() > 0 && wf_prec(x, 1),
                Result::Err(ds) => ds@.len() == 1,
            }),
            (match r {
                Result::Ok(x) => sp_parse(input@) == Result::<ExprV, Diagnostic>::Ok(exprv(x)),
                Result::Err(ds) => sp_parse(input@) == Result::<ExprV, Diagnostic>::Err(ds@[0]),
            }),
    {
        if input.len() == 0 {
            return Err(
                vec![
                    Diagnostic { start: 0, end: 0, found: None, expected: Expected::Expression },
                ],
            );
        }
        proof {
            assert(ws_end(input@, input@.len() as int) == input@.len());
        }
        match parse_expr(input, 0, 1) {
            PRes::Hit(x, e) => {
                if e == input.len() {
                    Ok(x)
                } else {
                    Err(vec![mk_diag(input, e, Expected::EndOfInput)])
                }
            },
            PRes::Fail(fp, fe) => Err(vec![mk_diag(input, fp, fe)]),
            PRes::Fatal(d) => Err(vec![d]),
        }
    }
}

/// Parse the non-empty argument list of `func`, the first argument
/// starting at `pos`, and finish the call at its closing parenthesis.
fn parse_args(s: &[u8], pos: usize, func: Identifier, args: Vec<Expression>) -> (r: PRes)
    requires
        pos <= s@.len(),
    ensures
        (match r {
            PRes::Hit(x, e) => pos < e <= s@.len() && (x matches Expression::Call {
                func: _,
                args: _,
            }),
            PRes::Fail(fp, _) => fp <= s@.len(),
            PRes::Fatal(_) => true,
        }),
        pres_v(r) == sp_args(s@, pos as int, func.0@, exprv_seq(args@)),
    decreases s@.len() - pos, 4int,
{
    match parse_expr(s, pos, 1) {
        PRes::Hit(arg, pe) => {
            let mut args = args;
            proof {
                lemma_exprv_seq_push(args@, arg);
            }
            args.push(arg);
            let q = skip_ws(s, pe);
            if q < s.len() && s[q] == B_COMMA {
                let p2 = skip_ws(s, q + 1);
                parse_args(s, p2, func, args)
            } else if q < s.len() && s[q] == B_RP {
                let e = skip_ws(s, q + 1);
                PRes::Hit(Expression::Call { func, args }, e)
            } else {
                PRes::Fail(q, Expected::ClosingParen)
            }
        },
        PRes::Fail(fp, fe) => PRes::Fail(fp, fe),
        PRes::Fatal(d) => PRes::Fatal(d),
    }
}

/// Parse one primary expression at `pos`, trying in order: a function
/// call, a literal, an identifier, and last a prefix-unary operator
/// applied to a full expression.  When everything fails, the reported
/// failure is the deeper of the call attempt's and the literal lexer's.
fn parse_primary(s: &[u8], pos: usize) -> (r: PRes)
    requires
        pos <= s@.len(),
    ensures
        (match r {
            PRes::Hit(x, e) => pos < e <= s@.len(),
            PRes::Fail(fp, _) => fp <= s@.len(),
            PRes::Fatal(_) => true,
        }),
        (match r {
            PRes::Hit(x, _) => wf_prec(x, 6),
            _ => true,
        }),
        pres_v(r) == sp_primary(s@, pos as int),
    decreases s@.len() - pos, 2int,
{
    let n = s.len();
    let (ffp, ffe) = match Expression::function(s, pos) {
        PRes::Hit(x, e) => {
            return PRes::Hit(x, e);
        },
        PRes::Fatal(d) => {
            return PRes::Fatal(d);
        },
        PRes::Fail(a, b) => (a, b),
    };
    let (lfp, lfe) = match Expression::literal(s, pos) {
        PRes::Hit(x, e) => {
            proof {
                let tok = lit_token(s@, pos as int);
                assert(tok is Some);
                let t = tok->Some_0;
                match &x {
                    Expression::Literal(l) => {
                        assert(!lit_overflow(s@, pos as int, t.0, t.1)) by {
                            if lit_overflow(s@, pos as int, t.0, t.1) {
                                match t.0 {
                                    LitSel::FloatTok => assert(false),
                                    LitSel::HexTok => assert(false),
                                    LitSel::OctTok => assert(false),
                                    LitSel::DecTok => assert(false),
                                    _ => assert(false),
                                }
                            }
                        }
                        lemma_lit_hit_view(s@, pos as int, *l, e);
                    },
                    _ => {},
                }
            }
            return PRes::Hit(x, e);
        },
        PRes::Fatal(d) => {
            return PRes::Fatal(d);
        },
        PRes::Fail(a, b) => (a, b),
    };
    if let Some((id, e)) = Identifier::parser(s, pos) {
        return PRes::Hit(Expression::Identifier(id), e);
    }
    if let Some((op, oe)) = UnaryOperator::parser(s, pos) {
        return match parse_expr(s, oe, 1) {
            PRes::Hit(x, e) => PRes::Hit(Expression::unary_expr(op, x), e),
            PRes::Fail(a, b) => PRes::Fail(a, b),
            PRes::Fatal(d) => PRes::Fatal(d),
        };
    }
    if lfp >= ffp {
        PRes::Fail(lfp, lfe)
    } else {
        PRes::Fail(ffp, ffe)
    }
}

/// Fold binary operators into `lhs` left-associatively while the next
/// operator's tier is at least `min`; stops, consuming nothing further,
/// at the first operator that binds looser, or where no operator stands.
fn parse_binops(s: &[u8], lhs: Expression, p: usize, min: u32) -> (r: PRes)
    requires
        p <= s@.len(),
        1 <= min <= 6,
        wf_prec(lhs, min as int),
        (match binop_token(s@, ws_end(s@, p as int)) {
            Option::Some(t) => wf_prec(lhs, spec_priority(t.0)),
            Option::None => true,
        }),
    ensures
        (match r {
            PRes::Hit(x, e) => p <= e <= s@.len() && wf_prec(x, min as int) && (match binop_token(
                s@,
                ws_end(s@, e as int),
            ) {
                Option::Some(t) => spec_priority(t.0) < min,
                Option::None => true,
            }),
            PRes::Fail(fp, _) => fp <= s@.len(),
            PRes::Fatal(_) => true,
        }),
        pres_v(r) == sp_binops(s@, exprv(lhs), p as int, min as int),
    decreases s@.len() - p, 0int,
{
    let q = skip_ws(s, p);
    match BinaryOperator::any_token(s, q) {
        None => PRes::Hit(lhs, p),
        Some((op, opend)) => {
            let t = op.priority();
            if t < min {
                return PRes::Hit(lhs, p);
            }
            let q2 = skip_ws(s, opend);
            match parse_expr(s, q2, t + 1) {
                PRes::Hit(rhs, p2) => parse_binops(
                    s,
                    Expression::binary_expr(lhs, op, rhs),
                    p2,
                    min,
                ),
                PRes::Fail(a, b) => PRes::Fail(a, b),
                PRes::Fatal(d) => PRes::Fatal(d),
            }
        },
    }
}

/// Parse an expression at `pos` whose binary operators all bind at tier
/// `min` or tighter: a primary, then the left-associative operator fold.
fn parse_expr(s: &[u8], pos: usize, min: u32) -> (r: PRes)
    requires
        pos <= s@.len(),
        1 <= min <= 6,
    ensures
        (match r {
            PRes::Hit(x, e) => pos < e <= s@.len() && wf_prec(x, min as int) && (match
                binop_token(s@, ws_end(s@, e as int)) {
                Option::Some(t) => spec_priority(t.0) < min,
                Option::None => true,
            }),
            PRes::Fail(fp, _) => fp <= s@.len(),
            PRes::Fatal(_) => true,
        }),
        pres_v(r) == sp_expr(s@, pos as int, min as int),
    decreases s@.len() - pos, 3int,
{
    match parse_primary(s, pos) {
        PRes::Hit(lhs, p) => {
            proof {
                lemma_wf_prec_mono(lhs, 6, min as int);
                match binop_token(s@, ws_end(s@, p as int)) {
                    Option::Some(t) => lemma_wf_prec_mono(lhs, 6, spec_priority(t.0)),
                    Option::None => (),
                }
            }
            parse_binops(s, lhs, p, min)
        },
        PRes::Fail(a, b) => PRes::Fail(a, b),
        PRes::Fatal(d) => PRes::Fatal(d),
    }
}

} // verus!
