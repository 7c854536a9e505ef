//! The binary infix operator lexers, one per precedence tier.
//!
//! Two-character comparisons (`==`, `!=`, `<=`, `>=`) are tried before
//! their one-character prefixes, and `is not` before `is`, so that no
//! operator is truncated.  A word operator (`and`, `or`, `xor`, `in`, `is`,
//! `is not`, `matches`, `not matches`, `contains`) requires a trailing word
//! boundary: it must not be the prefix of a longer identifier.

use vstd::prelude::*;

use crate::diagnostic::{Diagnostic, Expected};
use crate::literal::{at_kw, kw_probe, mk_diag, point_diag};
use crate::scan::{
    ident_cont, is_ident_cont, skip_ws, ws_end, B_BANG, B_EQ, B_GT, B_LC_A, B_LC_C, B_LC_D,
    B_LC_E, B_LC_H, B_LC_I, B_LC_M, B_LC_N, B_LC_O, B_LC_R, B_LC_S, B_LC_T, B_LC_X, B_MINUS,
    B_PCT, B_PLUS, B_SLASH, B_SP, B_STAR, B_LT,
};

verus! {

/// An infix operator; the five precedence tiers are given by [`BinaryOperator::priority`].
#[derive(Debug, Clone, Copy, PartialEq, Eq, Structural)]
pub enum BinaryOperator {
    Add,
    Subtract,
    Multiply,
    Divide,
    Modulus,
    Equals,
    NotEquals,
    LessThan,
    GreaterThan,
    LessThanOrEqual,
    GreaterThanOrEqual,
    And,
    Or,
    Xor,
    Contains,
    In,
    Matches,
    NotMatches,
    Is,
    IsNot,
}

/// The binding priority of an operator; a higher tier binds tighter.
pub open spec fn spec_priority(op: BinaryOperator) -> int {
    match op {
        BinaryOperator::Multiply | BinaryOperator::Divide | BinaryOperator::Modulus => 5,
        BinaryOperator::Add | BinaryOperator::Subtract => 4,
        BinaryOperator::And => 2,
        BinaryOperator::Or | BinaryOperator::Xor => 1,
        _ => 3,
    }
}

/// Whether the word `w` stands at `p` with a trailing word boundary: the
/// next byte, if any, must not continue an identifier.
pub open spec fn word_at(s: Seq<u8>, p: int, w: Seq<u8>) -> bool {
    at_kw(s, p, w) && (p + w.len() == s.len() || !is_ident_cont(s[p + w.len()]))
}

/// The bytes of `and`.
pub open spec fn kw_and() -> Seq<u8> {
    seq![B_LC_A, B_LC_N, B_LC_D]
}

/// The bytes of `or`.
pub open spec fn kw_or() -> Seq<u8> {
    seq![B_LC_O, B_LC_R]
}

/// The bytes of `xor`.
pub open spec fn kw_xor() -> Seq<u8> {
    seq![B_LC_X, B_LC_O, B_LC_R]
}

/// The bytes of `in`.
pub open spec fn kw_in() -> Seq<u8> {
    seq![B_LC_I, B_LC_N]
}

/// The bytes of `is`.
pub open spec fn kw_is() -> Seq<u8> {
    seq![B_LC_I, B_LC_S]
}

/// The bytes of `is not`.
pub open spec fn kw_is_not() -> Seq<u8> {
    seq![B_LC_I, B_LC_S, B_SP, B_LC_N, B_LC_O, B_LC_T]
}

/// The bytes of `matches`.
pub open spec fn kw_matches() -> Seq<u8> {
    seq![B_LC_M, B_LC_A, B_LC_T, B_LC_C, B_LC_H, B_LC_E, B_LC_S]
}

/// The bytes of `not matches`.
pub open spec fn kw_not_matches() -> Seq<u8> {
    seq![B_LC_N, B_LC_O, B_LC_T, B_SP, B_LC_M, B_LC_A, B_LC_T, B_LC_C, B_LC_H, B_LC_E, B_LC_S]
}

/// The bytes of `contains`.
pub open spec fn kw_contains() -> Seq<u8> {
    seq![B_LC_C, B_LC_O, B_LC_N, B_LC_T, B_LC_A, B_LC_I, B_LC_N, B_LC_S]
}

/// The multiplicative operator at `p` (`*`, `/`, `%`), tier 5.
pub open spec fn multiplicative_token(s: Seq<u8>, p: int) -> Option<(BinaryOperator, int)>
    recommends
        0 <= p <= s.len(),
{
    if p < s.len() && s[p] == B_STAR {
        Option::Some((BinaryOperator::Multiply, p + 1))
    } else if p < s.len() && s[p] == B_SLASH {
        Option::Some((BinaryOperator::Divide, p + 1))
    } else if p < s.len() && s[p] == B_PCT {
        Option::Some((BinaryOperator::Modulus, p + 1))
    } else {
        Option::None
    }
}

/// The additive operator at `p` (`+`, `-`), tier 4.
pub open spec fn additive_token(s: Seq<u8>, p: int) -> Option<(BinaryOperator, int)>
    recommends
        0 <= p <= s.len(),
{
    if p < s.len() && s[p] == B_PLUS {
        Option::Some((BinaryOperator::Add, p + 1))
    } else if p < s.len() && s[p] == B_MINUS {
        Option::Some((BinaryOperator::Subtract, p + 1))
    } else {
        Option::None
    }
}

/// The comparison operator at `p`, tier 3.  Two-character forms come
/// before their one-character prefixes, and `is not` before `is`.
pub open spec fn comparison_token(s: Seq<u8>, p: int) -> Option<(BinaryOperator, int)>
    recommends
        0 <= p <= s.len(),
{
    if p + 2 <= s.len() && s[p] == B_EQ && s[p + 1] == B_EQ {
        Option::Some((BinaryOperator::Equals, p + 2))
    } else if p + 2 <= s.len() && s[p] == B_BANG && s[p + 1] == B_EQ {
        Option::Some((BinaryOperator::NotEquals, p + 2))
    } else if p + 2 <= s.len() && s[p] == B_LT && s[p + 1] == B_EQ {
        Option::Some((BinaryOperator::LessThanOrEqual, p + 2))
    } else if p < s.len() && s[p] == B_LT {
        Option::Some((BinaryOperator::LessThan, p + 1))
    } else if p + 2 <= s.len() && s[p] == B_GT && s[p + 1] == B_EQ {
        Option::Some((BinaryOperator::GreaterThanOrEqual, p + 2))
    } else if p < s.len() && s[p] == B_GT {
        Option::Some((BinaryOperator::GreaterThan, p + 1))
    } else if word_at(s, p, kw_is_not()) {
        Option::Some((BinaryOperator::IsNot, p + 6))
    } else if word_at(s, p, kw_is()) {
        Option::Some((BinaryOperator::Is, p + 2))
    } else if word_at(s, p, kw_matches()) {
        Option::Some((BinaryOperator::Matches, p + 7))
    } else if word_at(s, p, kw_not_matches()) {
        Option::Some((BinaryOperator::NotMatches, p + 11))
    } else if word_at(s, p, kw_contains()) {
        Option::Some((BinaryOperator::Contains, p + 8))
    } else if word_at(s, p, kw_in()) {
        Option::Some((BinaryOperator::In, p + 2))
    } else {
        Option::None
    }
}

/// The conjunction operator at `p` (`and`), tier 2.
pub open spec fn and_token(s: Seq<u8>, p: int) -> Option<(BinaryOperator, int)>
    recommends
        0 <= p <= s.len(),
{
    if word_at(s, p, kw_and()) {
        Option::Some((BinaryOperator::And, p + 3))
    } else {
        Option::None
    }
}

/// The disjunction operator at `p` (`or`, `xor`), tier 1.
pub open spec fn or_xor_token(s: Seq<u8>, p: int) -> Option<(BinaryOperator, int)>
    recommends
        0 <= p <= s.len(),
{
    if word_at(s, p, kw_or()) {
        Option::Some((BinaryOperator::Or, p + 2))
    } else if word_at(s, p, kw_xor()) {
        Option::Some((BinaryOperator::Xor, p + 3))
    } else {
        Option::None
    }
}

/// The binary operator at `p`, trying the tiers in the order additive,
/// multiplicative, comparison, conjunction, disjunction.
pub open spec fn binop_token(s: Seq<u8>, p: int) -> Option<(BinaryOperator, int)>
    recommends
        0 <= p <= s.len(),
{
    match additive_token(s, p) {
        Option::Some(t) => Option::Some(t),
        Option::None => match multiplicative_token(s, p) {
            Option::Some(t) => Option::Some(t),
            Option::None => match comparison_token(s, p) {
                Option::Some(t) => Option::Some(t),
                Option::None => match and_token(s, p) {
                    Option::Some(t) => Option::Some(t),
                    Option::None => or_xor_token(s, p),
                },
            },
        },
    }
}

/// Whether the word `w` stands at `pos` with a trailing word boundary.
fn word_probe(s: &[u8], pos: usize, w: &[u8]) -> (r: bool)
    requires
        pos <= s@.len(),
    ensures
        r == word_at(s@, pos as int, w@),
{
    let n = s.len();
    let (m, _) = kw_probe(s, pos, w);
    if !m {
        return false;
    }
    proof {
        assert(pos + w@.len() <= n);
    }
    let e = pos + w.len();
    e == s.len() || !ident_cont(s[e])
}

impl BinaryOperator {
    /// The binding priority of this operator; a higher tier binds tighter.
    pub fn priority(&self) -> (r: u32)
        ensures
            r as int == spec_priority(*self),
    {
        match self {
            BinaryOperator::Multiply | BinaryOperator::Divide | BinaryOperator::Modulus => 5,
            BinaryOperator::Add | BinaryOperator::Subtract => 4,
            BinaryOperator::And => 2,
            BinaryOperator::Or | BinaryOperator::Xor => 1,
            _ => 3,
        }
    }

    /// Lex a multiplicative operator at `pos`.
    pub fn multiplicative(s: &[u8], pos: usize) -> (r: Option<(BinaryOperator, usize)>)
        requires
            pos <= s@.len(),
        ensures
            (match r {
                Option::Some(t) => multiplicative_token(s@, pos as int) == Option::Some(
                    (t.0, t.1 as int),
                ) && pos < t.1 <= s@.len(),
                Option::None => multiplicative_token(s@, pos as int) is None,
            }),
    {
        if pos < s.len() && s[pos] == B_STAR {
            Some((BinaryOperator::Multiply, pos + 1))
        } else if pos < s.len() && s[pos] == B_SLASH {
            Some((BinaryOperator::Divide, pos + 1))
        } else if pos < s.len() && s[pos] == B_PCT {
            Some((BinaryOperator::Modulus, pos + 1))
        } else {
            None
        }
    }

    /// Lex an additive operator at `pos`.
    pub fn additive(s: &[u8], pos: usize) -> (r: Option<(BinaryOperator, usize)>)
        requires
            pos <= s@.len(),
        ensures
            (match r {
                Option::Some(t) => additive_token(s@, pos as int) == Option::Some(
                    (t.0, t.1 as int),
                ) && pos < t.1 <= s@.len(),
                Option::None => additive_token(s@, pos as int) is None,
            }),
    {
        if pos < s.len() && s[pos] == B_PLUS {
            Some((BinaryOperator::Add, pos + 1))
        } else if pos < s.len() && s[pos] == B_MINUS {
            Some((BinaryOperator::Subtract, pos + 1))
        } else {
            None
        }
    }

    /// Lex a comparison operator at `pos`.
    pub fn comparison(s: &[u8], pos: usize) -> (r: Option<(BinaryOperator, usize)>)
        requires
            pos <= s@.len(),
        ensures
            (match r {
                Option::Some(t) => comparison_token(s@, pos as int) == Option::Some(
                    (t.0, t.1 as int),
                ) && pos < t.1 <= s@.len(),
                Option::None => comparison_token(s@, pos as int) is None,
            }),
    {
        let n = s.len();
        if n - pos >= 2 && s[pos] == B_EQ && s[pos + 1] == B_EQ {
            return Some((BinaryOperator::Equals, pos + 2));
        }
        if n - pos >= 2 && s[pos] == B_BANG && s[pos + 1] == B_EQ {
            return Some((BinaryOperator::NotEquals, pos + 2));
        }
        if n - pos >= 2 && s[pos] == B_LT && s[pos + 1] == B_EQ {
            return Some((BinaryOperator::LessThanOrEqual, pos + 2));
        }
        if pos < n && s[pos] == B_LT {
            return Some((BinaryOperator::LessThan, pos + 1));
        }
        if n - pos >= 2 && s[pos] == B_GT && s[pos + 1] == B_EQ {
            return Some((BinaryOperator::GreaterThanOrEqual, pos + 2));
        }
        if pos < n && s[pos] == B_GT {
            return Some((BinaryOperator::GreaterThan, pos + 1));
        }
        let w_is_not: Vec<u8> = vec![B_LC_I, B_LC_S, B_SP, B_LC_N, B_LC_O, B_LC_T];
        proof {
            assert(w_is_not@ =~= kw_is_not());
        }
        if word_probe(s, pos, w_is_not.as_slice()) {
            proof {
                assert(pos + kw_is_not().len() <= s@.len());
                assert(kw_is_not().len() == 6);
            }
            return Some((BinaryOperator::IsNot, pos + 6));
        }
        let w_is: Vec<u8> = vec![B_LC_I, B_LC_S];
        proof {
            assert(w_is@ =~= kw_is());
        }
        if word_probe(s, pos, w_is.as_slice()) {
            proof {
                assert(pos + kw_is().len() <= s@.len());
                assert(kw_is().len() == 2);
            }
            return Some((BinaryOperator::Is, pos + 2));
        }
        let w_matches: Vec<u8> = vec![B_LC_M, B_LC_A, B_LC_T, B_LC_C, B_LC_H, B_LC_E, B_LC_S];
        proof {
            assert(w_matches@ =~= kw_matches());
        }
        if word_probe(s, pos, w_matches.as_slice()) {
            proof {
                assert(pos + kw_matches().len() <= s@.len());
                assert(kw_matches().len() == 7);
            }
            return Some((BinaryOperator::Matches, pos + 7));
        }
        let w_not_matches: Vec<u8> = vec![
            B_LC_N,
            B_LC_O,
            B_LC_T,
            B_SP,
            B_LC_M,
            B_LC_A,
            B_LC_T,
            B_LC_C,
            B_LC_H,
            B_LC_E,
            B_LC_S,
        ];
        proof {
            assert(w_not_matches@ =~= kw_not_matches());
        }
        if word_probe(s, pos, w_not_matches.as_slice()) {
            proof {
                assert(pos + kw_not_matches().len() <= s@.len());
                assert(kw_not_matches().len() == 11);
            }
            return Some((BinaryOperator::NotMatches, pos + 11));
        }
        let w_contains: Vec<u8> = vec![
            B_LC_C,
            B_LC_O,
            B_LC_N,
            B_LC_T,
            B_LC_A,
            B_LC_I,
            B_LC_N,
            B_LC_S,
        ];
        proof {
            assert(w_contains@ =~= kw_contains());
        }
        if word_probe(s, pos, w_contains.as_slice()) {
            proof {
                assert(pos + kw_contains().len() <= s@.len());
                assert(kw_contains().len() == 8);
            }
            return Some((BinaryOperator::Contains, pos + 8));
        }
        let w_in: Vec<u8> = vec![B_LC_I, B_LC_N];
        proof {
            assert(w_in@ =~= kw_in());
        }
        if word_probe(s, pos, w_in.as_slice()) {
            proof {
                assert(pos + kw_in().len() <= s@.len());
                assert(kw_in().len() == 2);
            }
            return Some((BinaryOperator::In, pos + 2));
        }
        None
    }

    /// Lex the conjunction operator at `pos`.
    pub fn and(s: &[u8], pos: usize) -> (r: Option<(BinaryOperator, usize)>)
        requires
            pos <= s@.len(),
        ensures
            (match r {
                Option::Some(t) => and_token(s@, pos as int) == Option::Some((t.0, t.1 as int))
                    && pos < t.1 <= s@.len(),
                Option::None => and_token(s@, pos as int) is None,
            }),
    {
        let n = s.len();
        let w_and: Vec<u8> = vec![B_LC_A, B_LC_N, B_LC_D];
        proof {
            assert(w_and@ =~= kw_and());
        }
        if word_probe(s, pos, w_and.as_slice()) {
            proof {
                assert(pos + kw_and().len() <= n);
                assert(kw_and().len() == 3);
            }
            Some((BinaryOperator::And, pos + 3))
        } else {
            None
        }
    }

    /// Lex a disjunction operator at `pos`.
    pub fn or_xor(s: &[u8], pos: usize) -> (r: Option<(BinaryOperator, usize)>)
        requires
            pos <= s@.len(),
        ensures
            (match r {
                Option::Some(t) => or_xor_token(s@, pos as int) == Option::Some(
                    (t.0, t.1 as int),
                ) && pos < t.1 <= s@.len(),
                Option::None => or_xor_token(s@, pos as int) is None,
            }),
    {
        let n = s.len();
        let w_or: Vec<u8> = vec![B_LC_O, B_LC_R];
        proof {
            assert(w_or@ =~= kw_or());
        }
        if word_probe(s, pos, w_or.as_slice()) {
            proof {
                assert(pos + kw_or().len() <= n);
                assert(kw_or().len() == 2);
            }
            return Some((BinaryOperator::Or, pos + 2));
        }
        let w_xor: Vec<u8> = vec![B_LC_X, B_LC_O, B_LC_R];
        proof {
            assert(w_xor@ =~= kw_xor());
        }
        if word_probe(s, pos, w_xor.as_slice()) {
            proof {
                assert(pos + kw_xor().len() <= n);
                assert(kw_xor().len() == 3);
            }
            return Some((BinaryOperator::Xor, pos + 3));
        }
        None
    }

    /// Lex any binary operator at `pos`, trying the tiers in the order
    /// additive, multiplicative, comparison, conjunction, disjunction.
    pub fn any_token(s: &[u8], pos: usize) -> (r: Option<(BinaryOperator, usize)>)
        requires
            pos <= s@.len(),
        ensures
            (match r {
                Option::Some(t) => binop_token(s@, pos as int) == Option::Some(
                    (t.0, t.1 as int),
                ) && pos < t.1 <= s@.len(),
                Option::None => binop_token(s@, pos as int) is None,
            }),
    {
        if let Some(t) = Self::additive(s, pos) {
            return Some(t);
        }
        if let Some(t) = Self::multiplicative(s, pos) {
            return Some(t);
        }
        if let Some(t) = Self::comparison(s, pos) {
            return Some(t);
        }
        if let Some(t) = Self::and(s, pos) {
            return Some(t);
        }
        if let Some(t) = Self::or_xor(s, pos) {
            return Some(t);
        }
        None
    }

    /// Parse the whole input as one binary operator, with insignificant
    /// whitespace tolerated on both sides.
    pub fn parser(input: &[u8]) -> (r: Result<BinaryOperator, Vec<Diagnostic>>)
        ensures
            (match r {
                Result::Ok(op) => (match binop_token(input@, ws_end(input@, 0)) {
                    Option::Some(t) => t.0 == op && ws_end(input@, t.1) == input@.len(),
                    Option::None => false,
                }),
                Result::Err(ds) => ds@.len() == 1 && (match binop_token(
                    input@,
                    ws_end(input@, 0),
                ) {
                    Option::Some(t) => ws_end(input@, t.1) < input@.len() && ds@[0] == point_diag(
                        input@,
                        ws_end(input@, t.1),
                        Expected::EndOfInput,
                    ),
                    Option::None => ds@[0] == point_diag(
                        input@,
                        ws_end(input@, 0),
                        Expected::Operator,
                    ),
                }),
            }),
    {
        let q = skip_ws(input, 0);
        match Self::any_token(input, q) {
            Some((op, e)) => {
                let t = skip_ws(input, e);
                if t == input.len() {
                    Ok(op)
                } else {
                    Err(vec![mk_diag(input, t, Expected::EndOfInput)])
                }
            },
            None => Err(vec![mk_diag(input, q, Expected::Operator)]),
        }
    }
}


/// Multi-word operators are lexed greedily: where `is not` stands with a
/// word boundary the lexer yields `IsNot`, never `is` with ` not` left
/// over, and where `not matches` stands it yields `NotMatches`, never a
/// failure after `not`.
pub proof fn lemma_multiword_greedy(s: Seq<u8>, p: int)
    requires
        0 <= p <= s.len(),
    ensures
        word_at(s, p, kw_is_not()) ==> comparison_token(s, p) == Option::Some(
            (BinaryOperator::IsNot, p + 6),
        ),
        word_at(s, p, kw_not_matches()) ==> comparison_token(s, p) == Option::Some(
            (BinaryOperator::NotMatches, p + 11),
        ),
{
    if word_at(s, p, kw_is_not()) {
        assert(s[p] == B_LC_I);
    }
    if word_at(s, p, kw_not_matches()) {
        assert(s[p] == B_LC_N);
        assert(!at_kw(s, p, kw_is_not()));
        assert(!at_kw(s, p, kw_is()));
        assert(!at_kw(s, p, kw_matches()));
    }
}

} // verus!
