//! The unary prefix operator lexer.
//!
//! The single-character forms `+`, `-` and `!` are tried first, then the
//! multi-word forms; `is empty` is tried before `is not empty` and
//! `is defined` before `is not defined`, which is safe because none of the
//! word forms is a prefix of another.

use vstd::prelude::*;

use crate::literal::{at_kw, kw_probe};
use crate::scan::{
    B_BANG, B_LC_D, B_LC_E, B_LC_F, B_LC_I, B_LC_M, B_LC_N, B_LC_O, B_LC_P, B_LC_S, B_LC_T,
    B_LC_Y, B_MINUS, B_PLUS, B_SP,
};

verus! {

/// A prefix operator applied to a following expression.
#[derive(Debug, Clone, Copy, PartialEq, Eq, Structural)]
pub enum UnaryOperator {
    Plus,
    Minus,
    Not,
    IsEmpty,
    IsNotEmpty,
    IsDefined,
    IsNotDefined,
}

/// The bytes of `is empty`.
pub open spec fn kw_is_empty() -> Seq<u8> {
    seq![B_LC_I, B_LC_S, B_SP, B_LC_E, B_LC_M, B_LC_P, B_LC_T, B_LC_Y]
}

/// The bytes of `is not empty`.
pub open spec fn kw_is_not_empty() -> Seq<u8> {
    seq![
        B_LC_I,
        B_LC_S,
        B_SP,
        B_LC_N,
        B_LC_O,
        B_LC_T,
        B_SP,
        B_LC_E,
        B_LC_M,
        B_LC_P,
        B_LC_T,
        B_LC_Y,
    ]
}

/// The bytes of `is defined`.
pub open spec fn kw_is_defined() -> Seq<u8> {
    seq![B_LC_I, B_LC_S, B_SP, B_LC_D, B_LC_E, B_LC_F, B_LC_I, B_LC_N, B_LC_E, B_LC_D]
}

/// The bytes of `is not defined`.
pub open spec fn kw_is_not_defined() -> Seq<u8> {
    seq![
        B_LC_I,
        B_LC_S,
        B_SP,
        B_LC_N,
        B_LC_O,
        B_LC_T,
        B_SP,
        B_LC_D,
        B_LC_E,
        B_LC_F,
        B_LC_I,
        B_LC_N,
        B_LC_E,
        B_LC_D,
    ]
}

/// The unary operator standing at `p`, with the position after its token.
pub open spec fn unary_token(s: Seq<u8>, p: int) -> Option<(UnaryOperator, int)>
    recommends
        0 <= p <= s.len(),
{
    if p < s.len() && s[p] == B_PLUS {
        Option::Some((UnaryOperator::Plus, p + 1))
    } else if p < s.len() && s[p] == B_MINUS {
        Option::Some((UnaryOperator::Minus, p + 1))
    } else if p < s.len() && s[p] == B_BANG {
        Option::Some((UnaryOperator::Not, p + 1))
    } else if at_kw(s, p, kw_is_empty()) {
        Option::Some((UnaryOperator::IsEmpty, p + 8))
    } else if at_kw(s, p, kw_is_not_empty()) {
        Option::Some((UnaryOperator::IsNotEmpty, p + 12))
    } else if at_kw(s, p, kw_is_defined()) {
        Option::Some((UnaryOperator::IsDefined, p + 10))
    } else if at_kw(s, p, kw_is_not_defined()) {
        Option::Some((UnaryOperator::IsNotDefined, p + 14))
    } else {
        Option::None
    }
}

impl UnaryOperator {
    /// Lex a unary prefix operator at `pos`.
    pub fn parser(s: &[u8], pos: usize) -> (r: Option<(UnaryOperator, usize)>)
        requires
            pos <= s@.len(),
        ensures
            (match r {
                Option::Some(t) => unary_token(s@, pos as int) == Option::Some(
                    (t.0, t.1 as int),
                ) && pos < t.1 <= s@.len(),
                Option::None => unary_token(s@, pos as int) is None,
            }),
    {
        let n = s.len();
        if pos < n && s[pos] == B_PLUS {
            return Some((UnaryOperator::Plus, pos + 1));
        }
        if pos < n && s[pos] == B_MINUS {
            return Some((UnaryOperator::Minus, pos + 1));
        }
        if pos < n && s[pos] == B_BANG {
            return Some((UnaryOperator::Not, pos + 1));
        }
        let w_is_empty: Vec<u8> = vec![B_LC_I, B_LC_S, B_SP, B_LC_E, B_LC_M, B_LC_P, B_LC_T, B_LC_Y];
        proof {
            assert(w_is_empty@ =~= kw_is_empty());
        }
        let (m, _) = kw_probe(s, pos, w_is_empty.as_slice());
        if m {
            proof {
                assert(kw_is_empty().len() == 8);
                assert(pos + 8 <= s@.len());
            }
            return Some((UnaryOperator::IsEmpty, pos + 8));
        }
        let w_is_not_empty: Vec<u8> = vec![
            B_LC_I,
            B_LC_S,
            B_SP,
            B_LC_N,
            B_LC_O,
            B_LC_T,
            B_SP,
            B_LC_E,
            B_LC_M,
            B_LC_P,
            B_LC_T,
            B_LC_Y,
        ];
        proof {
            assert(w_is_not_empty@ =~= kw_is_not_empty());
        }
        let (m, _) = kw_probe(s, pos, w_is_not_empty.as_slice());
        if m {
            proof {
                assert(kw_is_not_empty().len() == 12);
                assert(pos + 12 <= s@.len());
            }
            return Some((UnaryOperator::IsNotEmpty, pos + 12));
        }
        let w_is_defined: Vec<u8> = vec![
            B_LC_I,
            B_LC_S,
            B_SP,
            B_LC_D,
            B_LC_E,
            B_LC_F,
            B_LC_I,
            B_LC_N,
            B_LC_E,
            B_LC_D,
        ];
        proof {
            assert(w_is_defined@ =~= kw_is_defined());
        }
        let (m, _) = kw_probe(s, pos, w_is_defined.as_slice());
        if m {
            proof {
                assert(kw_is_defined().len() == 10);
                assert(pos + 10 <= s@.len());
            }
            return Some((UnaryOperator::IsDefined, pos + 10));
        }
        let w_is_not_defined: Vec<u8> = vec![
            B_LC_I,
            B_LC_S,
            B_SP,
            B_LC_N,
            B_LC_O,
            B_LC_T,
            B_SP,
            B_LC_D,
            B_LC_E,
            B_LC_F,
            B_LC_I,
            B_LC_N,
            B_LC_E,
            B_LC_D,
        ];
        proof {
            assert(w_is_not_defined@ =~= kw_is_not_defined());
        }
        let (m, _) = kw_probe(s, pos, w_is_not_defined.as_slice());
        if m {
            proof {
                assert(kw_is_not_defined().len() == 14);
                assert(pos + 14 <= s@.len());
            }
            return Some((UnaryOperator::IsNotDefined, pos + 14));
        }
        None
    }
}

} // verus!
