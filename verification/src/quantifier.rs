//! The quantifier keyword lexer: `all`, `any`, `filter` and `map`, each
//! requiring a trailing word boundary so that a longer identifier is not
//! split.

use vstd::prelude::*;

use crate::binary_operator::word_at;
use crate::literal::kw_probe;
use crate::scan::{
    ident_cont, B_LC_A, B_LC_E, B_LC_F, B_LC_I, B_LC_L, B_LC_M, B_LC_N, B_LC_P, B_LC_R, B_LC_T,
    B_LC_Y,
};

verus! {

/// How a quantifier aggregates the results of its body over a collection.
#[derive(Debug, Clone, Copy, PartialEq, Eq, Structural)]
pub enum QuantifierType {
    All,
    Any,
    Filter,
    MapEach,
}

/// The bytes of `all`.
pub open spec fn kw_all() -> Seq<u8> {
    seq![B_LC_A, B_LC_L, B_LC_L]
}

/// The bytes of `any`.
pub open spec fn kw_any() -> Seq<u8> {
    seq![B_LC_A, B_LC_N, B_LC_Y]
}

/// The bytes of `filter`.
pub open spec fn kw_filter() -> Seq<u8> {
    seq![B_LC_F, B_LC_I, B_LC_L, B_LC_T, B_LC_E, B_LC_R]
}

/// The bytes of `map`.
pub open spec fn kw_map() -> Seq<u8> {
    seq![B_LC_M, B_LC_A, B_LC_P]
}

/// The quantifier keyword standing at `p`, with the position after it.
pub open spec fn quantifier_token(s: Seq<u8>, p: int) -> Option<(QuantifierType, int)>
    recommends
        0 <= p <= s.len(),
{
    if word_at(s, p, kw_all()) {
        Option::Some((QuantifierType::All, p + 3))
    } else if word_at(s, p, kw_any()) {
        Option::Some((QuantifierType::Any, p + 3))
    } else if word_at(s, p, kw_filter()) {
        Option::Some((QuantifierType::Filter, p + 6))
    } else if word_at(s, p, kw_map()) {
        Option::Some((QuantifierType::MapEach, p + 3))
    } else {
        Option::None
    }
}

/// Whether the word `w` stands at `pos` with a trailing word boundary.
fn word_probe(s: &[u8], pos: usize, w: &[u8]) -> (r: bool)
    requires
        pos <= s@.len(),
    ensures
        r == word_at(s@, pos as int, w@),
{
    let n = s.len();
    let (m, _) = kw_probe(s, pos, w);
    if !m {
        return false;
    }
    proof {
        assert(pos + w@.len() <= n);
    }
    let e = pos + w.len();
    e == s.len() || !ident_cont(s[e])
}

impl QuantifierType {
    /// Lex a quantifier keyword at `pos`.
    pub fn parser(s: &[u8], pos: usize) -> (r: Option<(QuantifierType, usize)>)
        requires
            pos <= s@.len(),
        ensures
            (match r {
                Option::Some(t) => quantifier_token(s@, pos as int) == Option::Some(
                    (t.0, t.1 as int),
                ) && pos < t.1 <= s@.len(),
                Option::None => quantifier_token(s@, pos as int) is None,
            }),
    {
        let n = s.len();
        let w_all: Vec<u8> = vec![B_LC_A, B_LC_L, B_LC_L];
        proof {
            assert(w_all@ =~= kw_all());
        }
        if word_probe(s, pos, w_all.as_slice()) {
            proof {
                assert(pos + kw_all().len() <= n);
                assert(kw_all().len() == 3);
            }
            return Some((QuantifierType::All, pos + 3));
        }
        let w_any: Vec<u8> = vec![B_LC_A, B_LC_N, B_LC_Y];
        proof {
            assert(w_any@ =~= kw_any());
        }
        if word_probe(s, pos, w_any.as_slice()) {
            proof {
                assert(pos + kw_any().len() <= n);
                assert(kw_any().len() == 3);
            }
            return Some((QuantifierType::Any, pos + 3));
        }
        let w_filter: Vec<u8> = vec![B_LC_F, B_LC_I, B_LC_L, B_LC_T, B_LC_E, B_LC_R];
        proof {
            assert(w_filter@ =~= kw_filter());
        }
        if word_probe(s, pos, w_filter.as_slice()) {
            proof {
                assert(pos + kw_filter().len() <= n);
                assert(kw_filter().len() == 6);
            }
            return Some((QuantifierType::Filter, pos + 6));
        }
        let w_map: Vec<u8> = vec![B_LC_M, B_LC_A, B_LC_P];
        proof {
            assert(w_map@ =~= kw_map());
        }
        if word_probe(s, pos, w_map.as_slice()) {
            proof {
                assert(pos + kw_map().len() <= n);
                assert(kw_map().len() == 3);
            }
            return Some((QuantifierType::MapEach, pos + 3));
        }
        None
    }
}

} // verus!
