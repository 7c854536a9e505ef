//! The identifier lexer: a letter or underscore, then letters, digits and
//! underscores, consumed greedily.

use vstd::prelude::*;

use crate::scan::{ident_cont_end, ident_start, is_ident_cont, is_ident_start, skip_ident_cont};

verus! {

/// A bare name; equality is exact, case-sensitive string equality.
#[derive(Debug, Clone, PartialEq)]
pub struct Identifier(pub String);

/// The characters of a run of ASCII bytes.
pub open spec fn ascii_seq(b: Seq<u8>) -> Seq<char> {
    Seq::new(b.len(), |i: int| b[i] as char)
}

/// End of an identifier token at `p`, when one starts there.
pub open spec fn ident_end(s: Seq<u8>, p: int) -> Option<int>
    recommends
        0 <= p <= s.len(),
{
    if p < s.len() && is_ident_start(s[p]) {
        Option::Some(ident_cont_end(s, p + 1))
    } else {
        Option::None
    }
}

/// Relies on `char::from` over an iterator collected into a `String`: each
/// byte below 128 becomes exactly that ASCII character.
#[verifier::external_body]
fn ascii_to_string(bytes: &[u8], from: usize, to: usize) -> (r: String)
    requires
        from <= to <= bytes@.len(),
        forall|k: int| from <= k < to ==> bytes@[k] < 128,
    ensures
        r@ == ascii_seq(bytes@.subrange(from as int, to as int)),
{
    bytes[from..to].iter().map(|b| char::from(*b)).collect()
}

impl Identifier {
    /// Wrap a name.
    pub fn new(s: String) -> (r: Self)
        ensures
            r.0 == s,
    {
        Identifier(s)
    }

    /// Lex an identifier at `pos`: `None` when no letter or underscore
    /// stands there, otherwise the greedily consumed name and its end.
    pub fn parser(s: &[u8], pos: usize) -> (r: Option<(Identifier, usize)>)
        requires
            pos <= s@.len(),
        ensures
            (match r {
                Option::Some(t) => ident_end(s@, pos as int) == Option::Some(t.1 as int) && pos
                    < t.1 <= s@.len() && t.0.0@ == ascii_seq(
                    s@.subrange(pos as int, t.1 as int),
                ),
                Option::None => ident_end(s@, pos as int) is None,
            }),
    {
        if pos < s.len() && ident_start(s[pos]) {
            let e = skip_ident_cont(s, pos + 1);
            proof {
                assert forall|k: int| pos <= k < e implies s@[k] < 128 by {
                    if k == pos {
                        assert(is_ident_start(s@[k]));
                    } else {
                        assert(is_ident_cont(s@[k]));
                    }
                }
            }
            let name = ascii_to_string(s, pos, e);
            Some((Identifier(name), e))
        } else {
            None
        }
    }
}

} // verus!
