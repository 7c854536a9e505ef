//! The literal lexer: numeric, string, boolean and sentinel tokens.
//!
//! At a given position the lexer tries, in order: the three float forms
//! (digits `.` digits? exponent?; digits exponent; `.` digits exponent?),
//! then hexadecimal, octal and decimal integers, then a quoted string, then
//! the keywords `true`, `false`, `undefined` and `null`.  The first form
//! that matches wins; recognition order makes `1.5` a float rather than the
//! integer `1` followed by `.5`.
//!
//! Each form is specified by an `*_end` spec function giving the token end
//! when the form matches, together with an `*_fail` position and an
//! `*_expect` label saying where and why the form stops when it does not.
//! The failure positions of the forms tried before the winning one are kept
//! and merged (furthest position wins) so that a later full-input failure is
//! reported at the deepest point any form reached.

use vstd::prelude::*;

use crate::diagnostic::{Diagnostic, Expected};
use crate::numeric::{base_repr, base_val, digit_value, hex_digit_val, lemma_base_repr_digits, lemma_base_repr_first, lemma_base_repr_round_trip, lemma_base_val_push, radix_value};
use crate::scan::{
    digits_end, is_digit, is_hex_digit, is_oct_digit, lemma_digits_end_all,
    lemma_digits_end_bounds, lemma_hex_digits_end_bounds, lemma_nonquote_end_bounds,
    lemma_oct_digits_end_bounds, nonquote_end, skip_zeros, zeros_end,
    skip_digits, skip_hex_digits,
    skip_nonquote, skip_oct_digits, hex_digits_end, oct_digits_end, B_DOT, B_D0, B_LC_A, B_LC_D,
    B_LC_E, B_LC_F, B_LC_I, B_LC_L, B_LC_N, B_LC_R, B_LC_S, B_LC_T, B_LC_U, B_LC_X, B_MINUS,
    B_PLUS, B_QUOTE, B_UC_E, B_UC_X,
};

verus! {

/// A literal token's value.
///
/// A float literal keeps the exact text of its token; decoding that text to
/// an IEEE-754 double is left to the consumer of the tree.  Integers always
/// fit the signed 64-bit range, and a float token always denotes a finite
/// double: an out-of-range literal is a parse failure, never a wrap-around
/// or an infinity.
#[derive(Debug, Clone, PartialEq)]
pub enum Literal {
    Null,
    Undefined,
    Integer(i64),
    Float(Vec<u8>),
    String(Vec<u8>),
    Boolean(bool),
}

/// End of a valid exponent part (`e`/`E`, optional sign, digits) at `i`.
pub open spec fn exponent_end(s: Seq<u8>, i: int) -> Option<int>
    recommends
        0 <= i <= s.len(),
{
    if i < s.len() && (s[i] == B_LC_E || s[i] == B_UC_E) {
        let j = if i + 1 < s.len() && (s[i + 1] == B_PLUS || s[i + 1] == B_MINUS) {
            i + 2
        } else {
            i + 1
        };
        let k = digits_end(s, j);
        if k > j {
            Option::Some(k)
        } else {
            Option::None
        }
    } else {
        Option::None
    }
}

/// Where exponent recognition stops when it does not match at `i`.
pub open spec fn exponent_fail(s: Seq<u8>, i: int) -> int
    recommends
        0 <= i <= s.len(),
{
    if i < s.len() && (s[i] == B_LC_E || s[i] == B_UC_E) {
        if i + 1 < s.len() && (s[i + 1] == B_PLUS || s[i + 1] == B_MINUS) {
            i + 2
        } else {
            i + 1
        }
    } else {
        i
    }
}

/// Float form: digits `.` optional digits, optional exponent.
pub open spec fn float_a_end(s: Seq<u8>, p: int) -> Option<int>
    recommends
        0 <= p <= s.len(),
{
    let de = digits_end(s, p);
    if de > p && de < s.len() && s[de] == B_DOT {
        let fr = digits_end(s, de + 1);
        match exponent_end(s, fr) {
            Option::Some(e) => Option::Some(e),
            Option::None => Option::Some(fr),
        }
    } else {
        Option::None
    }
}

/// Where the first float form stops when it does not match.
pub open spec fn float_a_fail(s: Seq<u8>, p: int) -> int {
    digits_end(s, p)
}

/// What the first float form was looking for where it stopped.
pub open spec fn float_a_expect(s: Seq<u8>, p: int) -> Expected {
    if digits_end(s, p) == p {
        Expected::Digit
    } else {
        Expected::Dot
    }
}

/// Float form: digits followed by a mandatory exponent, no dot.
pub open spec fn float_b_end(s: Seq<u8>, p: int) -> Option<int>
    recommends
        0 <= p <= s.len(),
{
    let de = digits_end(s, p);
    if de > p {
        exponent_end(s, de)
    } else {
        Option::None
    }
}

/// Where the second float form stops when it does not match.
pub open spec fn float_b_fail(s: Seq<u8>, p: int) -> int {
    let de = digits_end(s, p);
    if de > p {
        exponent_fail(s, de)
    } else {
        p
    }
}

/// What the second float form was looking for where it stopped.
pub open spec fn float_b_expect(s: Seq<u8>, p: int) -> Expected {
    let de = digits_end(s, p);
    if de == p {
        Expected::Digit
    } else if de < s.len() && (s[de] == B_LC_E || s[de] == B_UC_E) {
        Expected::Digit
    } else {
        Expected::Exponent
    }
}

/// Float form: `.` digits, optional exponent.
pub open spec fn float_c_end(s: Seq<u8>, p: int) -> Option<int>
    recommends
        0 <= p <= s.len(),
{
    if p < s.len() && s[p] == B_DOT {
        let dg = digits_end(s, p + 1);
        if dg > p + 1 {
            match exponent_end(s, dg) {
                Option::Some(e) => Option::Some(e),
                Option::None => Option::Some(dg),
            }
        } else {
            Option::None
        }
    } else {
        Option::None
    }
}

/// Where the third float form stops when it does not match.
pub open spec fn float_c_fail(s: Seq<u8>, p: int) -> int {
    if p < s.len() && s[p] == B_DOT {
        p + 1
    } else {
        p
    }
}

/// What the third float form was looking for where it stopped.
pub open spec fn float_c_expect(s: Seq<u8>, p: int) -> Expected {
    if p < s.len() && s[p] == B_DOT {
        Expected::Digit
    } else {
        Expected::Dot
    }
}

/// End of a float token at `p`: the first of the three forms that matches.
pub open spec fn float_end(s: Seq<u8>, p: int) -> Option<int>
    recommends
        0 <= p <= s.len(),
{
    match float_a_end(s, p) {
        Option::Some(e) => Option::Some(e),
        Option::None => match float_b_end(s, p) {
            Option::Some(e) => Option::Some(e),
            Option::None => float_c_end(s, p),
        },
    }
}

/// Signed value of a valid exponent part at `i`; zero where none stands.
pub open spec fn exp_value_at(s: Seq<u8>, i: int) -> int
    recommends
        0 <= i <= s.len(),
{
    match exponent_end(s, i) {
        Option::Some(k) => {
            let j = if i + 1 < s.len() && (s[i + 1] == B_PLUS || s[i + 1] == B_MINUS) {
                i + 2
            } else {
                i + 1
            };
            if i + 1 < s.len() && s[i + 1] == B_MINUS {
                -(base_val(s.subrange(j, k), 10) as int)
            } else {
                base_val(s.subrange(j, k), 10) as int
            }
        },
        Option::None => 0,
    }
}

/// The mantissa digits of the float token at `p`: the integer part's
/// digits followed by the fractional part's digits.
pub open spec fn float_mantissa(s: Seq<u8>, p: int) -> Seq<u8>
    recommends
        0 <= p <= s.len(),
{
    if float_a_end(s, p) is Some {
        let de = digits_end(s, p);
        let fr = digits_end(s, de + 1);
        s.subrange(p, de) + s.subrange(de + 1, fr)
    } else if float_b_end(s, p) is Some {
        s.subrange(p, digits_end(s, p))
    } else {
        s.subrange(p + 1, digits_end(s, p + 1))
    }
}

/// The power of ten scaling the mantissa read as a plain integer: the
/// exponent part's value minus the number of fractional digits.
pub open spec fn float_scale(s: Seq<u8>, p: int) -> int
    recommends
        0 <= p <= s.len(),
{
    if float_a_end(s, p) is Some {
        let de = digits_end(s, p);
        let fr = digits_end(s, de + 1);
        exp_value_at(s, fr) - (fr - (de + 1))
    } else if float_b_end(s, p) is Some {
        exp_value_at(s, digits_end(s, p))
    } else {
        let dg = digits_end(s, p + 1);
        exp_value_at(s, dg) - (dg - (p + 1))
    }
}

/// Lexicographic order on two equal-length digit runs, read numerically.
pub open spec fn digits_ge(a: Seq<u8>, b: Seq<u8>) -> bool
    recommends
        a.len() == b.len(),
    decreases a.len(),
{
    if a.len() == 0 {
        true
    } else if a[0] != b[0] {
        a[0] > b[0]
    } else {
        digits_ge(a.subrange(1, a.len() as int), b.subrange(1, b.len() as int))
    }
}

/// The decimal digits of the least value whose nearest IEEE-754 double is
/// infinite: the midpoint between the largest finite double and the next
/// power of two.
pub open spec fn dbl_max_digits() -> Seq<u8> {
    seq![49u8, 55, 57, 55, 54, 57, 51, 49, 51, 52, 56, 54, 50, 51, 49, 53, 56, 48, 55, 57, 51, 55, 50, 56, 57, 55, 49, 52, 48, 53, 51, 48, 51, 52, 49, 53, 48, 55, 57, 57, 51, 52, 49, 51, 50, 55, 49, 48, 48, 51, 55, 56, 50, 54, 57, 51, 54, 49, 55, 51, 55, 55, 56, 57, 56, 48, 52, 52, 52, 57, 54, 56, 50, 57, 50, 55, 54, 52, 55, 53, 48, 57, 52, 54, 54, 52, 57, 48, 49, 55, 57, 55, 55, 53, 56, 55, 50, 48, 55, 48, 57, 54, 51, 51, 48, 50, 56, 54, 52, 49, 54, 54, 57, 50, 56, 56, 55, 57, 49, 48, 57, 52, 54, 53, 53, 53, 53, 52, 55, 56, 53, 49, 57, 52, 48, 52, 48, 50, 54, 51, 48, 54, 53, 55, 52, 56, 56, 54, 55, 49, 53, 48, 53, 56, 50, 48, 54, 56, 49, 57, 48, 56, 57, 48, 50, 48, 48, 48, 55, 48, 56, 51, 56, 51, 54, 55, 54, 50, 55, 51, 56, 53, 52, 56, 52, 53, 56, 49, 55, 55, 49, 49, 53, 51, 49, 55, 54, 52, 52, 55, 53, 55, 51, 48, 50, 55, 48, 48, 54, 57, 56, 53, 53, 53, 55, 49, 51, 54, 54, 57, 53, 57, 54, 50, 50, 56, 52, 50, 57, 49, 52, 56, 49, 57, 56, 54, 48, 56, 51, 52, 57, 51, 54, 52, 55, 53, 50, 57, 50, 55, 49, 57, 48, 55, 52, 49, 54, 56, 52, 52, 52, 51, 54, 53, 53, 49, 48, 55, 48, 52, 51, 52, 50, 55, 49, 49, 53, 53, 57, 54, 57, 57, 53, 48, 56, 48, 57, 51, 48, 52, 50, 56, 56, 48, 49, 55, 55, 57, 48, 52, 49, 55, 52, 52, 57, 55, 55, 57, 50]
}

/// The mantissa padded on the right with zeros to the threshold's width.
pub open spec fn pad_digits(m: Seq<u8>) -> Seq<u8> {
    Seq::new(309, |i: int| if i < m.len() { m[i] } else { B_D0 })
}

/// Whether the decimal value of the float token at `p` is at least the
/// least value rounding to an infinite double, so that its nearest double
/// is non-finite solely from literal overflow.
pub open spec fn float_overflows(s: Seq<u8>, p: int) -> bool
    recommends
        0 <= p <= s.len(),
{
    let m = float_mantissa(s, p);
    let m1 = m.subrange(zeros_end(m, 0), m.len() as int);
    if m1.len() == 0 {
        false
    } else {
        let k = m1.len() + float_scale(s, p);
        if k <= 308 {
            false
        } else if k >= 310 {
            true
        } else {
            digits_ge(pad_digits(m1), dbl_max_digits())
        }
    }
}

/// End of a hexadecimal integer token (`0x`/`0X` then hex digits) at `p`.
pub open spec fn hex_end(s: Seq<u8>, p: int) -> Option<int>
    recommends
        0 <= p <= s.len(),
{
    if p + 2 <= s.len() && s[p] == B_D0 && (s[p + 1] == B_LC_X || s[p + 1] == B_UC_X)
        && hex_digits_end(s, p + 2) > p + 2 {
        Option::Some(hex_digits_end(s, p + 2))
    } else {
        Option::None
    }
}

/// Where hexadecimal recognition stops when it does not match.
pub open spec fn hex_fail(s: Seq<u8>, p: int) -> int {
    if p < s.len() && s[p] == B_D0 {
        if p + 1 < s.len() && (s[p + 1] == B_LC_X || s[p + 1] == B_UC_X) {
            p + 2
        } else {
            p + 1
        }
    } else {
        p
    }
}

/// What hexadecimal recognition was looking for where it stopped.
pub open spec fn hex_expect(s: Seq<u8>, p: int) -> Expected {
    if p < s.len() && s[p] == B_D0 && p + 1 < s.len() && (s[p + 1] == B_LC_X || s[p + 1]
        == B_UC_X) {
        Expected::HexDigit
    } else {
        Expected::Literal
    }
}

/// End of an octal integer token (`0` then at least one octal digit) at `p`.
pub open spec fn oct_end(s: Seq<u8>, p: int) -> Option<int>
    recommends
        0 <= p <= s.len(),
{
    if p < s.len() && s[p] == B_D0 && oct_digits_end(s, p + 1) > p + 1 {
        Option::Some(oct_digits_end(s, p + 1))
    } else {
        Option::None
    }
}

/// Where octal recognition stops when it does not match.
pub open spec fn oct_fail(s: Seq<u8>, p: int) -> int {
    if p < s.len() && s[p] == B_D0 {
        p + 1
    } else {
        p
    }
}

/// End of a decimal integer token at `p`: a bare `0`, or a nonzero digit
/// followed by any further digits (no leading zero).
pub open spec fn dec_end(s: Seq<u8>, p: int) -> Option<int>
    recommends
        0 <= p <= s.len(),
{
    if p < s.len() && is_digit(s[p]) {
        if s[p] == B_D0 {
            Option::Some(p + 1)
        } else {
            Option::Some(digits_end(s, p))
        }
    } else {
        Option::None
    }
}

/// End of a string token (`"` body `"`) at `p`.
pub open spec fn str_end(s: Seq<u8>, p: int) -> Option<int>
    recommends
        0 <= p <= s.len(),
{
    if p < s.len() && s[p] == B_QUOTE {
        let b = nonquote_end(s, p + 1);
        if b < s.len() {
            Option::Some(b + 1)
        } else {
            Option::None
        }
    } else {
        Option::None
    }
}

/// Where string recognition stops when it does not match: an unterminated
/// string stops at the end of the input, still missing its closing quote.
pub open spec fn str_fail(s: Seq<u8>, p: int) -> int {
    if p < s.len() && s[p] == B_QUOTE {
        s.len() as int
    } else {
        p
    }
}

/// What string recognition was looking for where it stopped.
pub open spec fn str_expect(s: Seq<u8>, p: int) -> Expected {
    if p < s.len() && s[p] == B_QUOTE {
        Expected::ClosingQuote
    } else {
        Expected::Literal
    }
}

/// The bytes of the keyword `true`.
pub open spec fn kw_true() -> Seq<u8> {
    seq![B_LC_T, B_LC_R, B_LC_U, B_LC_E]
}

/// The bytes of the keyword `false`.
pub open spec fn kw_false() -> Seq<u8> {
    seq![B_LC_F, B_LC_A, B_LC_L, B_LC_S, B_LC_E]
}

/// The bytes of the keyword `undefined`.
pub open spec fn kw_undefined() -> Seq<u8> {
    seq![B_LC_U, B_LC_N, B_LC_D, B_LC_E, B_LC_F, B_LC_I, B_LC_N, B_LC_E, B_LC_D]
}

/// The bytes of the keyword `null`.
pub open spec fn kw_null() -> Seq<u8> {
    seq![B_LC_N, B_LC_U, B_LC_L, B_LC_L]
}

/// Whether the bytes `w` stand at position `p` of `s`.
pub open spec fn at_kw(s: Seq<u8>, p: int, w: Seq<u8>) -> bool {
    p + w.len() <= s.len() && (forall|k: int| 0 <= k < w.len() ==> s[p + k] == w[k])
}

/// The position of the first mismatch between `s` at `p` and `w`, scanning
/// from offset `k`; `p + w.len()` when all of `w` matches.
pub open spec fn kw_mism_from(s: Seq<u8>, p: int, w: Seq<u8>, k: int) -> int
    recommends
        0 <= p,
        0 <= k <= w.len(),
    decreases w.len() - k when 0 <= k <= w.len()
{
    if k >= w.len() {
        p + k
    } else if p + k >= s.len() || s[p + k] != w[k] {
        p + k
    } else {
        kw_mism_from(s, p, w, k + 1)
    }
}

/// Where keyword recognition of `w` stops at `p`.
pub open spec fn kw_fail(s: Seq<u8>, p: int, w: Seq<u8>) -> int {
    kw_mism_from(s, p, w, 0)
}

/// The further of two failures; ties keep the earlier alternative.
pub open spec fn pick(a: (int, Expected), b: (int, Expected)) -> (int, Expected) {
    if b.0 > a.0 {
        b
    } else {
        a
    }
}

/// Which literal form won at `p`, and where its token ends.
pub enum LitSel {
    FloatTok,
    HexTok,
    OctTok,
    DecTok,
    StrTok,
    TrueTok,
    FalseTok,
    UndefTok,
    NullTok,
}

/// The winning literal form at `p` and its token end, trying the forms in
/// recognition order, or `None` when no form matches.
pub open spec fn lit_token(s: Seq<u8>, p: int) -> Option<(LitSel, int)>
    recommends
        0 <= p <= s.len(),
{
    match float_end(s, p) {
        Option::Some(e) => Option::Some((LitSel::FloatTok, e)),
        Option::None => match hex_end(s, p) {
            Option::Some(e) => Option::Some((LitSel::HexTok, e)),
            Option::None => match oct_end(s, p) {
                Option::Some(e) => Option::Some((LitSel::OctTok, e)),
                Option::None => match dec_end(s, p) {
                    Option::Some(e) => Option::Some((LitSel::DecTok, e)),
                    Option::None => match str_end(s, p) {
                        Option::Some(e) => Option::Some((LitSel::StrTok, e)),
                        Option::None => if at_kw(s, p, kw_true()) {
                            Option::Some((LitSel::TrueTok, p + 4))
                        } else if at_kw(s, p, kw_false()) {
                            Option::Some((LitSel::FalseTok, p + 5))
                        } else if at_kw(s, p, kw_undefined()) {
                            Option::Some((LitSel::UndefTok, p + 9))
                        } else if at_kw(s, p, kw_null()) {
                            Option::Some((LitSel::NullTok, p + 4))
                        } else {
                            Option::None
                        },
                    },
                },
            },
        },
    }
}

/// The merged failure of the alternatives tried before the winning one (or
/// of all of them when none wins): the furthest position reached, with its
/// label; ties keep the earliest alternative.
pub open spec fn lit_fail_info(s: Seq<u8>, p: int) -> (int, Expected)
    recommends
        0 <= p <= s.len(),
{
    if float_a_end(s, p) is Some {
        (p, Expected::Literal)
    } else {
        let f = (float_a_fail(s, p), float_a_expect(s, p));
        if float_b_end(s, p) is Some {
            f
        } else {
            let f = pick(f, (float_b_fail(s, p), float_b_expect(s, p)));
            if float_c_end(s, p) is Some {
                f
            } else {
                let f = pick(f, (float_c_fail(s, p), float_c_expect(s, p)));
                if hex_end(s, p) is Some {
                    f
                } else {
                    let f = pick(f, (hex_fail(s, p), hex_expect(s, p)));
                    if oct_end(s, p) is Some {
                        f
                    } else {
                        let f = pick(f, (oct_fail(s, p), Expected::OctalDigit));
                        if dec_end(s, p) is Some {
                            f
                        } else {
                            let f = pick(f, (p, Expected::Digit));
                            if str_end(s, p) is Some {
                                f
                            } else {
                                let f = pick(f, (str_fail(s, p), str_expect(s, p)));
                                if at_kw(s, p, kw_true()) {
                                    f
                                } else {
                                    let f = pick(
                                        f,
                                        (kw_fail(s, p, kw_true()), Expected::Literal),
                                    );
                                    if at_kw(s, p, kw_false()) {
                                        f
                                    } else {
                                        let f = pick(
                                            f,
                                            (kw_fail(s, p, kw_false()), Expected::Literal),
                                        );
                                        if at_kw(s, p, kw_undefined()) {
                                            f
                                        } else {
                                            let f = pick(
                                                f,
                                                (kw_fail(s, p, kw_undefined()), Expected::Literal),
                                            );
                                            if at_kw(s, p, kw_null()) {
                                                f
                                            } else {
                                                pick(
                                                    f,
                                                    (kw_fail(s, p, kw_null()), Expected::Literal),
                                                )
                                            }
                                        }
                                    }
                                }
                            }
                        }
                    }
                }
            }
        }
    }
}


/// Copy of the byte range `[from, to)` of `s`.
pub fn copy_range(s: &[u8], from: usize, to: usize) -> (r: Vec<u8>)
    requires
        from <= to <= s@.len(),
    ensures
        r@ == s@.subrange(from as int, to as int),
{
    let mut v: Vec<u8> = Vec::new();
    let mut q = from;
    proof {
        assert(v@ =~= s@.subrange(from as int, from as int));
    }
    while q < to
        invariant
            from <= q <= to <= s@.len(),
            v@ == s@.subrange(from as int, q as int),
        decreases to - q,
    {
        v.push(s[q]);
        proof {
            assert(v@ =~= s@.subrange(from as int, q as int + 1));
        }
        q = q + 1;
    }
    v
}

/// Exec mirror of [`exponent_end`] / [`exponent_fail`].
fn exponent(s: &[u8], i: usize) -> (r: (Option<usize>, usize))
    requires
        i <= s@.len(),
    ensures
        (match r.0 {
            Option::Some(e) => exponent_end(s@, i as int) == Option::Some(e as int) && i < e
                <= s@.len(),
            Option::None => exponent_end(s@, i as int) is None,
        }),
        r.1 as int == exponent_fail(s@, i as int),
        i <= r.1 <= s@.len(),
{
    if i < s.len() && (s[i] == B_LC_E || s[i] == B_UC_E) {
        let j = if i + 1 < s.len() && (s[i + 1] == B_PLUS || s[i + 1] == B_MINUS) {
            i + 2
        } else {
            i + 1
        };
        let k = skip_digits(s, j);
        if k > j {
            (Some(k), j)
        } else {
            (None, j)
        }
    } else {
        (None, i)
    }
}

/// Exec mirror of the first float form.
fn float_a(s: &[u8], p: usize) -> (r: (Option<usize>, usize, Expected))
    requires
        p <= s@.len(),
    ensures
        (match r.0 {
            Option::Some(e) => float_a_end(s@, p as int) == Option::Some(e as int) && p < e
                <= s@.len(),
            Option::None => float_a_end(s@, p as int) is None,
        }),
        r.1 as int == float_a_fail(s@, p as int),
        p <= r.1 <= s@.len(),
        r.2 == float_a_expect(s@, p as int),
{
    let de = skip_digits(s, p);
    if de > p && de < s.len() && s[de] == B_DOT {
        let fr = skip_digits(s, de + 1);
        let (ex, _) = exponent(s, fr);
        match ex {
            Some(e) => (Some(e), de, Expected::Dot),
            None => (Some(fr), de, Expected::Dot),
        }
    } else {
        (None, de, if de == p {
            Expected::Digit
        } else {
            Expected::Dot
        })
    }
}

/// Exec mirror of the second float form.
fn float_b(s: &[u8], p: usize) -> (r: (Option<usize>, usize, Expected))
    requires
        p <= s@.len(),
    ensures
        (match r.0 {
            Option::Some(e) => float_b_end(s@, p as int) == Option::Some(e as int) && p < e
                <= s@.len(),
            Option::None => float_b_end(s@, p as int) is None,
        }),
        r.1 as int == float_b_fail(s@, p as int),
        p <= r.1 <= s@.len(),
        r.2 == float_b_expect(s@, p as int),
{
    let de = skip_digits(s, p);
    if de > p {
        let exp_label = if de < s.len() && (s[de] == B_LC_E || s[de] == B_UC_E) {
            Expected::Digit
        } else {
            Expected::Exponent
        };
        let (ex, xf) = exponent(s, de);
        match ex {
            Some(e) => (Some(e), xf, exp_label),
            None => (None, xf, exp_label),
        }
    } else {
        (None, p, Expected::Digit)
    }
}

/// Exec mirror of the third float form.
fn float_c(s: &[u8], p: usize) -> (r: (Option<usize>, usize, Expected))
    requires
        p <= s@.len(),
    ensures
        (match r.0 {
            Option::Some(e) => float_c_end(s@, p as int) == Option::Some(e as int) && p < e
                <= s@.len(),
            Option::None => float_c_end(s@, p as int) is None,
        }),
        r.1 as int == float_c_fail(s@, p as int),
        p <= r.1 <= s@.len(),
        r.2 == float_c_expect(s@, p as int),
{
    if p < s.len() && s[p] == B_DOT {
        let dg = skip_digits(s, p + 1);
        if dg > p + 1 {
            let (ex, _) = exponent(s, dg);
            match ex {
                Some(e) => (Some(e), p + 1, Expected::Digit),
                None => (Some(dg), p + 1, Expected::Digit),
            }
        } else {
            (None, p + 1, Expected::Digit)
        }
    } else {
        (None, p, Expected::Dot)
    }
}

/// Exec mirror of the hexadecimal form; on a match every byte of
/// `[p + 2, end)` is a hexadecimal digit.
fn hex_probe(s: &[u8], p: usize) -> (r: (Option<usize>, usize, Expected))
    requires
        p <= s@.len(),
    ensures
        (match r.0 {
            Option::Some(e) => hex_end(s@, p as int) == Option::Some(e as int) && p + 2 < e
                <= s@.len() && (forall|k: int|
                p + 2 <= k < e ==> is_hex_digit(#[trigger] s@[k])),
            Option::None => hex_end(s@, p as int) is None,
        }),
        r.1 as int == hex_fail(s@, p as int),
        p <= r.1 <= s@.len(),
        r.2 == hex_expect(s@, p as int),
{
    if p < s.len() && s[p] == B_D0 {
        if p + 1 < s.len() && (s[p + 1] == B_LC_X || s[p + 1] == B_UC_X) {
            let he = skip_hex_digits(s, p + 2);
            if he > p + 2 {
                (Some(he), p + 2, Expected::HexDigit)
            } else {
                (None, p + 2, Expected::HexDigit)
            }
        } else {
            (None, p + 1, Expected::Literal)
        }
    } else {
        (None, p, Expected::Literal)
    }
}

/// Exec mirror of the octal form; on a match every byte of `[p + 1, end)`
/// is an octal digit.
fn oct_probe(s: &[u8], p: usize) -> (r: (Option<usize>, usize))
    requires
        p <= s@.len(),
    ensures
        (match r.0 {
            Option::Some(e) => oct_end(s@, p as int) == Option::Some(e as int) && p + 1 < e
                <= s@.len() && (forall|k: int|
                p + 1 <= k < e ==> is_oct_digit(#[trigger] s@[k])),
            Option::None => oct_end(s@, p as int) is None,
        }),
        r.1 as int == oct_fail(s@, p as int),
        p <= r.1 <= s@.len(),
{
    if p < s.len() && s[p] == B_D0 {
        let oe = skip_oct_digits(s, p + 1);
        if oe > p + 1 {
            (Some(oe), p + 1)
        } else {
            (None, p + 1)
        }
    } else {
        (None, p)
    }
}

/// Exec mirror of the decimal form; on a match every byte of `[p, end)` is
/// a decimal digit.
fn dec_probe(s: &[u8], p: usize) -> (r: Option<usize>)
    requires
        p <= s@.len(),
    ensures
        (match r {
            Option::Some(e) => dec_end(s@, p as int) == Option::Some(e as int) && p < e
                <= s@.len() && (forall|k: int| p <= k < e ==> is_digit(#[trigger] s@[k])),
            Option::None => dec_end(s@, p as int) is None,
        }),
{
    if p < s.len() && crate::scan::digit(s[p]) {
        if s[p] == B_D0 {
            Some(p + 1)
        } else {
            Some(skip_digits(s, p))
        }
    } else {
        None
    }
}

/// Exec mirror of the string form.
fn str_probe(s: &[u8], p: usize) -> (r: (Option<usize>, usize, Expected))
    requires
        p <= s@.len(),
    ensures
        (match r.0 {
            Option::Some(e) => str_end(s@, p as int) == Option::Some(e as int) && p + 1 < e
                <= s@.len(),
            Option::None => str_end(s@, p as int) is None,
        }),
        r.1 as int == str_fail(s@, p as int),
        p <= r.1 <= s@.len(),
        r.2 == str_expect(s@, p as int),
{
    if p < s.len() && s[p] == B_QUOTE {
        let b = skip_nonquote(s, p + 1);
        if b < s.len() {
            (Some(b + 1), s.len(), Expected::ClosingQuote)
        } else {
            (None, s.len(), Expected::ClosingQuote)
        }
    } else {
        (None, p, Expected::Literal)
    }
}

/// Exec mirror of keyword recognition: whether `w` stands at `p` of `s`,
/// and where the first mismatch is.
pub(crate) fn kw_probe(s: &[u8], p: usize, w: &[u8]) -> (r: (bool, usize))
    requires
        p <= s@.len(),
    ensures
        r.0 == at_kw(s@, p as int, w@),
        r.1 as int == kw_fail(s@, p as int, w@),
        p <= r.1 <= s@.len(),
{
    let mut k: usize = 0;
    while k < w.len()
        invariant
            0 <= k <= w@.len(),
            p + k <= s@.len(),
            kw_mism_from(s@, p as int, w@, 0) == kw_mism_from(s@, p as int, w@, k as int),
            forall|j: int| 0 <= j < k ==> s@[p + j] == #[trigger] w@[j],
        decreases w@.len() - k,
    {
        if k == s.len() - p {
            return (false, p + k);
        }
        if s[p + k] != w[k] {
            return (false, p + k);
        }
        k = k + 1;
    }
    let n = s.len();
    proof {
        assert(p + k <= n);
    }
    (true, p + k)
}


/// Saturation bound for exponent evaluation: far larger than any exponent
/// magnitude that can matter for the range decision.
pub const EXP_SAT: i128 = 1000000000000000000000000000000;

/// Exec mirror of [`exp_value_at`], saturating at [`EXP_SAT`]: the exact
/// value where it is small enough, else the bound with the matching sign.
fn exp_value(s: &[u8], i: usize) -> (r: i128)
    requires
        i <= s@.len(),
    ensures
        -EXP_SAT <= r <= EXP_SAT,
        r as int == exp_value_at(s@, i as int) || (r == EXP_SAT && exp_value_at(s@, i as int)
            >= EXP_SAT) || (r == -EXP_SAT && exp_value_at(s@, i as int) <= -EXP_SAT),
{
    let n = s.len();
    let (ex, _) = exponent(s, i);
    let k = match ex {
        Some(k) => k,
        None => {
            return 0;
        },
    };
    let neg = i + 1 < n && s[i + 1] == B_MINUS;
    let j = if i + 1 < n && (s[i + 1] == B_PLUS || s[i + 1] == B_MINUS) {
        i + 2
    } else {
        i + 1
    };
    let k2 = skip_digits(s, j);
    proof {
        assert(k2 == k);
        assert(s@.subrange(j as int, j as int) =~= Seq::<u8>::empty());
    }
    let mut acc: i128 = 0;
    let mut q = j;
    while q < k
        invariant
            j <= q <= k <= s@.len(),
            forall|t: int| j <= t < k ==> is_digit(#[trigger] s@[t]),
            0 <= acc <= EXP_SAT,
            (acc < EXP_SAT && acc as nat == base_val(s@.subrange(j as int, q as int), 10)) || (
            acc == EXP_SAT && base_val(s@.subrange(j as int, q as int), 10) >= EXP_SAT),
        decreases k - q,
    {
        let d = digit_value(s[q]);
        proof {
            let pre = s@.subrange(j as int, q as int);
            assert(s@.subrange(j as int, q as int + 1) =~= pre.push(s@[q as int]));
            lemma_base_val_push(pre, s@[q as int], 10);
            assert(base_val(pre, 10) * 10 >= base_val(pre, 10));
        }
        let wide: i128 = acc * 10 + (d as i128);
        if wide >= EXP_SAT {
            acc = EXP_SAT;
        } else {
            acc = wide;
        }
        q = q + 1;
    }
    if neg {
        -acc
    } else {
        acc
    }
}

/// Whether the float token at `pos` denotes a value whose nearest double
/// is non-finite, decided exactly on the digit text in integer
/// arithmetic: by the value's decimal magnitude, and at the boundary by
/// comparing the mantissa digits against the threshold digits.
#[verifier::rlimit(100)]
fn float_range_check(s: &[u8], pos: usize) -> (r: bool)
    requires
        pos <= s@.len(),
        float_end(s@, pos as int) is Some,
    ensures
        r == float_overflows(s@, pos as int),
{
    let n = s.len();
    let de = skip_digits(s, pos);
    let mant: Vec<u8>;
    let fraclen: usize;
    let epos: usize;
    if de > pos && de < n && s[de] == B_DOT {
        let fr = skip_digits(s, de + 1);
        let mut m0 = copy_range(s, pos, de);
        proof {
            assert(s@.subrange(de as int + 1, de as int + 1) =~= Seq::<u8>::empty());
            assert(m0@ =~= s@.subrange(pos as int, de as int) + s@.subrange(
                de as int + 1,
                de as int + 1,
            ));
        }
        let mut q = de + 1;
        while q < fr
            invariant
                de + 1 <= q <= fr <= s@.len(),
                m0@ == s@.subrange(pos as int, de as int) + s@.subrange(de as int + 1, q as int),
            decreases fr - q,
        {
            m0.push(s[q]);
            proof {
                assert(m0@ =~= s@.subrange(pos as int, de as int) + s@.subrange(
                    de as int + 1,
                    q as int + 1,
                ));
            }
            q = q + 1;
        }
        mant = m0;
        fraclen = fr - (de + 1);
        epos = fr;
        proof {
            assert(float_a_end(s@, pos as int) is Some);
            assert(mant@ == float_mantissa(s@, pos as int));
            assert(float_scale(s@, pos as int) == exp_value_at(s@, epos as int) - fraclen as int);
        }
    } else {
        let (ex, _) = exponent(s, de);
        if de > pos && ex.is_some() {
            mant = copy_range(s, pos, de);
            fraclen = 0;
            epos = de;
            proof {
                assert(float_a_end(s@, pos as int) is None);
                assert(float_b_end(s@, pos as int) is Some);
                assert(mant@ == float_mantissa(s@, pos as int));
                assert(float_scale(s@, pos as int) == exp_value_at(s@, epos as int)
                    - fraclen as int);
            }
        } else {
            proof {
                assert(float_a_end(s@, pos as int) is None);
                assert(float_b_end(s@, pos as int) is None);
                assert(float_c_end(s@, pos as int) is Some);
                assert(pos < s@.len());
            }
            let dg = skip_digits(s, pos + 1);
            mant = copy_range(s, pos + 1, dg);
            fraclen = dg - (pos + 1);
            epos = dg;
            proof {
                assert(mant@ == float_mantissa(s@, pos as int));
                assert(float_scale(s@, pos as int) == exp_value_at(s@, epos as int)
                    - fraclen as int);
            }
        }
    }
    let z = skip_zeros(mant.as_slice(), 0);
    let mlen = mant.len() - z;
    let ghost m1: Seq<u8> = mant@.subrange(zeros_end(mant@, 0), mant@.len() as int);
    proof {
        assert(m1.len() == mlen);
    }
    if mlen == 0 {
        return false;
    }
    let ev = exp_value(s, epos);
    let scale: i128 = ev - (fraclen as i128);
    let k: i128 = (mlen as i128) + scale;
    let ghost sv: int = exp_value_at(s@, epos as int);
    let ghost kspec: int = mlen as int + float_scale(s@, pos as int);
    proof {
        assert(kspec == mlen + sv - fraclen);
        if ev as int == sv {
            assert(k as int == kspec);
        } else if ev == EXP_SAT {
            assert(sv >= EXP_SAT);
            assert(fraclen <= s@.len() < EXP_SAT - 400);
            assert(k >= 310 && kspec >= 310);
        } else {
            assert(ev == -EXP_SAT && sv <= -EXP_SAT);
            assert(mlen <= s@.len() < EXP_SAT - 400);
            assert(k <= 308 && kspec <= 308);
        }
    }
    if k <= 308 {
        return false;
    }
    if k >= 310 {
        return true;
    }
    proof {
        assert(ev as int == sv);
        assert(kspec == 309);
    }
    let thr: Vec<u8> = vec![
        49,
        55,
        57,
        55,
        54,
        57,
        51,
        49,
        51,
        52,
        56,
        54,
        50,
        51,
        49,
        53,
        56,
        48,
        55,
        57,
        51,
        55,
        50,
        56,
        57,
        55,
        49,
        52,
        48,
        53,
        51,
        48,
        51,
        52,
        49,
        53,
        48,
        55,
        57,
        57,
        51,
        52,
        49,
        51,
        50,
        55,
        49,
        48,
        48,
        51,
        55,
        56,
        50,
        54,
        57,
        51,
        54,
        49,
        55,
        51,
        55,
        55,
        56,
        57,
        56,
        48,
        52,
        52,
        52,
        57,
        54,
        56,
        50,
        57,
        50,
        55,
        54,
        52,
        55,
        53,
        48,
        57,
        52,
        54,
        54,
        52,
        57,
        48,
        49,
        55,
        57,
        55,
        55,
        53,
        56,
        55,
        50,
        48,
        55,
        48,
        57,
        54,
        51,
        51,
        48,
        50,
        56,
        54,
        52,
        49,
        54,
        54,
        57,
        50,
        56,
        56,
        55,
        57,
        49,
        48,
        57,
        52,
        54,
        53,
        53,
        53,
        53,
        52,
        55,
        56,
        53,
        49,
        57,
        52,
        48,
        52,
        48,
        50,
        54,
        51,
        48,
        54,
        53,
        55,
        52,
        56,
        56,
        54,
        55,
        49,
        53,
        48,
        53,
        56,
        50,
        48,
        54,
        56,
        49,
        57,
        48,
        56,
        57,
        48,
        50,
        48,
        48,
        48,
        55,
        48,
        56,
        51,
        56,
        51,
        54,
        55,
        54,
        50,
        55,
        51,
        56,
        53,
        52,
        56,
        52,
        53,
        56,
        49,
        55,
        55,
        49,
        49,
        53,
        51,
        49,
        55,
        54,
        52,
        52,
        55,
        53,
        55,
        51,
        48,
        50,
        55,
        48,
        48,
        54,
        57,
        56,
        53,
        53,
        53,
        55,
        49,
        51,
        54,
        54,
        57,
        53,
        57,
        54,
        50,
        50,
        56,
        52,
        50,
        57,
        49,
        52,
        56,
        49,
        57,
        56,
        54,
        48,
        56,
        51,
        52,
        57,
        51,
        54,
        52,
        55,
        53,
        50,
        57,
        50,
        55,
        49,
        57,
        48,
        55,
        52,
        49,
        54,
        56,
        52,
        52,
        52,
        51,
        54,
        53,
        53,
        49,
        48,
        55,
        48,
        52,
        51,
        52,
        50,
        55,
        49,
        49,
        53,
        53,
        57,
        54,
        57,
        57,
        53,
        48,
        56,
        48,
        57,
        51,
        48,
        52,
        50,
        56,
        56,
        48,
        49,
        55,
        55,
        57,
        48,
        52,
        49,
        55,
        52,
        52,
        57,
        55,
        55,
        57,
        50
    ];
    proof {
        assert(thr@ =~= dbl_max_digits());
        assert(pad_digits(m1).subrange(0, 309) =~= pad_digits(m1));
        assert(dbl_max_digits().subrange(0, 309) =~= dbl_max_digits());
    }
    let mut i: usize = 0;
    while i < 309
        invariant
            0 <= i <= 309,
            1 <= mlen,
            z + mlen == mant@.len(),
            mant@.len() <= usize::MAX,
            float_overflows(s@, pos as int) == digits_ge(pad_digits(m1), dbl_max_digits()),
            z == zeros_end(mant@, 0),
            m1 == mant@.subrange(zeros_end(mant@, 0), mant@.len() as int),
            m1.len() == mlen,
            thr@ == dbl_max_digits(),
            digits_ge(pad_digits(m1), dbl_max_digits()) == digits_ge(
                pad_digits(m1).subrange(i as int, 309),
                dbl_max_digits().subrange(i as int, 309),
            ),
        decreases 309 - i,
    {
        let a = if i < mlen {
            mant[z + i]
        } else {
            B_D0
        };
        proof {
            assert(a == pad_digits(m1)[i as int]);
        }
        let t = thr[i];
        if a != t {
            proof {
                let pa = pad_digits(m1).subrange(i as int, 309);
                let pb = dbl_max_digits().subrange(i as int, 309);
                assert(pa[0] == a && pb[0] == t);
                assert(digits_ge(pa, pb) == (a > t));
            }
            return a > t;
        }
        proof {
            let pa = pad_digits(m1).subrange(i as int, 309);
            let pb = dbl_max_digits().subrange(i as int, 309);
            assert(pa[0] == a && pb[0] == t);
            assert(pa.subrange(1, pa.len() as int) =~= pad_digits(m1).subrange(i as int + 1, 309));
            assert(pb.subrange(1, pb.len() as int) =~= dbl_max_digits().subrange(
                i as int + 1,
                309,
            ));
        }
        i = i + 1;
    }
    proof {
        assert(pad_digits(m1).subrange(309, 309) =~= Seq::<u8>::empty());
        assert(dbl_max_digits().subrange(309, 309) =~= Seq::<u8>::empty());
        assert(digits_ge(Seq::<u8>::empty(), Seq::<u8>::empty()));
    }
    true
}

/// The outcome of one literal-lexing attempt: a token and its end, an
/// integer literal whose value does not fit the signed 64-bit range (with
/// its span), or no literal at all.
pub enum LitHit {
    Lit(Literal, usize),
    Overflow(usize, usize, Expected),
    Miss,
}

/// The diagnostic label of an out-of-range literal of the given form.
pub open spec fn overflow_label(sel: LitSel) -> Expected {
    match sel {
        LitSel::FloatTok => Expected::FloatInRange,
        _ => Expected::IntegerInRange,
    }
}

/// What the lexer must hand back at `p`, given which form wins there.
pub open spec fn lit_hit_ok(s: Seq<u8>, p: int, r: LitHit) -> bool {
    match lit_token(s, p) {
        Option::None => r is Miss,
        Option::Some(t) => {
            let e = t.1;
            match t.0 {
                LitSel::FloatTok => if float_overflows(s, p) {
                    r == LitHit::Overflow(p as usize, e as usize, Expected::FloatInRange)
                } else {
                    match r {
                        LitHit::Lit(l, q) => q == e && (match l {
                            Literal::Float(v) => v@ == s.subrange(p, e),
                            _ => false,
                        }),
                        _ => false,
                    }
                },
                LitSel::HexTok => {
                    let v = base_val(s.subrange(p + 2, e), 16);
                    if v <= i64::MAX {
                        r == LitHit::Lit(Literal::Integer(v as i64), e as usize)
                    } else {
                        r == LitHit::Overflow(
                            p as usize,
                            e as usize,
                            Expected::IntegerInRange,
                        )
                    }
                },
                LitSel::OctTok => {
                    let v = base_val(s.subrange(p + 1, e), 8);
                    if v <= i64::MAX {
                        r == LitHit::Lit(Literal::Integer(v as i64), e as usize)
                    } else {
                        r == LitHit::Overflow(
                            p as usize,
                            e as usize,
                            Expected::IntegerInRange,
                        )
                    }
                },
                LitSel::DecTok => {
                    let v = base_val(s.subrange(p, e), 10);
                    if v <= i64::MAX {
                        r == LitHit::Lit(Literal::Integer(v as i64), e as usize)
                    } else {
                        r == LitHit::Overflow(
                            p as usize,
                            e as usize,
                            Expected::IntegerInRange,
                        )
                    }
                },
                LitSel::StrTok => match r {
                    LitHit::Lit(l, q) => q == e && (match l {
                        Literal::String(v) => v@ == s.subrange(p + 1, e - 1),
                        _ => false,
                    }),
                    _ => false,
                },
                LitSel::TrueTok => r == LitHit::Lit(Literal::Boolean(true), e as usize),
                LitSel::FalseTok => r == LitHit::Lit(Literal::Boolean(false), e as usize),
                LitSel::UndefTok => r == LitHit::Lit(Literal::Undefined, e as usize),
                LitSel::NullTok => r == LitHit::Lit(Literal::Null, e as usize),
            }
        },
    }
}

/// Lex one literal at `pos`.  The result carries the merged failure
/// position and label of the forms tried before the winning one, so that a
/// caller that later fails can point at the deepest position reached.
#[verifier::rlimit(100)]
pub fn lex_literal(s: &[u8], pos: usize) -> (r: (LitHit, usize, Expected))
    requires
        pos <= s@.len(),
    ensures
        lit_hit_ok(s@, pos as int, r.0),
        r.1 as int == lit_fail_info(s@, pos as int).0,
        r.2 == lit_fail_info(s@, pos as int).1,
        pos <= r.1 <= s@.len(),
        (match lit_token(s@, pos as int) {
            Option::Some(t) => pos < t.1 <= s@.len(),
            Option::None => true,
        }),
{
    let n = s.len();
    proof {
        assert(n == s@.len());
    }
    let (a_end, a_fail, a_exp) = float_a(s, pos);
    let mut fpos: usize = pos;
    let mut fexp: Expected = Expected::Literal;
    let fe: Option<usize>;
    if a_end.is_some() {
        fe = a_end;
    } else {
        fpos = a_fail;
        fexp = a_exp;
        let (b_end, b_fail, b_exp) = float_b(s, pos);
        if b_end.is_some() {
            fe = b_end;
        } else {
            if b_fail > fpos {
                fpos = b_fail;
                fexp = b_exp;
            }
            let (c_end, c_fail, c_exp) = float_c(s, pos);
            if c_end.is_some() {
                fe = c_end;
            } else {
                if c_fail > fpos {
                    fpos = c_fail;
                    fexp = c_exp;
                }
                fe = None;
            }
        }
    }
    if let Some(e) = fe {
        if float_range_check(s, pos) {
            return (LitHit::Overflow(pos, e, Expected::FloatInRange), fpos, fexp);
        }
        let text = copy_range(s, pos, e);
        return (LitHit::Lit(Literal::Float(text), e), fpos, fexp);
    }
    let (h_end, h_fail, h_exp) = hex_probe(s, pos);
    if let Some(e) = h_end {
        proof {
            assert forall|k: int| pos + 2 <= k < e implies is_hex_digit(#[trigger] s@[k])
                && hex_digit_val(s@[k]) < 16 by {
                assert(is_hex_digit(s@[k]));
            }
        }
        match radix_value(s, pos + 2, e, 16) {
            Some(v) => {
                return (LitHit::Lit(Literal::Integer(v), e), fpos, fexp);
            },
            None => {
                return (LitHit::Overflow(pos, e, Expected::IntegerInRange), fpos, fexp);
            },
        }
    }
    if h_fail > fpos {
        fpos = h_fail;
        fexp = h_exp;
    }
    let (o_end, o_fail) = oct_probe(s, pos);
    if let Some(e) = o_end {
        proof {
            assert forall|k: int| pos + 1 <= k < e implies is_hex_digit(#[trigger] s@[k])
                && hex_digit_val(s@[k]) < 8 by {
                assert(is_oct_digit(s@[k]));
            }
        }
        match radix_value(s, pos + 1, e, 8) {
            Some(v) => {
                return (LitHit::Lit(Literal::Integer(v), e), fpos, fexp);
            },
            None => {
                return (LitHit::Overflow(pos, e, Expected::IntegerInRange), fpos, fexp);
            },
        }
    }
    if o_fail > fpos {
        fpos = o_fail;
        fexp = Expected::OctalDigit;
    }
    let d_end = dec_probe(s, pos);
    if let Some(e) = d_end {
        proof {
            assert forall|k: int| pos <= k < e implies is_hex_digit(#[trigger] s@[k])
                && hex_digit_val(s@[k]) < 10 by {
                assert(is_digit(s@[k]));
            }
        }
        match radix_value(s, pos, e, 10) {
            Some(v) => {
                return (LitHit::Lit(Literal::Integer(v), e), fpos, fexp);
            },
            None => {
                return (LitHit::Overflow(pos, e, Expected::IntegerInRange), fpos, fexp);
            },
        }
    }
    let (s_end, s_fail, s_exp) = str_probe(s, pos);
    if let Some(e) = s_end {
        let body = copy_range(s, pos + 1, e - 1);
        return (LitHit::Lit(Literal::String(body), e), fpos, fexp);
    }
    if s_fail > fpos {
        fpos = s_fail;
        fexp = s_exp;
    }
    let w_true: Vec<u8> = vec![B_LC_T, B_LC_R, B_LC_U, B_LC_E];
    proof {
        assert(w_true@ =~= kw_true());
    }
    let (m_true, f_true) = kw_probe(s, pos, w_true.as_slice());
    if m_true {
        proof {
            assert(kw_true().len() == 4);
            assert(pos + 4 <= s@.len());
        }
        return (LitHit::Lit(Literal::Boolean(true), pos + 4), fpos, fexp);
    }
    if f_true > fpos {
        fpos = f_true;
        fexp = Expected::Literal;
    }
    let w_false: Vec<u8> = vec![B_LC_F, B_LC_A, B_LC_L, B_LC_S, B_LC_E];
    proof {
        assert(w_false@ =~= kw_false());
    }
    let (m_false, f_false) = kw_probe(s, pos, w_false.as_slice());
    if m_false {
        proof {
            assert(kw_false().len() == 5);
            assert(pos + 5 <= s@.len());
        }
        return (LitHit::Lit(Literal::Boolean(false), pos + 5), fpos, fexp);
    }
    if f_false > fpos {
        fpos = f_false;
        fexp = Expected::Literal;
    }
    let w_undef: Vec<u8> = vec![
        B_LC_U,
        B_LC_N,
        B_LC_D,
        B_LC_E,
        B_LC_F,
        B_LC_I,
        B_LC_N,
        B_LC_E,
        B_LC_D,
    ];
    proof {
        assert(w_undef@ =~= kw_undefined());
    }
    let (m_undef, f_undef) = kw_probe(s, pos, w_undef.as_slice());
    if m_undef {
        proof {
            assert(kw_undefined().len() == 9);
            assert(pos + 9 <= s@.len());
        }
        return (LitHit::Lit(Literal::Undefined, pos + 9), fpos, fexp);
    }
    if f_undef > fpos {
        fpos = f_undef;
        fexp = Expected::Literal;
    }
    let w_null: Vec<u8> = vec![B_LC_N, B_LC_U, B_LC_L, B_LC_L];
    proof {
        assert(w_null@ =~= kw_null());
    }
    let (m_null, f_null) = kw_probe(s, pos, w_null.as_slice());
    if m_null {
        proof {
            assert(kw_null().len() == 4);
            assert(pos + 4 <= s@.len());
        }
        return (LitHit::Lit(Literal::Null, pos + 4), fpos, fexp);
    }
    if f_null > fpos {
        fpos = f_null;
        fexp = Expected::Literal;
    }
    (LitHit::Miss, fpos, fexp)
}


/// The diagnostic for a failure at `pos`: a one-byte span on the offending
/// byte, or an empty span at the end of the input.
pub open spec fn point_diag(s: Seq<u8>, pos: int, exp: Expected) -> Diagnostic {
    Diagnostic {
        start: pos as usize,
        end: if pos < s.len() {
            (pos + 1) as usize
        } else {
            pos as usize
        },
        found: if pos < s.len() {
            Option::Some(s[pos])
        } else {
            Option::None
        },
        expected: exp,
    }
}

/// The diagnostic for an integer literal whose value does not fit the
/// signed 64-bit range, spanning the whole token.
pub open spec fn overflow_diag(start: int, end: int, exp: Expected) -> Diagnostic {
    Diagnostic { start: start as usize, end: end as usize, found: Option::None, expected: exp }
}

/// Whether the integer token selected at `p` overflows the signed 64-bit
/// range.
pub open spec fn lit_overflow(s: Seq<u8>, p: int, sel: LitSel, e: int) -> bool {
    match sel {
        LitSel::HexTok => base_val(s.subrange(p + 2, e), 16) > i64::MAX,
        LitSel::OctTok => base_val(s.subrange(p + 1, e), 8) > i64::MAX,
        LitSel::DecTok => base_val(s.subrange(p, e), 10) > i64::MAX,
        LitSel::FloatTok => float_overflows(s, p),
        _ => false,
    }
}

/// Whether a full-input literal parse of `s` fails: no form matches, the
/// token does not reach the end of the input, or its value overflows.
pub open spec fn lit_parse_fails(s: Seq<u8>) -> bool {
    match lit_token(s, 0) {
        Option::None => true,
        Option::Some(t) => t.1 < s.len() || lit_overflow(s, 0, t.0, t.1),
    }
}

/// The diagnostic a failed full-input literal parse reports: an overflow
/// names its whole token; otherwise the failure stands at the deepest
/// position reached, which is the first unconsumed byte when no probed form
/// got further.
pub open spec fn lit_parse_diag(s: Seq<u8>) -> Diagnostic {
    match lit_token(s, 0) {
        Option::None => point_diag(s, lit_fail_info(s, 0).0, lit_fail_info(s, 0).1),
        Option::Some(t) => {
            if lit_overflow(s, 0, t.0, t.1) {
                overflow_diag(0, t.1, overflow_label(t.0))
            } else if lit_fail_info(s, 0).0 > t.1 {
                point_diag(s, lit_fail_info(s, 0).0, lit_fail_info(s, 0).1)
            } else {
                point_diag(s, t.1, Expected::EndOfInput)
            }
        },
    }
}

/// Build the point diagnostic for a failure at `pos`.
pub fn mk_diag(s: &[u8], pos: usize, exp: Expected) -> (r: Diagnostic)
    requires
        pos <= s@.len(),
    ensures
        r == point_diag(s@, pos as int, exp),
{
    if pos < s.len() {
        Diagnostic { start: pos, end: pos + 1, found: Some(s[pos]), expected: exp }
    } else {
        Diagnostic { start: pos, end: pos, found: None, expected: exp }
    }
}

impl Literal {
    /// Parse the whole input as one literal token.
    ///
    /// Succeeds exactly when one of the literal forms matches at the start,
    /// its token covers the whole input, and an integer token's value fits
    /// the signed 64-bit range.  A failed parse reports one diagnostic:
    /// an out-of-range integer names its whole token, and any other failure
    /// points at the deepest position a form reached.
    pub fn parser(input: &[u8]) -> (r: Result<Literal, Vec<Diagnostic>>)
        ensures
            (r is Ok) == !lit_parse_fails(input@),
            (match r {
                Result::Ok(l) => lit_hit_ok(
                    input@,
                    0,
                    LitHit::Lit(l, input@.len() as usize),
                ),
                Result::Err(ds) => ds@.len() == 1 && ds@[0] == lit_parse_diag(input@),
            }),
    {
        let (hit, fpos, fexp) = lex_literal(input, 0);
        match hit {
            LitHit::Lit(l, e) => {
                if e == input.len() {
                    Ok(l)
                } else if fpos > e {
                    Err(vec![mk_diag(input, fpos, fexp)])
                } else {
                    Err(vec![mk_diag(input, e, Expected::EndOfInput)])
                }
            },
            LitHit::Overflow(a, b, x) => {
                Err(vec![Diagnostic { start: a, end: b, found: None, expected: x }])
            },
            LitHit::Miss => Err(vec![mk_diag(input, fpos, fexp)]),
        }
    }
}


/// Integer round trip by value: the canonical decimal digits of any value
/// in the signed 64-bit range lex as one decimal integer token covering
/// the whole text, with exactly that value, so parsing the re-rendered
/// text yields the original value back.  The value identity
/// `base_val(base_repr(n, base), base) == n` holds for the octal and
/// hexadecimal renderings as well ([`lemma_base_repr_round_trip`]).
pub proof fn lemma_decimal_round_trip(v: i64)
    requires
        0 <= v,
    ensures
        lit_token(base_repr(v as nat, 10), 0) == Option::Some(
            (LitSel::DecTok, base_repr(v as nat, 10).len() as int),
        ),
        base_val(base_repr(v as nat, 10), 10) == v,
        !lit_parse_fails(base_repr(v as nat, 10)),
{
    let s = base_repr(v as nat, 10);
    lemma_base_repr_digits(v as nat, 10);
    assert forall|j: int| 0 <= j < s.len() implies is_digit(#[trigger] s[j]) by {
        assert(is_hex_digit(s[j]) && hex_digit_val(s[j]) < 10);
    }
    lemma_digits_end_all(s, 0);
    lemma_base_repr_round_trip(v as nat, 10);
    assert(float_a_end(s, 0) is None);
    assert(float_b_end(s, 0) is None);
    assert(float_c_end(s, 0) is None);
    if v >= 10 {
        lemma_base_repr_first(v as nat, 10);
        assert(hex_end(s, 0) is None);
        assert(oct_end(s, 0) is None);
        assert(dec_end(s, 0) == Option::Some(s.len() as int));
    } else {
        assert(s.len() == 1);
        assert(hex_end(s, 0) is None);
        assert(oct_end(s, 0) is None);
        assert(dec_end(s, 0) == Option::Some(s.len() as int));
    }
    assert(s.subrange(0, s.len() as int) =~= s);
}

/// A leading zero followed by a digit that is not an octal digit is
/// rejected: no literal form covers such all-digit text, so the
/// full-input literal parse fails, reporting the end of the input (which
/// the float attempt reached while still hunting a decimal point).
pub proof fn lemma_leading_zero_rejected(s: Seq<u8>)
    requires
        s.len() >= 2,
        s[0] == B_D0,
        forall|i: int| 0 <= i < s.len() ==> is_digit(#[trigger] s[i]),
        !is_oct_digit(s[1]),
    ensures
        lit_parse_fails(s),
        lit_fail_info(s, 0) == (s.len() as int, Expected::Dot),
        lit_parse_diag(s) == point_diag(s, s.len() as int, Expected::Dot),
{
    lemma_digits_end_all(s, 0);
    assert(float_a_end(s, 0) is None);
    assert(float_b_end(s, 0) is None);
    assert(float_c_end(s, 0) is None);
    assert(hex_end(s, 0) is None);
    assert(oct_digits_end(s, 1) == 1);
    assert(oct_end(s, 0) is None);
    assert(dec_end(s, 0) == Option::Some(1int));
    assert(lit_token(s, 0) == Option::Some((LitSel::DecTok, 1int)));
    assert(float_a_fail(s, 0) == s.len());
    assert(exponent_fail(s, s.len() as int) == s.len());
    assert(float_b_fail(s, 0) == s.len());
    assert(float_c_fail(s, 0) == 0);
    assert(hex_fail(s, 0) <= 2);
    assert(oct_fail(s, 0) == 1);
    assert(lit_fail_info(s, 0) == (s.len() as int, Expected::Dot));
    let t = s.subrange(0, 1);
    assert(t =~= seq![s[0]]);
    assert(t.drop_last() =~= Seq::<u8>::empty());
    assert(base_val(t.drop_last(), 10) == 0);
    vstd::arithmetic::mul::lemma_mul_basics(10int);
    assert(base_val(t, 10) == base_val(t.drop_last(), 10) * 10 + hex_digit_val(t.last()));
    assert(hex_digit_val(s[0]) == 0);
    assert(base_val(t, 10) == 0);
}

/// An integer literal whose decoded value exceeds the signed 64-bit range
/// fails with a diagnostic naming its whole token; it is a reported
/// failure, never a panic or a silent wrap-around.
pub proof fn lemma_overflow_rejected(s: Seq<u8>)
    requires
        (match lit_token(s, 0) {
            Option::Some(t) => lit_overflow(s, 0, t.0, t.1),
            Option::None => false,
        }),
    ensures
        lit_parse_fails(s),
        lit_parse_diag(s) == overflow_diag(
            0,
            lit_token(s, 0)->Some_0.1,
            overflow_label(lit_token(s, 0)->Some_0.0),
        ),
{
}


/// The mathematical view of a [`Literal`]: token text as byte sequences.
pub enum LitV {
    Null,
    Undefined,
    Integer(i64),
    Float(Seq<u8>),
    String(Seq<u8>),
    Boolean(bool),
}

/// The view of a literal value.
pub open spec fn litv(l: Literal) -> LitV {
    match l {
        Literal::Null => LitV::Null,
        Literal::Undefined => LitV::Undefined,
        Literal::Integer(v) => LitV::Integer(v),
        Literal::Float(t) => LitV::Float(t@),
        Literal::String(t) => LitV::String(t@),
        Literal::Boolean(b) => LitV::Boolean(b),
    }
}

/// The value of the literal token at `p`, as a function of the input
/// bytes alone (meaningful where a token stands and is in range).
pub open spec fn lit_value(s: Seq<u8>, p: int) -> LitV
    recommends
        0 <= p <= s.len(),
        lit_token(s, p) is Some,
{
    match lit_token(s, p) {
        Option::Some(t) => match t.0 {
            LitSel::FloatTok => LitV::Float(s.subrange(p, t.1)),
            LitSel::HexTok => LitV::Integer(base_val(s.subrange(p + 2, t.1), 16) as i64),
            LitSel::OctTok => LitV::Integer(base_val(s.subrange(p + 1, t.1), 8) as i64),
            LitSel::DecTok => LitV::Integer(base_val(s.subrange(p, t.1), 10) as i64),
            LitSel::StrTok => LitV::String(s.subrange(p + 1, t.1 - 1)),
            LitSel::TrueTok => LitV::Boolean(true),
            LitSel::FalseTok => LitV::Boolean(false),
            LitSel::UndefTok => LitV::Undefined,
            LitSel::NullTok => LitV::Null,
        },
        Option::None => LitV::Null,
    }
}

/// A lexed, in-range literal views to exactly the token's value.
pub proof fn lemma_lit_hit_view(s: Seq<u8>, p: int, l: Literal, e: usize)
    requires
        0 <= p <= s.len() <= usize::MAX,
        lit_token(s, p) is Some,
        !lit_overflow(s, p, lit_token(s, p)->Some_0.0, lit_token(s, p)->Some_0.1),
        lit_hit_ok(s, p, LitHit::Lit(l, e)),
    ensures
        e as int == lit_token(s, p)->Some_0.1,
        litv(l) == lit_value(s, p),
{
    lemma_lit_hit_end(s, p, l, e);
    let t = lit_token(s, p)->Some_0;
    match t.0 {
        LitSel::FloatTok => assert(litv(l) == lit_value(s, p)),
        LitSel::HexTok => assert(litv(l) == lit_value(s, p)),
        LitSel::OctTok => assert(litv(l) == lit_value(s, p)),
        LitSel::DecTok => assert(litv(l) == lit_value(s, p)),
        LitSel::StrTok => assert(litv(l) == lit_value(s, p)),
        LitSel::TrueTok => assert(litv(l) == lit_value(s, p)),
        LitSel::FalseTok => assert(litv(l) == lit_value(s, p)),
        LitSel::UndefTok => assert(litv(l) == lit_value(s, p)),
        LitSel::NullTok => assert(litv(l) == lit_value(s, p)),
    }
}

/// Bound for [`exponent_end`].
pub proof fn lemma_exponent_end_bounds(s: Seq<u8>, i: int)
    requires
        0 <= i <= s.len(),
    ensures
        (match exponent_end(s, i) {
            Option::Some(k) => i < k <= s.len(),
            Option::None => true,
        }),
{
    if i < s.len() && (s[i] == B_LC_E || s[i] == B_UC_E) {
        let j = if i + 1 < s.len() && (s[i + 1] == B_PLUS || s[i + 1] == B_MINUS) {
            i + 2
        } else {
            i + 1
        };
        lemma_digits_end_bounds(s, j);
    }
}

/// A literal token at `p` ends past `p` and within the input.
pub proof fn lemma_lit_token_bounds(s: Seq<u8>, p: int)
    requires
        0 <= p <= s.len(),
        lit_token(s, p) is Some,
    ensures
        p < lit_token(s, p)->Some_0.1 <= s.len(),
{
    lemma_digits_end_bounds(s, p);
    let de = digits_end(s, p);
    if de > p && de < s.len() && s[de] == B_DOT {
        lemma_digits_end_bounds(s, de + 1);
        lemma_exponent_end_bounds(s, digits_end(s, de + 1));
    }
    if de > p {
        lemma_exponent_end_bounds(s, de);
    }
    if p < s.len() && s[p] == B_DOT {
        lemma_digits_end_bounds(s, p + 1);
        lemma_exponent_end_bounds(s, digits_end(s, p + 1));
    }
    if p + 2 <= s.len() && s[p] == B_D0 && (s[p + 1] == B_LC_X || s[p + 1] == B_UC_X) {
        lemma_hex_digits_end_bounds(s, p + 2);
    }
    if p < s.len() && s[p] == B_D0 {
        lemma_oct_digits_end_bounds(s, p + 1);
    }
    if p < s.len() && is_digit(s[p]) {
        lemma_digits_end_bounds(s, p + 1);
    }
    if p < s.len() && s[p] == B_QUOTE {
        lemma_nonquote_end_bounds(s, p + 1);
    }
    if at_kw(s, p, kw_true()) {
        assert(p + 4 <= s.len());
    }
    if at_kw(s, p, kw_false()) {
        assert(p + 5 <= s.len());
    }
    if at_kw(s, p, kw_undefined()) {
        assert(p + 9 <= s.len());
    }
    if at_kw(s, p, kw_null()) {
        assert(p + 4 <= s.len());
    }
}

/// A lexed literal ends exactly where the winning form's token ends.
pub proof fn lemma_lit_hit_end(s: Seq<u8>, p: int, l: Literal, e: usize)
    requires
        0 <= p <= s.len() <= usize::MAX,
        lit_token(s, p) is Some,
        lit_hit_ok(s, p, LitHit::Lit(l, e)),
    ensures
        e as int == lit_token(s, p)->Some_0.1,
{
    lemma_lit_token_bounds(s, p);
    let t = lit_token(s, p)->Some_0;
    match t.0 {
        LitSel::FloatTok => assert(e as int == t.1),
        LitSel::HexTok => assert(e as int == t.1),
        LitSel::OctTok => assert(e as int == t.1),
        LitSel::DecTok => assert(e as int == t.1),
        LitSel::StrTok => assert(e as int == t.1),
        LitSel::TrueTok => assert(e as int == t.1),
        LitSel::FalseTok => assert(e as int == t.1),
        LitSel::UndefTok => assert(e as int == t.1),
        LitSel::NullTok => assert(e as int == t.1),
    }
}

} // verus!
