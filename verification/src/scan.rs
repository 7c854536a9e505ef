//! Character classes and longest-run scanners over the input bytes.
//!
//! Every lexer in the crate is specified in terms of these spec functions:
//! a scanner returns the first position at or after `from` whose byte falls
//! outside the class, so the run `[from, end)` is the longest run of bytes
//! of that class starting at `from`.

use vstd::prelude::*;

verus! {

/// ASCII tab.
pub const B_HT: u8 = 9;

/// ASCII line feed.
pub const B_LF: u8 = 10;

/// ASCII carriage return.
pub const B_CR: u8 = 13;

/// ASCII space.
pub const B_SP: u8 = 32;

/// ASCII `!`.
pub const B_BANG: u8 = 33;

/// ASCII `"`.
pub const B_QUOTE: u8 = 34;

/// ASCII `%`.
pub const B_PCT: u8 = 37;

/// ASCII `(`.
pub const B_LP: u8 = 40;

/// ASCII `)`.
pub const B_RP: u8 = 41;

/// ASCII `*`.
pub const B_STAR: u8 = 42;

/// ASCII `+`.
pub const B_PLUS: u8 = 43;

/// ASCII `,`.
pub const B_COMMA: u8 = 44;

/// ASCII `-`.
pub const B_MINUS: u8 = 45;

/// ASCII `.`.
pub const B_DOT: u8 = 46;

/// ASCII `/`.
pub const B_SLASH: u8 = 47;

/// ASCII `0`.
pub const B_D0: u8 = 48;

/// ASCII `7`.
pub const B_D7: u8 = 55;

/// ASCII `9`.
pub const B_D9: u8 = 57;

/// ASCII `<`.
pub const B_LT: u8 = 60;

/// ASCII `=`.
pub const B_EQ: u8 = 61;

/// ASCII `>`.
pub const B_GT: u8 = 62;

/// ASCII `_`.
pub const B_US: u8 = 95;

/// ASCII `A`.
pub const B_UC_A: u8 = 65;

/// ASCII `E`.
pub const B_UC_E: u8 = 69;

/// ASCII `F`.
pub const B_UC_F: u8 = 70;

/// ASCII `X`.
pub const B_UC_X: u8 = 88;

/// ASCII `Z`.
pub const B_UC_Z: u8 = 90;

/// ASCII `a`.
pub const B_LC_A: u8 = 97;

/// ASCII `b`.
pub const B_LC_B: u8 = 98;

/// ASCII `c`.
pub const B_LC_C: u8 = 99;

/// ASCII `d`.
pub const B_LC_D: u8 = 100;

/// ASCII `e`.
pub const B_LC_E: u8 = 101;

/// ASCII `f`.
pub const B_LC_F: u8 = 102;

/// ASCII `g`.
pub const B_LC_G: u8 = 103;

/// ASCII `h`.
pub const B_LC_H: u8 = 104;

/// ASCII `i`.
pub const B_LC_I: u8 = 105;

/// ASCII `j`.
pub const B_LC_J: u8 = 106;

/// ASCII `k`.
pub const B_LC_K: u8 = 107;

/// ASCII `l`.
pub const B_LC_L: u8 = 108;

/// ASCII `m`.
pub const B_LC_M: u8 = 109;

/// ASCII `n`.
pub const B_LC_N: u8 = 110;

/// ASCII `o`.
pub const B_LC_O: u8 = 111;

/// ASCII `p`.
pub const B_LC_P: u8 = 112;

/// ASCII `q`.
pub const B_LC_Q: u8 = 113;

/// ASCII `r`.
pub const B_LC_R: u8 = 114;

/// ASCII `s`.
pub const B_LC_S: u8 = 115;

/// ASCII `t`.
pub const B_LC_T: u8 = 116;

/// ASCII `u`.
pub const B_LC_U: u8 = 117;

/// ASCII `v`.
pub const B_LC_V: u8 = 118;

/// ASCII `w`.
pub const B_LC_W: u8 = 119;

/// ASCII `x`.
pub const B_LC_X: u8 = 120;

/// ASCII `y`.
pub const B_LC_Y: u8 = 121;

/// ASCII `z`.
pub const B_LC_Z: u8 = 122;

/// Decimal digit `0`..=`9`.
pub open spec fn is_digit(b: u8) -> bool {
    B_D0 <= b && b <= B_D9
}

/// Octal digit `0`..=`7`.
pub open spec fn is_oct_digit(b: u8) -> bool {
    B_D0 <= b && b <= B_D7
}

/// Hexadecimal digit `0`..=`9`, `a`..=`f`, `A`..=`F`.
pub open spec fn is_hex_digit(b: u8) -> bool {
    is_digit(b) || (B_LC_A <= b && b <= B_LC_F) || (B_UC_A <= b && b <= B_UC_F)
}

/// Insignificant whitespace tolerated around operators and call punctuation.
pub open spec fn is_ws(b: u8) -> bool {
    b == B_SP || b == B_HT || b == B_LF || b == B_CR
}

/// First character of an identifier: letter or underscore.
pub open spec fn is_ident_start(b: u8) -> bool {
    b == B_US || (B_LC_A <= b && b <= B_LC_Z) || (B_UC_A <= b && b <= B_UC_Z)
}

/// Continuation character of an identifier: letter, digit or underscore.
pub open spec fn is_ident_cont(b: u8) -> bool {
    is_ident_start(b) || is_digit(b)
}

/// End of the run of decimal digits starting at `i`.
pub open spec fn digits_end(s: Seq<u8>, i: int) -> int
    recommends
        0 <= i <= s.len(),
    decreases s.len() - i when 0 <= i <= s.len()
{
    if i >= s.len() || !is_digit(s[i]) {
        i
    } else {
        digits_end(s, i + 1)
    }
}

/// End of the run of octal digits starting at `i`.
pub open spec fn oct_digits_end(s: Seq<u8>, i: int) -> int
    recommends
        0 <= i <= s.len(),
    decreases s.len() - i when 0 <= i <= s.len()
{
    if i >= s.len() || !is_oct_digit(s[i]) {
        i
    } else {
        oct_digits_end(s, i + 1)
    }
}

/// End of the run of hexadecimal digits starting at `i`.
pub open spec fn hex_digits_end(s: Seq<u8>, i: int) -> int
    recommends
        0 <= i <= s.len(),
    decreases s.len() - i when 0 <= i <= s.len()
{
    if i >= s.len() || !is_hex_digit(s[i]) {
        i
    } else {
        hex_digits_end(s, i + 1)
    }
}

/// End of the run of whitespace starting at `i`.
pub open spec fn ws_end(s: Seq<u8>, i: int) -> int
    recommends
        0 <= i <= s.len(),
    decreases s.len() - i when 0 <= i <= s.len()
{
    if i >= s.len() || !is_ws(s[i]) {
        i
    } else {
        ws_end(s, i + 1)
    }
}

/// End of the run of identifier-continuation bytes starting at `i`.
pub open spec fn ident_cont_end(s: Seq<u8>, i: int) -> int
    recommends
        0 <= i <= s.len(),
    decreases s.len() - i when 0 <= i <= s.len()
{
    if i >= s.len() || !is_ident_cont(s[i]) {
        i
    } else {
        ident_cont_end(s, i + 1)
    }
}

/// End of the run of non-quote bytes starting at `i` (the body of a string
/// literal; a `"` cannot appear inside it).
pub open spec fn nonquote_end(s: Seq<u8>, i: int) -> int
    recommends
        0 <= i <= s.len(),
    decreases s.len() - i when 0 <= i <= s.len()
{
    if i >= s.len() || s[i] == B_QUOTE {
        i
    } else {
        nonquote_end(s, i + 1)
    }
}

/// Bound for [`digits_end`].
pub proof fn lemma_digits_end_bounds(s: Seq<u8>, i: int)
    requires
        0 <= i <= s.len(),
    ensures
        i <= digits_end(s, i) <= s.len(),
    decreases s.len() - i,
{
    if i < s.len() && is_digit(s[i]) {
        lemma_digits_end_bounds(s, i + 1);
    }
}

pub fn digit(b: u8) -> (r: bool)
    ensures
        r == is_digit(b),
{
    B_D0 <= b && b <= B_D9
}

pub fn oct_digit(b: u8) -> (r: bool)
    ensures
        r == is_oct_digit(b),
{
    B_D0 <= b && b <= B_D7
}

pub fn hex_digit(b: u8) -> (r: bool)
    ensures
        r == is_hex_digit(b),
{
    digit(b) || (B_LC_A <= b && b <= B_LC_F) || (B_UC_A <= b && b <= B_UC_F)
}

pub fn ws(b: u8) -> (r: bool)
    ensures
        r == is_ws(b),
{
    b == B_SP || b == B_HT || b == B_LF || b == B_CR
}

pub fn ident_start(b: u8) -> (r: bool)
    ensures
        r == is_ident_start(b),
{
    b == B_US || (B_LC_A <= b && b <= B_LC_Z) || (B_UC_A <= b && b <= B_UC_Z)
}

pub fn ident_cont(b: u8) -> (r: bool)
    ensures
        r == is_ident_cont(b),
{
    ident_start(b) || digit(b)
}

/// Advance past the decimal digits starting at `from`.
pub fn skip_digits(s: &[u8], from: usize) -> (r: usize)
    requires
        from <= s@.len(),
    ensures
        r == digits_end(s@, from as int),
        from <= r <= s@.len(),
        forall|k: int| from <= k < r ==> is_digit(#[trigger] s@[k]),
        r < s@.len() ==> !is_digit(s@[r as int]),
{
    let mut p = from;
    while p < s.len() && digit(s[p])
        invariant
            from <= p <= s@.len(),
            digits_end(s@, from as int) == digits_end(s@, p as int),
            forall|k: int| from <= k < p ==> is_digit(#[trigger] s@[k]),
        decreases s@.len() - p,
    {
        p = p + 1;
    }
    p
}

/// Advance past the octal digits starting at `from`.
pub fn skip_oct_digits(s: &[u8], from: usize) -> (r: usize)
    requires
        from <= s@.len(),
    ensures
        r == oct_digits_end(s@, from as int),
        from <= r <= s@.len(),
        forall|k: int| from <= k < r ==> is_oct_digit(#[trigger] s@[k]),
        r < s@.len() ==> !is_oct_digit(s@[r as int]),
{
    let mut p = from;
    while p < s.len() && oct_digit(s[p])
        invariant
            from <= p <= s@.len(),
            oct_digits_end(s@, from as int) == oct_digits_end(s@, p as int),
            forall|k: int| from <= k < p ==> is_oct_digit(#[trigger] s@[k]),
        decreases s@.len() - p,
    {
        p = p + 1;
    }
    p
}

/// Advance past the hexadecimal digits starting at `from`.
pub fn skip_hex_digits(s: &[u8], from: usize) -> (r: usize)
    requires
        from <= s@.len(),
    ensures
        r == hex_digits_end(s@, from as int),
        from <= r <= s@.len(),
        forall|k: int| from <= k < r ==> is_hex_digit(#[trigger] s@[k]),
        r < s@.len() ==> !is_hex_digit(s@[r as int]),
{
    let mut p = from;
    while p < s.len() && hex_digit(s[p])
        invariant
            from <= p <= s@.len(),
            hex_digits_end(s@, from as int) == hex_digits_end(s@, p as int),
            forall|k: int| from <= k < p ==> is_hex_digit(#[trigger] s@[k]),
        decreases s@.len() - p,
    {
        p = p + 1;
    }
    p
}

/// Advance past the whitespace starting at `from`.
pub fn skip_ws(s: &[u8], from: usize) -> (r: usize)
    requires
        from <= s@.len(),
    ensures
        r == ws_end(s@, from as int),
        from <= r <= s@.len(),
        forall|k: int| from <= k < r ==> is_ws(#[trigger] s@[k]),
        r < s@.len() ==> !is_ws(s@[r as int]),
{
    let mut p = from;
    while p < s.len() && ws(s[p])
        invariant
            from <= p <= s@.len(),
            ws_end(s@, from as int) == ws_end(s@, p as int),
            forall|k: int| from <= k < p ==> is_ws(#[trigger] s@[k]),
        decreases s@.len() - p,
    {
        p = p + 1;
    }
    p
}

/// Advance past the identifier-continuation bytes starting at `from`.
pub fn skip_ident_cont(s: &[u8], from: usize) -> (r: usize)
    requires
        from <= s@.len(),
    ensures
        r == ident_cont_end(s@, from as int),
        from <= r <= s@.len(),
        forall|k: int| from <= k < r ==> is_ident_cont(#[trigger] s@[k]),
        r < s@.len() ==> !is_ident_cont(s@[r as int]),
{
    let mut p = from;
    while p < s.len() && ident_cont(s[p])
        invariant
            from <= p <= s@.len(),
            ident_cont_end(s@, from as int) == ident_cont_end(s@, p as int),
            forall|k: int| from <= k < p ==> is_ident_cont(#[trigger] s@[k]),
        decreases s@.len() - p,
    {
        p = p + 1;
    }
    p
}


/// Advance past the non-quote bytes starting at `from`.
pub fn skip_nonquote(s: &[u8], from: usize) -> (r: usize)
    requires
        from <= s@.len(),
    ensures
        r == nonquote_end(s@, from as int),
        from <= r <= s@.len(),
        forall|k: int| from <= k < r ==> s@[k] != B_QUOTE,
        r < s@.len() ==> s@[r as int] == B_QUOTE,
{
    let mut p = from;
    while p < s.len() && s[p] != B_QUOTE
        invariant
            from <= p <= s@.len(),
            nonquote_end(s@, from as int) == nonquote_end(s@, p as int),
            forall|k: int| from <= k < p ==> s@[k] != B_QUOTE,
        decreases s@.len() - p,
    {
        p = p + 1;
    }
    p
}


/// A scan over bytes that are all digits runs to the end of the input.
pub proof fn lemma_digits_end_all(s: Seq<u8>, i: int)
    requires
        0 <= i <= s.len(),
        forall|j: int| i <= j < s.len() ==> is_digit(#[trigger] s[j]),
    ensures
        digits_end(s, i) == s.len(),
    decreases s.len() - i,
{
    if i < s.len() {
        lemma_digits_end_all(s, i + 1);
    }
}


/// Bound for [`oct_digits_end`].
pub proof fn lemma_oct_digits_end_bounds(s: Seq<u8>, i: int)
    requires
        0 <= i <= s.len(),
    ensures
        i <= oct_digits_end(s, i) <= s.len(),
    decreases s.len() - i,
{
    if i < s.len() && is_oct_digit(s[i]) {
        lemma_oct_digits_end_bounds(s, i + 1);
    }
}

/// Bound for [`hex_digits_end`].
pub proof fn lemma_hex_digits_end_bounds(s: Seq<u8>, i: int)
    requires
        0 <= i <= s.len(),
    ensures
        i <= hex_digits_end(s, i) <= s.len(),
    decreases s.len() - i,
{
    if i < s.len() && is_hex_digit(s[i]) {
        lemma_hex_digits_end_bounds(s, i + 1);
    }
}

/// Bound for [`nonquote_end`].
pub proof fn lemma_nonquote_end_bounds(s: Seq<u8>, i: int)
    requires
        0 <= i <= s.len(),
    ensures
        i <= nonquote_end(s, i) <= s.len(),
    decreases s.len() - i,
{
    if i < s.len() && s[i] != B_QUOTE {
        lemma_nonquote_end_bounds(s, i + 1);
    }
}


/// End of the run of `0` digits starting at `i`.
pub open spec fn zeros_end(s: Seq<u8>, i: int) -> int
    recommends
        0 <= i <= s.len(),
    decreases s.len() - i when 0 <= i <= s.len()
{
    if i >= s.len() || s[i] != B_D0 {
        i
    } else {
        zeros_end(s, i + 1)
    }
}

/// Advance past the `0` digits starting at `from`.
pub fn skip_zeros(s: &[u8], from: usize) -> (r: usize)
    requires
        from <= s@.len(),
    ensures
        r == zeros_end(s@, from as int),
        from <= r <= s@.len(),
        forall|k: int| from <= k < r ==> s@[k] == B_D0,
        r < s@.len() ==> s@[r as int] != B_D0,
{
    let mut p = from;
    while p < s.len() && s[p] == B_D0
        invariant
            from <= p <= s@.len(),
            zeros_end(s@, from as int) == zeros_end(s@, p as int),
            forall|k: int| from <= k < p ==> s@[k] == B_D0,
        decreases s@.len() - p,
    {
        p = p + 1;
    }
    p
}

} // verus!
