//! Numeric value of literal digit runs, in bases 8, 10 and 16, together with
//! the canonical rendering of a value back into digits.
//!
//! A numeric literal whose value does not fit a signed 64-bit integer is a
//! parse failure, never a wrap-around: [`radix_value`] reports the overflow
//! instead of a truncated value.

use vstd::arithmetic::div_mod::{
    lemma_div_decreases, lemma_div_pos_is_pos, lemma_fundamental_div_mod, lemma_mod_bound,
};
use vstd::prelude::*;

use crate::scan::{is_digit, is_hex_digit, is_oct_digit, B_D0, B_LC_A, B_UC_A};

verus! {

/// Value of one digit byte, reading `a`..`f` and `A`..`F` as 10..15.
pub open spec fn hex_digit_val(b: u8) -> nat {
    if is_digit(b) {
        (b - B_D0) as nat
    } else if B_LC_A <= b && b <= B_LC_A + 5 {
        (b - B_LC_A + 10) as nat
    } else {
        (b - B_UC_A + 10) as nat
    }
}

/// Value of a run of digit bytes read most-significant first in `base`.
pub open spec fn base_val(s: Seq<u8>, base: nat) -> nat
    decreases s.len(),
{
    if s.len() == 0 {
        0
    } else {
        base_val(s.drop_last(), base) * base + hex_digit_val(s.last())
    }
}

/// The canonical digit byte of a value below 16 (lower case for 10..15).
pub open spec fn digit_byte(d: nat) -> u8 {
    if d < 10 {
        (B_D0 + d) as u8
    } else {
        (B_LC_A + (d - 10)) as u8
    }
}

/// The canonical (no leading zero) digits of `n` in `base`.
pub open spec fn base_repr(n: nat, base: nat) -> Seq<u8>
    recommends
        2 <= base <= 16,
    decreases n when 2 <= base
    via base_repr_decreases
{
    if n < base {
        seq![digit_byte(n)]
    } else {
        base_repr(n / base, base).push(digit_byte(n % base))
    }
}

#[via_fn]
proof fn base_repr_decreases(n: nat, base: nat) {
    broadcast use lemma_div_decreases, lemma_div_pos_is_pos;

}

/// Appending a digit multiplies the value and adds the digit.
pub proof fn lemma_base_val_push(s: Seq<u8>, b: u8, base: nat)
    ensures
        base_val(s.push(b), base) == base_val(s, base) * base + hex_digit_val(b),
{
    assert(s.push(b).drop_last() =~= s);
    assert(s.push(b).last() == b);
}

/// A longer digit run never has a smaller value.
pub proof fn lemma_base_val_mono(s: Seq<u8>, base: nat, from: int, i: int, j: int)
    requires
        0 <= from <= i <= j <= s.len(),
        base >= 1,
    ensures
        base_val(s.subrange(from, i), base) <= base_val(s.subrange(from, j), base),
    decreases j - i,
{
    if i < j {
        lemma_base_val_mono(s, base, from, i, j - 1);
        let t = s.subrange(from, j - 1);
        assert(s.subrange(from, j) =~= t.push(s[j - 1]));
        lemma_base_val_push(t, s[j - 1], base);
        assert(base_val(t, base) * base >= base_val(t, base)) by (nonlinear_arith)
            requires
                base >= 1,
        ;
    }
}

/// The canonical digits of `n` read back as the value `n`.
///
/// Together with the literal lexer's contract this is the integer round trip:
/// any in-range integer literal, rendered from its parsed value, parses back
/// to that same value, in each of the three bases.
pub proof fn lemma_base_repr_round_trip(n: nat, base: nat)
    requires
        2 <= base <= 16,
    ensures
        base_val(base_repr(n, base), base) == n,
    decreases n,
{
    if n < base {
        let s = base_repr(n, base);
        assert(s =~= seq![digit_byte(n)]);
        assert(s.drop_last() =~= Seq::<u8>::empty());
        assert(base_val(s, base) == base_val(Seq::<u8>::empty(), base) * base + hex_digit_val(
            digit_byte(n),
        ));
        assert(hex_digit_val(digit_byte(n)) == n);
        assert(base_val(Seq::<u8>::empty(), base) == 0);
        vstd::arithmetic::mul::lemma_mul_basics(base as int);
    } else {
        broadcast use lemma_div_decreases, lemma_div_pos_is_pos;

        lemma_base_repr_round_trip(n / base, base);
        lemma_base_val_push(base_repr(n / base, base), digit_byte(n % base), base);
        lemma_mod_bound(n as int, base as int);
        lemma_fundamental_div_mod(n as int, base as int);
        assert(hex_digit_val(digit_byte(n % base)) == n % base);
        assert(base_val(base_repr(n, base), base) == (n / base) * base + n % base);
        assert((n / base) * base + n % base == n);
    }
}

/// Every byte of the canonical digits is a digit of the base.
pub proof fn lemma_base_repr_digits(n: nat, base: nat)
    requires
        2 <= base <= 16,
    ensures
        forall|k: int|
            0 <= k < base_repr(n, base).len() ==> is_hex_digit(#[trigger] base_repr(n, base)[k])
                && hex_digit_val(base_repr(n, base)[k]) < base,
        base_repr(n, base).len() >= 1,
    decreases n,
{
    if n < base {
    } else {
        broadcast use lemma_div_decreases, lemma_div_pos_is_pos;

        lemma_base_repr_digits(n / base, base);
        lemma_mod_bound(n as int, base as int);
    }
}

/// Exec mirror of [`hex_digit_val`].
pub fn digit_value(b: u8) -> (r: u8)
    requires
        is_hex_digit(b),
    ensures
        r as nat == hex_digit_val(b),
        r < 16,
{
    if B_D0 <= b && b <= B_D0 + 9 {
        b - B_D0
    } else if B_LC_A <= b && b <= B_LC_A + 5 {
        b - B_LC_A + 10
    } else {
        b - B_UC_A + 10
    }
}

/// Exec mirror of [`digit_byte`].
pub fn to_digit_byte(d: u64) -> (r: u8)
    requires
        d < 16,
    ensures
        r == digit_byte(d as nat),
{
    if d < 10 {
        B_D0 + (d as u8)
    } else {
        B_LC_A + (d as u8 - 10)
    }
}

/// Value of the digit run `s[from..to]` in `base`, or `None` when the value
/// does not fit a signed 64-bit integer.
pub fn radix_value(s: &[u8], from: usize, to: usize, base: u64) -> (r: Option<i64>)
    requires
        from <= to <= s@.len(),
        base == 8 || base == 10 || base == 16,
        forall|k: int|
            from <= k < to ==> is_hex_digit(#[trigger] s@[k]) && hex_digit_val(s@[k])
                < base as nat,
    ensures
        base_val(s@.subrange(from as int, to as int), base as nat) <= i64::MAX ==> r == Some(
            base_val(s@.subrange(from as int, to as int), base as nat) as i64,
        ),
        base_val(s@.subrange(from as int, to as int), base as nat) > i64::MAX ==> r is None,
{
    let mut acc: i64 = 0;
    let mut p = from;
    proof {
        assert(s@.subrange(from as int, from as int) =~= Seq::<u8>::empty());
    }
    while p < to
        invariant
            from <= p <= to <= s@.len(),
            base == 8 || base == 10 || base == 16,
            forall|k: int|
                from <= k < to ==> is_hex_digit(#[trigger] s@[k]) && hex_digit_val(s@[k])
                    < base as nat,
            0 <= acc,
            acc as nat == base_val(s@.subrange(from as int, p as int), base as nat),
        decreases to - p,
    {
        let d = digit_value(s[p]);
        proof {
            assert((acc as int) * (base as int) <= (i64::MAX as int) * 16) by (nonlinear_arith)
                requires
                    0 <= acc as int <= i64::MAX as int,
                    0 < base as int <= 16,
            ;
        }
        let wide: u128 = (acc as u128) * (base as u128) + (d as u128);
        proof {
            let pre = s@.subrange(from as int, p as int);
            assert(s@.subrange(from as int, p as int + 1) =~= pre.push(s@[p as int]));
            lemma_base_val_push(pre, s@[p as int], base as nat);
        }
        if wide > i64::MAX as u128 {
            proof {
                lemma_base_val_mono(s@, base as nat, from as int, p as int + 1, to as int);
            }
            return None;
        }
        acc = wide as i64;
        p = p + 1;
    }
    Some(acc)
}

/// Canonical digits of `n` in `base`, most significant first.
pub fn render_radix(n: u64, base: u64) -> (r: Vec<u8>)
    requires
        2 <= base <= 16,
    ensures
        r@ == base_repr(n as nat, base as nat),
    decreases n,
{
    proof {
        broadcast use lemma_div_decreases, lemma_div_pos_is_pos;

    }
    if n < base {
        let mut v: Vec<u8> = Vec::new();
        v.push(to_digit_byte(n));
        proof {
            assert(v@ =~= base_repr(n as nat, base as nat));
        }
        v
    } else {
        proof {
            lemma_mod_bound(n as int, base as int);
        }
        let mut v = render_radix(n / base, base);
        v.push(to_digit_byte(n % base));
        proof {
            assert(v@ =~= base_repr(n as nat, base as nat));
        }
        v
    }
}


/// The canonical digits of a nonzero value have no leading zero.
pub proof fn lemma_base_repr_first(n: nat, base: nat)
    requires
        1 <= n,
        2 <= base <= 16,
    ensures
        base_repr(n, base).len() >= 1,
        base_repr(n, base)[0] != B_D0,
    decreases n,
{
    if n < base {
    } else {
        broadcast use lemma_div_decreases, lemma_div_pos_is_pos;

        assert(n / base >= 1) by (nonlinear_arith)
            requires
                n >= base >= 2,
        ;
        lemma_base_repr_digits(n / base, base);
        lemma_base_repr_first(n / base, base);
    }
}

} // verus!
