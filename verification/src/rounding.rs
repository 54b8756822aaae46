//! The rounding shifter: a right shift that rounds to nearest, ties to even.

use vstd::arithmetic::div_mod::{
    lemma_fundamental_div_mod,
    lemma_fundamental_div_mod_converse,
    lemma_mod_bound,
    lemma_small_mod,
    lemma_basic_div,
};
use vstd::arithmetic::power2::{
    lemma2_to64,
    lemma_pow2_pos,
    lemma_pow2_strictly_increases,
    lemma_pow2_unfold,
    pow2,
};
use vstd::bits::{
    lemma_u32_low_bits_mask_is_mod,
    lemma_u32_pow2_no_overflow,
    lemma_u32_shl_is_mul,
    lemma_u32_shr_is_div,
    low_bits_mask,
};
use vstd::prelude::*;

verus! {

/// `mantissa / 2^n`, rounded to the nearest integer; where the discarded part
/// is exactly one half, to the even neighbour.
pub open spec fn round_shift(mantissa: nat, n: nat) -> nat {
    let kept = mantissa / pow2(n);
    let discarded = mantissa % pow2(n);
    if 2 * discarded > pow2(n) {
        kept + 1
    } else if 2 * discarded == pow2(n) {
        kept + kept % 2
    } else {
        kept
    }
}

/// A shift by no bits changes nothing.
pub proof fn lemma_round_shift_by_zero(mantissa: nat)
    ensures
        round_shift(mantissa, 0) == mantissa,
{
    lemma2_to64();
}

/// Zero stays zero under every shift.
pub proof fn lemma_round_shift_of_zero(n: nat)
    ensures
        round_shift(0, n) == 0,
{
    lemma_pow2_pos(n);
    lemma_small_mod(0, pow2(n));
    lemma_basic_div(0, pow2(n) as int);
}

/// A mantissa exactly halfway between two neighbours goes to the even one:
/// down where the bits kept are even, up where they are odd.
pub proof fn lemma_round_shift_halfway(kept: nat, n: nat)
    requires
        n >= 1,
    ensures
        round_shift(kept * pow2(n) + pow2((n - 1) as nat), n) == kept + kept % 2,
{
    let p = pow2(n);
    let half = pow2((n - 1) as nat);
    lemma_pow2_unfold(n);
    lemma_pow2_pos((n - 1) as nat);
    assert(kept * p == p * kept) by (nonlinear_arith);
    lemma_fundamental_div_mod_converse(
        (kept * p + half) as int,
        p as int,
        kept as int,
        half as int,
    );
}

/// How far apart two integers are.
pub open spec fn distance(a: nat, b: nat) -> int {
    if a >= b {
        a - b
    } else {
        b - a
    }
}

/// The rounded shift, scaled back by `2^n`, lies no further than half a step
/// of `2^n` from the mantissa; where it lies exactly half a step away, it is
/// even.
pub proof fn lemma_round_shift_ties_to_even(mantissa: nat, n: nat)
    ensures
        2 * distance(round_shift(mantissa, n) * pow2(n), mantissa) <= pow2(n),
        2 * distance(round_shift(mantissa, n) * pow2(n), mantissa) == pow2(n)
            ==> round_shift(mantissa, n) % 2 == 0,
{
    let p = pow2(n);
    let kept = mantissa / p;
    lemma_pow2_pos(n);
    lemma_fundamental_div_mod(mantissa as int, p as int);
    lemma_mod_bound(mantissa as int, p as int);
    assert((kept + 1) * p == p * kept + p) by (nonlinear_arith);
    assert(kept * p == p * kept) by (nonlinear_arith);
}

/// No multiple of `2^n` is nearer to the mantissa than the rounded shift
/// scaled back by `2^n`.
pub proof fn lemma_round_shift_is_nearest(mantissa: nat, n: nat, other: nat)
    ensures
        distance(round_shift(mantissa, n) * pow2(n), mantissa) <= distance(
            other * pow2(n),
            mantissa,
        ),
{
    let p = pow2(n);
    let kept = mantissa / p;
    lemma_pow2_pos(n);
    lemma_fundamental_div_mod(mantissa as int, p as int);
    lemma_mod_bound(mantissa as int, p as int);
    assert((kept + 1) * p == p * kept + p) by (nonlinear_arith);
    assert(kept * p == p * kept) by (nonlinear_arith);
    if other <= kept {
        assert(other * p <= kept * p) by (nonlinear_arith)
            requires
                other <= kept,
                p > 0,
        ;
    } else {
        assert(other * p >= (kept + 1) * p) by (nonlinear_arith)
            requires
                other >= kept + 1,
                p > 0,
        ;
    }
}

/// A mantissa below `2^24` stays below `2^24` under a rounded shift, and
/// comes to `2^23` at most once it is shifted by a bit or more.
pub proof fn lemma_round_shift_bound(mantissa: nat, n: nat)
    requires
        mantissa < 0x100_0000,
    ensures
        round_shift(mantissa, n) < 0x100_0000,
        n >= 1 ==> round_shift(mantissa, n) <= 0x80_0000,
{
    let p = pow2(n);
    lemma_pow2_pos(n);
    lemma_fundamental_div_mod(mantissa as int, p as int);
    lemma_mod_bound(mantissa as int, p as int);
    lemma2_to64();
    if n >= 1 {
        if n > 1 {
            lemma_pow2_strictly_increases(1, n);
        }
        let kept = mantissa / p;
        assert(kept * 2 <= mantissa) by (nonlinear_arith)
            requires
                mantissa >= p * kept,
                p >= 2,
                kept >= 0,
        ;
    }
}

/// Shifts a mantissa to the right by `n` bits and rounds the result to
/// nearest, ties to even: up if the bits shifted out are more than half of the
/// last place kept, to the even neighbour if they are exactly half, down
/// otherwise. A shift by no bits returns the mantissa as it is.
pub fn shift_and_round(mantissa: u32, n: usize) -> (rounded: u32)
    requires
        n <= 23,
    ensures
        rounded == round_shift(mantissa as nat, n as nat),
{
    if n == 0 {
        proof {
            lemma_round_shift_by_zero(mantissa as nat);
        }
        return mantissa;
    }
    let bits: u32 = n as u32;
    proof {
        lemma_u32_pow2_no_overflow(bits as nat);
        lemma_u32_pow2_no_overflow((bits - 1) as nat);
        lemma_pow2_unfold(bits as nat);
        lemma_u32_shl_is_mul(1, bits);
        lemma_u32_shl_is_mul(1, (bits - 1) as u32);
        lemma_u32_shr_is_div(mantissa, bits);
        lemma_u32_low_bits_mask_is_mod(mantissa, bits as nat);
    }
    let mask: u32 = (1u32 << bits) - 1;
    let halfway: u32 = 1u32 << (bits - 1);
    assert(mask == low_bits_mask(bits as nat));
    let shifted: u32 = mantissa & mask;
    let val: u32 = mantissa >> bits;
    assert(val <= 0x7FFF_FFFF) by (bit_vector)
        requires
            val == mantissa >> bits,
            1 <= bits <= 23,
    ;
    assert(val & 1 == val % 2) by (bit_vector);
    if shifted > halfway {
        val + 1
    } else if shifted == halfway {
        val + (val & 1)
    } else {
        val
    }
}

/// Brings a mantissa of at most 24 bits down by `distance` binary places,
/// rounding to nearest, ties to even. Unlike [`shift_and_round`] it takes
/// every distance: beyond 24 places nothing of the mantissa is left.
pub fn align_mantissa(mantissa: u32, distance: u32) -> (aligned: u32)
    requires
        mantissa < 0x100_0000,
    ensures
        aligned == round_shift(mantissa as nat, distance as nat),
        aligned < 0x100_0000,
        distance >= 1 ==> aligned <= 0x80_0000,
{
    if distance <= 23 {
        let aligned = shift_and_round(mantissa, distance as usize);
        proof {
            lemma_round_shift_bound(mantissa as nat, distance as nat);
        }
        aligned
    } else {
        proof {
            lemma2_to64();
            if distance > 25 {
                lemma_pow2_strictly_increases(25, distance as nat);
            }
            lemma_small_mod(mantissa as nat, pow2(distance as nat));
            lemma_basic_div(mantissa as int, pow2(distance as nat) as int);
        }
        if distance == 24 && mantissa > 0x80_0000 {
            1
        } else {
            0
        }
    }
}

} // verus!
