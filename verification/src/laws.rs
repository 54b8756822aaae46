//! What holds of the codec and of the addition, for all patterns.

use crate::codec::{
    decomposed,
    is_normal,
    is_operand,
    lemma_decomposed_shape,
    packed,
    Single,
    Triple,
};
use crate::rounding::{
    lemma_round_shift_bound,
    lemma_round_shift_by_zero,
    lemma_round_shift_of_zero,
};
use crate::single::{combined, raised, renormalized, sum_of, summed};
use vstd::arithmetic::power2::{
    lemma2_to64,
    lemma_pow2_adds,
    lemma_pow2_pos,
    lemma_pow2_unfold,
    pow2,
};
use vstd::prelude::*;

verus! {

/// The size of the number that a triple stands for, counted in units of
/// `2^-150`: the mantissa, whose last bit is worth `2^(exponent - 23)`.
pub open spec fn magnitude(t: Triple) -> nat
    recommends
        t.exponent >= -127,
{
    t.mantissa * pow2((t.exponent + 127) as nat)
}

/// The number that a triple stands for, counted in units of `2^-150`.
pub open spec fn value(t: Triple) -> int
    recommends
        t.exponent >= -127,
{
    if t.sign == 1 {
        -(magnitude(t) as int)
    } else {
        magnitude(t) as int
    }
}

/// Packing what a pattern decomposes to gives the pattern back. This holds of
/// every pattern, and so of every normal one.
pub proof fn lemma_pack_decomposed(single: Single)
    ensures
        packed(decomposed(single)) == single,
{
}

/// Decomposing what a triple packs to gives the triple back, for a triple
/// with a sign bit, an exponent that fits the exponent field, and a
/// normalized mantissa. The one exception is the mantissa `2^23` under the
/// exponent -127, which packs to a zero.
pub proof fn lemma_decompose_packed(t: Triple)
    requires
        t.sign <= 1,
        -127 <= t.exponent <= 128,
        t.normalized(),
        t.exponent > -127 || t.mantissa > 0x80_0000,
    ensures
        0 <= packed(t) <= u32::MAX,
        decomposed(packed(t) as Single) == t,
{
}

/// Addition is commutative.
pub proof fn lemma_sum_commutes(x: Single, y: Single)
    ensures
        sum_of(x, y) == sum_of(y, x),
{
}

/// Adding the positive zero to a normal number gives that number, sign
/// included.
pub proof fn lemma_sum_with_zero(x: Single)
    requires
        is_normal(x),
    ensures
        sum_of(x, 0) == x,
{
    let l = decomposed(x);
    lemma_round_shift_by_zero(l.mantissa);
    lemma_round_shift_of_zero((l.exponent + 127) as nat);
}

/// Two normalized mantissas that stand for the same size under their
/// exponents are the same mantissa under the same exponent.
pub proof fn lemma_magnitude_injective(l: Triple, r: Triple)
    requires
        l.normalized(),
        r.normalized(),
        l.exponent >= -127,
        r.exponent >= -127,
        magnitude(l) == magnitude(r),
    ensures
        l.exponent == r.exponent,
        l.mantissa == r.mantissa,
{
    let le = (l.exponent + 127) as nat;
    let re = (r.exponent + 127) as nat;
    if le < re {
        lemma_scaled_mantissa_differs(r.mantissa, l.mantissa, le, re);
    } else if re < le {
        lemma_scaled_mantissa_differs(l.mantissa, r.mantissa, re, le);
    } else {
        lemma_pow2_pos(le);
        let p = pow2(le);
        assert(l.mantissa == r.mantissa) by (nonlinear_arith)
            requires
                l.mantissa * p == r.mantissa * p,
                p > 0,
        ;
    }
}

proof fn lemma_scaled_mantissa_differs(high: nat, low: nat, small: nat, large: nat)
    requires
        0x80_0000 <= high < 0x100_0000,
        0x80_0000 <= low < 0x100_0000,
        small < large,
    ensures
        high * pow2(large) != low * pow2(small),
{
    let gap = (large - small) as nat;
    lemma_pow2_adds(small, gap);
    lemma_pow2_pos(small);
    lemma_pow2_pos((gap - 1) as nat);
    lemma_pow2_unfold(gap);
    let p = pow2(small);
    let g = pow2(gap);
    assert(high * (p * g) >= (2 * high) * p) by (nonlinear_arith)
        requires
            g >= 2,
            p > 0,
            high > 0,
    ;
    assert((2 * high) * p > low * p) by (nonlinear_arith)
        requires
            2 * high > low,
            p > 0,
    ;
}

/// Where two operands stand for numbers whose sum is exactly zero, their sum
/// is the positive zero, never the negative one.
pub proof fn lemma_exact_zero_sum(x: Single, y: Single)
    requires
        is_operand(x),
        is_operand(y),
        value(decomposed(x)) + value(decomposed(y)) == 0,
    ensures
        sum_of(x, y) == 0,
{
    let l = decomposed(x);
    let r = decomposed(y);
    lemma_decomposed_shape(x);
    lemma_decomposed_shape(y);
    lemma_pow2_pos((l.exponent + 127) as nat);
    lemma_pow2_pos((r.exponent + 127) as nat);
    lemma_magnitude_positive(l);
    lemma_magnitude_positive(r);
    if l.mantissa == 0 || r.mantissa == 0 {
        assert(l.mantissa == 0 && r.mantissa == 0);
        lemma_round_shift_of_zero(0);
    } else {
        assert(l.sign != r.sign);
        lemma_magnitude_injective(l, r);
        lemma_round_shift_by_zero(l.mantissa);
    }
}

proof fn lemma_magnitude_positive(t: Triple)
    requires
        t.exponent >= -127,
    ensures
        t.mantissa == 0 ==> magnitude(t) == 0,
        t.mantissa > 0 ==> magnitude(t) > 0,
{
    let p = pow2((t.exponent + 127) as nat);
    lemma_pow2_pos((t.exponent + 127) as nat);
    assert(t.mantissa > 0 ==> t.mantissa * p > 0) by (nonlinear_arith)
        requires
            p > 0,
    ;
    assert(t.mantissa == 0 ==> t.mantissa * p == 0) by (nonlinear_arith);
}

/// Doubling a mantissa up to its leading bit keeps the sign and the number
/// that the triple stands for. It ends with the leading bit in place, or at
/// the exponent -127.
pub proof fn lemma_raised(t: Triple)
    requires
        0 < t.mantissa < 0x100_0000,
        -127 <= t.exponent,
    ensures
        raised(t).sign == t.sign,
        value(raised(t)) == value(t),
        -127 <= raised(t).exponent <= t.exponent,
        raised(t).normalized() || (raised(t).exponent == -127 && 0 < raised(t).mantissa
            < 0x80_0000),
    decreases t.exponent + 127,
{
    if t.mantissa < 0x80_0000 && t.exponent > -127 {
        let next = Triple { sign: t.sign, exponent: t.exponent - 1, mantissa: 2 * t.mantissa };
        lemma_raised(next);
        lemma_pow2_unfold((t.exponent + 127) as nat);
        let p = pow2((next.exponent + 127) as nat);
        assert((2 * t.mantissa) * p == t.mantissa * (2 * p)) by (nonlinear_arith);
    }
}

/// Where two operands share their exponent and differ in sign, nothing is
/// rounded: the renormalized triple stands for the exact sum of the numbers
/// that the operands stand for.
pub proof fn lemma_cancellation_is_exact(l: Triple, r: Triple)
    requires
        l.bounded(),
        r.bounded(),
        l.exponent == r.exponent,
        l.sign != r.sign,
    ensures
        value(renormalized(combined(l, r))) == value(l) + value(r),
{
    let c = combined(l, r);
    let p = pow2((l.exponent + 127) as nat);
    lemma_round_shift_by_zero(l.mantissa);
    lemma_round_shift_by_zero(r.mantissa);
    assert((l.mantissa - r.mantissa) * p == l.mantissa * p - r.mantissa * p)
        by (nonlinear_arith);
    assert((r.mantissa - l.mantissa) * p == r.mantissa * p - l.mantissa * p)
        by (nonlinear_arith);
    assert(value(c) == value(l) + value(r));
    if c.mantissa == 0 {
        assert(0 * pow2(0) == 0) by (nonlinear_arith);
    } else {
        lemma_raised(c);
    }
}

/// The sum of two operands fits a pattern. As a triple it has a mantissa of
/// at most 24 bits, which is zero, or normalized, or left short of its
/// leading bit under the exponent -127. A zero mantissa gives the positive
/// zero. A normalized mantissa under an exponent from -126 to 127 gives a
/// normal number, which decomposes to that triple.
pub proof fn lemma_sum_shape(x: Single, y: Single)
    requires
        is_operand(x),
        is_operand(y),
    ensures
        0 <= sum_of(x, y) <= u32::MAX,
        summed(x, y).sign <= 1,
        -127 <= summed(x, y).exponent <= 128,
        summed(x, y).mantissa < 0x100_0000,
        summed(x, y).mantissa == 0 || summed(x, y).normalized() || summed(x, y).exponent
            == -127,
        summed(x, y).mantissa == 0 ==> sum_of(x, y) == 0,
        summed(x, y).normalized() && -126 <= summed(x, y).exponent <= 127 ==> is_normal(
            sum_of(x, y) as Single,
        ) && decomposed(sum_of(x, y) as Single) == summed(x, y),
{
    let l = decomposed(x);
    let r = decomposed(y);
    let c = combined(l, r);
    lemma_decomposed_shape(x);
    lemma_decomposed_shape(y);
    lemma_round_shift_bound(l.mantissa, (c.exponent - l.exponent) as nat);
    lemma_round_shift_bound(r.mantissa, (c.exponent - r.exponent) as nat);
    lemma_round_shift_by_zero(l.mantissa);
    lemma_round_shift_by_zero(r.mantissa);
    if c.mantissa >= 0x100_0000 {
        lemma2_to64();
    } else if c.mantissa > 0 {
        lemma_raised(c);
    }
}

} // verus!
