//! Addition and subtraction of single-precision patterns.
//!
//! An addition takes both operands apart, brings the mantissa of the operand
//! with the smaller exponent down to the larger exponent, adds or subtracts the
//! mantissas according to the signs, renormalizes, and packs the result.
//!
//! Operands are zeros and normal numbers. Subnormal numbers, infinities and NaN
//! are rejected: no function here accepts them. A result whose exponent leaves
//! the normal range is packed as it stands, see [`renormalized`].

use crate::codec::{
    decompose,
    decomposed,
    is_operand,
    lemma_decomposed_shape,
    pack_single,
    packed,
    Single,
    Triple,
    Unpacked,
};
use crate::rounding::{align_mantissa, lemma_round_shift_by_zero, round_shift, shift_and_round};
use vstd::prelude::*;

verus! {

/// The mantissa of `t` brought down to `exponent`, which is not below the
/// exponent of `t`.
pub open spec fn aligned(t: Triple, exponent: int) -> nat
    recommends
        t.exponent <= exponent,
{
    round_shift(t.mantissa, (exponent - t.exponent) as nat)
}

/// Two operands combined, before renormalization. The exponent is the larger
/// of the two, and both mantissas are aligned to it. With equal signs the
/// mantissas add up under the common sign. With opposite signs the smaller
/// mantissa is taken from the larger, under the sign of the larger; where the
/// mantissas are equal the difference is zero, under the sign of the right
/// operand.
pub open spec fn combined(l: Triple, r: Triple) -> Triple {
    let exponent = if l.exponent >= r.exponent {
        l.exponent
    } else {
        r.exponent
    };
    let l_mantissa = aligned(l, exponent);
    let r_mantissa = aligned(r, exponent);
    if l.sign != r.sign {
        if l_mantissa > r_mantissa {
            Triple { sign: l.sign, exponent, mantissa: (l_mantissa - r_mantissa) as nat }
        } else {
            Triple { sign: r.sign, exponent, mantissa: (r_mantissa - l_mantissa) as nat }
        }
    } else {
        Triple { sign: l.sign, exponent, mantissa: l_mantissa + r_mantissa }
    }
}

/// A mantissa below `2^23` doubled, with the exponent lowered by one each
/// time, until bit 23 is set or the exponent has come down to -127.
pub open spec fn raised(t: Triple) -> Triple
    decreases t.exponent + 127,
{
    if t.mantissa < 0x80_0000 && t.exponent > -127 {
        raised(Triple { sign: t.sign, exponent: t.exponent - 1, mantissa: 2 * t.mantissa })
    } else {
        t
    }
}

/// A combined triple brought back to a mantissa of 24 bits.
///
/// * A mantissa of `2^24` or more is halved, rounding to nearest with ties to
///   even, and the exponent goes up by one.
/// * A mantissa of zero gives the positive zero, whatever the signs were: the
///   sign is 0 and the exponent is -127, which packs to an exponent field of
///   zero. The negative zero never comes of it.
/// * A mantissa below `2^23` is doubled while the exponent stays above -127.
///   At -127 the doubling stops, and the triple is left as it is, with a
///   mantissa that may lack its leading bit.
/// * Any other triple is normalized already and stays.
pub open spec fn renormalized(t: Triple) -> Triple {
    if t.mantissa >= 0x100_0000 {
        Triple { sign: t.sign, exponent: t.exponent + 1, mantissa: round_shift(t.mantissa, 1) }
    } else if t.mantissa == 0 {
        Triple { sign: 0, exponent: -127, mantissa: 0 }
    } else {
        raised(t)
    }
}

/// The sum of two operands as a triple: the operands taken apart, combined
/// and renormalized.
pub open spec fn summed(x: Single, y: Single) -> Triple {
    renormalized(combined(decomposed(x), decomposed(y)))
}

/// The pattern of the sum of two operands.
pub open spec fn sum_of(x: Single, y: Single) -> int {
    packed(summed(x, y))
}

/// The pattern with the opposite sign.
pub open spec fn negated(single: Single) -> int {
    if single >= 0x8000_0000 {
        single - 0x8000_0000
    } else {
        single + 0x8000_0000
    }
}

/// Negating an operand gives an operand with the other sign and the same
/// exponent and mantissa.
pub proof fn lemma_negated_operand(single: Single)
    ensures
        0 <= negated(single) <= u32::MAX,
        is_operand(single) ==> is_operand(negated(single) as Single),
        decomposed(negated(single) as Single).sign == 1 - decomposed(single).sign,
        decomposed(negated(single) as Single).exponent == decomposed(single).exponent,
        decomposed(negated(single) as Single).mantissa == decomposed(single).mantissa,
{
}

/// Aligns two operands to the larger of their exponents and combines their
/// mantissas: a sum where the signs agree, a difference where they do not.
pub fn combine(l: Unpacked, r: Unpacked) -> (d: Unpacked)
    requires
        l@.bounded(),
        r@.bounded(),
    ensures
        d@ == combined(l@, r@),
        d.sign <= 1,
        -127 <= d.exponent <= 127,
        d.mantissa < 0x200_0000,
{
    let mut l_mantissa: u32 = l.mantissa;
    let mut r_mantissa: u32 = r.mantissa;
    let exponent: i32;
    proof {
        lemma_round_shift_by_zero(l.mantissa as nat);
        lemma_round_shift_by_zero(r.mantissa as nat);
    }
    if r.exponent > l.exponent {
        l_mantissa = align_mantissa(l.mantissa, (r.exponent - l.exponent) as u32);
        exponent = r.exponent;
    } else if l.exponent > r.exponent {
        r_mantissa = align_mantissa(r.mantissa, (l.exponent - r.exponent) as u32);
        exponent = l.exponent;
    } else {
        exponent = r.exponent;
    }
    if l.sign != r.sign {
        if l_mantissa > r_mantissa {
            Unpacked { sign: l.sign, exponent, mantissa: l_mantissa - r_mantissa }
        } else {
            Unpacked { sign: r.sign, exponent, mantissa: r_mantissa - l_mantissa }
        }
    } else {
        Unpacked { sign: l.sign, exponent, mantissa: r_mantissa + l_mantissa }
    }
}

/// Brings a combined triple back to a mantissa of 24 bits: halves a mantissa
/// that has carried into bit 24, doubles one that has lost its leading bit for
/// as long as the exponent allows, and turns a mantissa of zero into the
/// positive zero.
pub fn renormalize(t: Unpacked) -> (d: Unpacked)
    requires
        t.sign <= 1,
        -127 <= t.exponent <= 127,
        t.mantissa < 0x200_0000,
    ensures
        d@ == renormalized(t@),
        d.sign <= 1,
        -127 <= d.exponent <= 128,
{
    if t.mantissa >= 0x100_0000 {
        Unpacked {
            sign: t.sign,
            exponent: t.exponent + 1,
            mantissa: shift_and_round(t.mantissa, 1),
        }
    } else if t.mantissa != 0 {
        let mut mantissa: u32 = t.mantissa;
        let mut exponent: i32 = t.exponent;
        while mantissa < 0x80_0000 && exponent > -127
            invariant
                mantissa < 0x100_0000,
                -127 <= exponent <= 127,
                raised(
                    Triple {
                        sign: t.sign as nat,
                        exponent: exponent as int,
                        mantissa: mantissa as nat,
                    },
                ) == raised(t@),
            decreases exponent + 127,
        {
            assert(mantissa << 1 == 2 * mantissa) by (bit_vector)
                requires
                    mantissa < 0x80_0000,
            ;
            mantissa = mantissa << 1;
            exponent -= 1;
        }
        Unpacked { sign: t.sign, exponent, mantissa }
    } else {
        Unpacked { sign: 0, exponent: -127, mantissa: 0 }
    }
}

/// Adds two patterns.
///
/// Both must be operands: zeros or normal numbers. The sum is the pattern
/// that [`sum_of`] describes. A sum of exactly zero is the positive zero. A
/// sum whose exponent has gone up to 128 or down to -127 is packed as it is;
/// its pattern need not be an operand again.
pub fn fpadd(x: Single, y: Single) -> (sum: Single)
    requires
        is_operand(x),
        is_operand(y),
    ensures
        sum == sum_of(x, y),
{
    proof {
        lemma_decomposed_shape(x);
        lemma_decomposed_shape(y);
    }
    let d = renormalize(combine(decompose(x), decompose(y)));
    pack_single(d.sign, d.exponent, d.mantissa)
}

/// Gives the pattern with the opposite sign.
pub fn flip_sign(single: Single) -> (flipped: Single)
    ensures
        flipped == negated(single),
{
    assert(single ^ 0x8000_0000 == if single >= 0x8000_0000 {
        single - 0x8000_0000
    } else {
        single + 0x8000_0000
    }) by (bit_vector);
    single ^ 0x8000_0000
}

/// Subtracts the second pattern from the first: adds the first and the second
/// with its sign flipped.
pub fn fpsub(x: Single, y: Single) -> (difference: Single)
    requires
        is_operand(x),
        is_operand(y),
    ensures
        difference == sum_of(x, negated(y) as Single),
{
    proof {
        lemma_negated_operand(y);
    }
    fpadd(x, flip_sign(y))
}

} // verus!
