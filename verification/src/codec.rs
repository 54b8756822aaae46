//! The bit codec: a 32-bit pattern seen as sign, exponent and mantissa.
//!
//! Bit 31 of a pattern is the sign, bits 30 to 23 hold the exponent with a bias
//! of 127, bits 22 to 0 hold the fraction. The mantissa is the fraction with the
//! hidden leading one written out as bit 23.

use vstd::prelude::*;

verus! {

/// A single-precision value in its 32-bit encoding.
pub type Single = u32;

/// A pattern taken apart, in unbounded integers: the model of [`Unpacked`].
pub struct Triple {
    /// 0 for a positive value, 1 for a negative one.
    pub sign: nat,
    /// The exponent without its bias.
    pub exponent: int,
    /// The mantissa, hidden bit included.
    pub mantissa: nat,
}

impl Triple {
    /// The fields lie in the ranges that an operand of an addition has: a sign
    /// bit, an exponent that eight bits can hold below the top code, and a
    /// mantissa of at most 24 bits.
    pub open spec fn bounded(self) -> bool {
        &&& self.sign <= 1
        &&& -127 <= self.exponent <= 127
        &&& self.mantissa < 0x100_0000
    }

    /// The mantissa carries its leading one in bit 23.
    pub open spec fn normalized(self) -> bool {
        0x80_0000 <= self.mantissa < 0x100_0000
    }
}

/// A pattern taken apart, in machine integers.
#[derive(Clone, Copy, Debug)]
pub struct Unpacked {
    /// 0 for a positive value, 1 for a negative one.
    pub sign: u32,
    /// The exponent without its bias.
    pub exponent: i32,
    /// The mantissa, hidden bit included.
    pub mantissa: u32,
}

impl View for Unpacked {
    type V = Triple;

    open spec fn view(&self) -> Triple {
        Triple {
            sign: self.sign as nat,
            exponent: self.exponent as int,
            mantissa: self.mantissa as nat,
        }
    }
}

/// The sign bit of a pattern.
pub open spec fn sign_of(single: Single) -> nat {
    (single / 0x8000_0000) as nat
}

/// The exponent field of a pattern, bias included.
pub open spec fn biased_exponent_of(single: Single) -> nat {
    (single / 0x80_0000 % 0x100) as nat
}

/// The fraction field of a pattern.
pub open spec fn fraction_of(single: Single) -> nat {
    (single % 0x80_0000) as nat
}

/// The pattern is one of the two zeros: all bits below the sign are clear.
pub open spec fn is_zero(single: Single) -> bool {
    single % 0x8000_0000 == 0
}

/// The pattern is a normal number: its exponent field is neither all zeros
/// (zero and the subnormal numbers) nor all ones (the infinities and NaN).
pub open spec fn is_normal(single: Single) -> bool {
    1 <= biased_exponent_of(single) <= 254
}

/// The patterns that the arithmetic accepts as operands: the zeros and the
/// normal numbers. Subnormal numbers, infinities and NaN are rejected.
pub open spec fn is_operand(single: Single) -> bool {
    is_zero(single) || is_normal(single)
}

/// The exponent of a pattern, without the bias.
pub open spec fn exponent_of(single: Single) -> int {
    biased_exponent_of(single) - 127
}

/// The mantissa of a pattern: zero for a zero, otherwise the fraction with the
/// hidden bit set.
pub open spec fn mantissa_of(single: Single) -> nat {
    if is_zero(single) {
        0
    } else {
        fraction_of(single) + 0x80_0000
    }
}

/// A pattern taken apart.
pub open spec fn decomposed(single: Single) -> Triple {
    Triple {
        sign: sign_of(single),
        exponent: exponent_of(single),
        mantissa: mantissa_of(single),
    }
}

/// The pattern that a triple packs to: the sign in bit 31, the exponent with
/// its bias in the eight bits below, and the low 23 bits of the mantissa. The
/// hidden bit is dropped.
pub open spec fn packed(t: Triple) -> int {
    t.sign * 0x8000_0000 + (t.exponent + 127) * 0x80_0000 + t.mantissa % 0x80_0000
}

/// What a pattern decomposes to: a sign bit, an exponent from -127 to 128,
/// and a mantissa that is zero for a zero and normalized otherwise. The
/// exponent of an operand stays below 128.
pub proof fn lemma_decomposed_shape(single: Single)
    ensures
        decomposed(single).sign <= 1,
        -127 <= decomposed(single).exponent <= 128,
        is_zero(single) <==> decomposed(single).mantissa == 0,
        !is_zero(single) ==> decomposed(single).normalized(),
        is_operand(single) ==> decomposed(single).bounded(),
{
}

/// Reads the sign of a pattern: 1 if it is negative, else 0.
pub fn extract_sign(single: Single) -> (sign: u32)
    ensures
        sign == sign_of(single),
{
    assert((single & 0x8000_0000 != 0) <==> single / 0x8000_0000 == 1) by (bit_vector);
    assert((single & 0x8000_0000 == 0) <==> single / 0x8000_0000 == 0) by (bit_vector);
    if single & 0x8000_0000 != 0 {
        1
    } else {
        0
    }
}

/// Reads the exponent of a pattern and takes the bias off.
pub fn extract_exponent(single: Single) -> (exponent: i32)
    ensures
        exponent == exponent_of(single),
{
    let biased: u32 = (single >> 23) & 0xFF;
    assert(biased == single / 0x80_0000 % 0x100) by (bit_vector)
        requires
            biased == (single >> 23) & 0xFF,
    ;
    biased as i32 - 127
}

/// Reads the mantissa of a pattern, hidden bit included; 0 for a zero.
pub fn extract_mantissa(single: Single) -> (mantissa: u32)
    ensures
        mantissa == mantissa_of(single),
{
    assert((single & 0x7FFF_FFFF == 0) <==> single % 0x8000_0000 == 0) by (bit_vector);
    assert((single & 0x7F_FFFF | 0x80_0000) == single % 0x80_0000 + 0x80_0000) by (bit_vector);
    if single & 0x7FFF_FFFF == 0 {
        0
    } else {
        single & 0x7F_FFFF | 0x80_0000
    }
}

/// Packs a sign, an exponent and a mantissa into a pattern. The mantissa's
/// bits from 23 upwards are dropped: nothing is renormalized here.
pub fn pack_single(sign: u32, exponent: i32, mantissa: u32) -> (single: Single)
    requires
        sign <= 1,
        -127 <= exponent <= 128,
    ensures
        single == packed(
            Triple { sign: sign as nat, exponent: exponent as int, mantissa: mantissa as nat },
        ),
{
    let biased: u32 = (exponent + 127) as u32;
    assert(((sign << 31) | (biased << 23) | (mantissa & 0x7F_FFFF)) == sign * 0x8000_0000 + biased
        * 0x80_0000 + mantissa % 0x80_0000) by (bit_vector)
        requires
            sign <= 1,
            biased <= 255,
    ;
    (sign << 31) | (biased << 23) | (mantissa & 0x7F_FFFF)
}

/// Takes a pattern apart into sign, exponent and mantissa.
pub fn decompose(single: Single) -> (t: Unpacked)
    ensures
        t@ == decomposed(single),
{
    Unpacked {
        sign: extract_sign(single),
        exponent: extract_exponent(single),
        mantissa: extract_mantissa(single),
    }
}

/// Tells whether a pattern is an operand: a zero or a normal number.
pub fn is_supported(single: Single) -> (supported: bool)
    ensures
        supported == is_operand(single),
{
    let exponent = extract_exponent(single);
    extract_mantissa(single) == 0 || (-126 <= exponent && exponent <= 127)
}

} // verus!
