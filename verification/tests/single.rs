#![allow(non_snake_case)]

use soft_single::codec::{
    extract_exponent, extract_mantissa, extract_sign, pack_single, Single,
};
use soft_single::rounding::shift_and_round;
use soft_single::single::fpadd;

fn from_f32(float: f32) -> Single {
    float.to_bits()
}

#[test]
fn create_float_macro() {
    assert_eq!(from_f32(0.085f32), 0x3DAE147B);
}

#[test]
fn create_float() {
    assert_eq!(from_f32(0.085f32), 0x3DAE147B);
    assert_eq!(
        pack_single(
            extract_sign(from_f32(0.085f32)),
            extract_exponent(from_f32(0.085f32)),
            extract_mantissa(from_f32(0.085f32)),
        ),
        0x3DAE147B
    );
}

#[test]
fn is_positive_number_positive() {
    assert_eq!(extract_sign(0x3DAE147B), 0);
}

#[test]
fn is_negative_number_negative() {
    assert_eq!(extract_sign(0xBDAE147B), 1);
}

#[test]
fn is_exponent_neg_4() {
    assert_eq!(extract_exponent(0x3DAE147B), -4);
}

#[test]
fn is_mantissa_0xae147b() {
    assert_eq!(extract_mantissa(0x3DAE147B), 0xAE147Bu32);
}

#[test]
fn is_mantissa_rounded_up_case_1() {
    assert_eq!(shift_and_round(0x3DAE147B, 4), 0x3DAE148);
}

#[test]
fn is_mantissa_rounded_up_case_2() {
    assert_eq!(shift_and_round(0x3DAE1478, 4), 0x3DAE148);
}

#[test]
fn is_mantissa_truncated() {
    assert_eq!(shift_and_round(0x3DAE1473, 4), 0x3DAE147);
}

#[test]
fn is_packed_single_0x3DAE147B() {
    assert_eq!(pack_single(0, -4, 0xAE147B), 0x3DAE147B);
}

#[test]
fn is_result_of_addition_0x3F8AE148() {
    assert_eq!(fpadd(from_f32(1f32), from_f32(0.085f32)), 0x3F8AE148);
}

#[test]
fn is_result_of_addition_0xBFAE148() {
    assert_eq!(fpadd(from_f32(-1f32), from_f32(-0.085f32)), 0xBF8AE148);
}
