//! Single-precision floating-point addition and subtraction carried out on
//! 32-bit patterns with integer arithmetic alone.
//!
//! * [`codec`] reads a pattern as a sign, an exponent and a mantissa, and packs
//!   such a triple again.
//! * [`rounding`] shifts a mantissa to the right, rounding to nearest with ties
//!   to even.
//! * [`single`] aligns, combines and renormalizes two operands.
//! * [`laws`] holds the algebraic facts proved of the operations.

pub mod codec;
pub mod rounding;
pub mod single;
pub mod laws;
