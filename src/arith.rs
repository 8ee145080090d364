//! The arithmetic unit that a neuron routes its computations through.
//!
//! Values travel as IEEE-754 binary64 bit patterns. The arithmetic itself is
//! binary64 arithmetic, supplied by the application through [`FloatUnit`]; the
//! sign test that decides whether a neuron fires is done here, on the pattern.
use vstd::prelude::*;

verus! {

/// The pattern of +0.0.
pub const ZERO_BITS: u64 = 0;

/// The pattern of -0.0.
pub const NEG_ZERO_BITS: u64 = 0x8000_0000_0000_0000;

/// The exponent field of a binary64 pattern.
pub const EXPONENT_MASK: u64 = 0x7ff0_0000_0000_0000;

/// The fraction field of a binary64 pattern.
pub const FRACTION_MASK: u64 = 0x000f_ffff_ffff_ffff;

/// Binary64 arithmetic on bit patterns.
///
/// Each method takes and returns the bit patterns of binary64 values and
/// computes as the IEEE-754 operation of the same name rounds it. The one
/// thing the library assumes of an implementation is that it is a function:
/// each answer depends on the arguments alone. The `_spec` functions name
/// those answers, so that contracts can say which operation produced each
/// value and from which operands. An implementation written in plain Rust
/// defines each `_spec` method as the very computation it names.
pub trait FloatUnit {
    /// The answer of `add`.
    spec fn add_spec(&self, a: u64, b: u64) -> u64;

    /// The answer of `sub`.
    spec fn sub_spec(&self, a: u64, b: u64) -> u64;

    /// The answer of `mul`.
    spec fn mul_spec(&self, a: u64, b: u64) -> u64;

    /// The answer of `div`.
    spec fn div_spec(&self, a: u64, b: u64) -> u64;

    /// The answer of `exp`.
    spec fn exp_spec(&self, a: u64) -> u64;

    /// The answer of `from_count`.
    spec fn from_count_spec(&self, n: usize) -> u64;

    /// `a + b`.
    fn add(&self, a: u64, b: u64) -> (r: u64)
        ensures
            r == self.add_spec(a, b),
    ;

    /// `a - b`.
    fn sub(&self, a: u64, b: u64) -> (r: u64)
        ensures
            r == self.sub_spec(a, b),
    ;

    /// `a * b`.
    fn mul(&self, a: u64, b: u64) -> (r: u64)
        ensures
            r == self.mul_spec(a, b),
    ;

    /// `a / b`.
    fn div(&self, a: u64, b: u64) -> (r: u64)
        ensures
            r == self.div_spec(a, b),
    ;

    /// `e` raised to `a`.
    fn exp(&self, a: u64) -> (r: u64)
        ensures
            r == self.exp_spec(a),
    ;

    /// The binary64 value nearest to `n`.
    fn from_count(&self, n: usize) -> (r: u64)
        ensures
            r == self.from_count_spec(n),
    ;
}

/// The pattern encodes a NaN.
pub open spec fn is_nan_bits(x: u64) -> bool {
    x & EXPONENT_MASK == EXPONENT_MASK && x & FRACTION_MASK != 0
}

/// The value that the pattern encodes compares `>= 0.0`: either zero, or a
/// positive number (infinity included), but no NaN.
pub open spec fn at_least_zero(x: u64) -> bool {
    x == NEG_ZERO_BITS || (x >> 63u64 == 0 && !is_nan_bits(x))
}

/// Whether the value encoded by `x` compares `>= 0.0`.
pub fn is_at_least_zero(x: u64) -> (r: bool)
    ensures
        r == at_least_zero(x),
{
    x == NEG_ZERO_BITS || (x >> 63u64 == 0 && !(x & EXPONENT_MASK == EXPONENT_MASK && x
        & FRACTION_MASK != 0))
}

} // verus!
