//! IEEE 754 binary64 values handled as their bit patterns.
//!
//! Every double in this crate is carried as a `u64` holding its IEEE 754
//! encoding. The field accessors and the renormalization logic are ordinary
//! verified bit manipulation; only the four rounding arithmetic operations
//! go through the software float library, each under a trusted contract.

use vstd::prelude::*;
use rustc_apfloat::Float;

verus! {

pub const SIGN_MASK: u64 = 0x8000_0000_0000_0000;
pub const EXP_MASK: u64 = 0x7FF0_0000_0000_0000;
pub const FRAC_MASK: u64 = 0x000F_FFFF_FFFF_FFFF;

/// Biased exponent field of a double's bit pattern.
pub open spec fn expf(b: u64) -> u64 {
    (b >> 52) & 0x7ff
}

/// Fraction field of a double's bit pattern.
pub open spec fn frac(b: u64) -> u64 {
    b & FRAC_MASK
}

/// Sign bit of a double's bit pattern.
pub open spec fn sgn(b: u64) -> u64 {
    b >> 63
}

pub open spec fn is_zero_bits(b: u64) -> bool {
    expf(b) == 0 && frac(b) == 0
}

pub open spec fn is_subnormal_bits(b: u64) -> bool {
    expf(b) == 0 && frac(b) != 0
}

pub open spec fn is_normal_bits(b: u64) -> bool {
    1 <= expf(b) && expf(b) <= 0x7fe
}

pub open spec fn is_finite_bits(b: u64) -> bool {
    expf(b) != 0x7ff
}

/// Signed integer mantissa of a finite double: the value of the bits is
/// `val_num(b) * 2^val_scale(b)`.
pub open spec fn val_num(b: u64) -> int {
    let mag: int = if expf(b) == 0 {
        frac(b) as int
    } else {
        0x10_0000_0000_0000int + frac(b)
    };
    if sgn(b) == 1 {
        -mag
    } else {
        mag
    }
}

/// Binary scale of a finite double, paired with `val_num`.
pub open spec fn val_scale(b: u64) -> int {
    if expf(b) == 0 {
        -1074int
    } else {
        expf(b) - 1075
    }
}

/// The IEEE 754 binary64 sum of the doubles with the given bit patterns,
/// rounded to nearest, ties to even; a deterministic function of the bits.
pub uninterp spec fn f64_add_bits(a: u64, b: u64) -> u64;

/// The IEEE 754 binary64 product, rounded to nearest, ties to even.
pub uninterp spec fn f64_mul_bits(a: u64, b: u64) -> u64;

/// The IEEE 754 binary64 quotient, rounded to nearest, ties to even.
pub uninterp spec fn f64_div_bits(a: u64, b: u64) -> u64;

/// The IEEE 754 `<` comparison of the doubles with the given bit patterns
/// (false whenever either is NaN).
pub uninterp spec fn f64_lt_bits(a: u64, b: u64) -> bool;

/// Relies on rustc_apfloat::ieee::Double addition: software IEEE 754
/// binary64 addition on bit patterns, round to nearest, ties to even.
#[verifier::external_body]
pub fn f64_add(a: u64, b: u64) -> (r: u64)
    ensures
        r == f64_add_bits(a, b),
{
    let x = rustc_apfloat::ieee::Double::from_bits(a as u128);
    let y = rustc_apfloat::ieee::Double::from_bits(b as u128);
    (x + y).value.to_bits() as u64
}

/// Relies on rustc_apfloat::ieee::Double multiplication: software IEEE 754
/// binary64 multiplication on bit patterns, round to nearest, ties to even.
#[verifier::external_body]
pub fn f64_mul(a: u64, b: u64) -> (r: u64)
    ensures
        r == f64_mul_bits(a, b),
{
    let x = rustc_apfloat::ieee::Double::from_bits(a as u128);
    let y = rustc_apfloat::ieee::Double::from_bits(b as u128);
    (x * y).value.to_bits() as u64
}

/// Relies on rustc_apfloat::ieee::Double division: software IEEE 754
/// binary64 division on bit patterns, round to nearest, ties to even.
#[verifier::external_body]
pub fn f64_div(a: u64, b: u64) -> (r: u64)
    ensures
        r == f64_div_bits(a, b),
{
    let x = rustc_apfloat::ieee::Double::from_bits(a as u128);
    let y = rustc_apfloat::ieee::Double::from_bits(b as u128);
    (x / y).value.to_bits() as u64
}

/// Relies on rustc_apfloat::ieee::Double's PartialOrd: the IEEE 754 ordering
/// of the two doubles, with NaN unordered.
#[verifier::external_body]
pub fn f64_lt(a: u64, b: u64) -> (r: bool)
    ensures
        r == f64_lt_bits(a, b),
{
    let x = rustc_apfloat::ieee::Double::from_bits(a as u128);
    let y = rustc_apfloat::ieee::Double::from_bits(b as u128);
    x < y
}

/// Negation of a double is an exact sign-bit flip.
pub fn f64_neg(b: u64) -> (r: u64)
    ensures
        r == (b ^ SIGN_MASK),
        expf(r) == expf(b),
        frac(r) == frac(b),
        is_finite_bits(b) ==> val_num(r) == -val_num(b) && val_scale(r) == val_scale(b),
{
    proof {
        assert(expf(b ^ SIGN_MASK) == expf(b) && frac(b ^ SIGN_MASK) == frac(b)
            && sgn(b ^ SIGN_MASK) == (if sgn(b) == 1 { 0u64 } else { 1u64 })) by (bit_vector);
        assert(frac(b) < 0x10_0000_0000_0000) by (bit_vector);
    }
    b ^ SIGN_MASK
}

} // verus!
