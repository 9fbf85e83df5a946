use vstd::prelude::*;
use rustc_apfloat::Float;

verus! {

/// The two IEEE-754 binary64 bit patterns that compare equal to zero:
/// positive zero and negative zero. No other pattern does, so testing a
/// divisor for zero is an exact integer test on its bits.
pub open spec fn is_zero_bits(b: u64) -> bool {
    b == 0u64 || b == 0x8000_0000_0000_0000u64
}

/// Exact test for a zero divisor, on the bit pattern of the value.
pub fn bits_are_zero(b: u64) -> (r: bool)
    ensures
        r == is_zero_bits(b),
{
    b == 0u64 || b == 0x8000_0000_0000_0000u64
}

/// The bit pattern of the IEEE-754 binary64 sum of the values with bit
/// patterns `a` and `b`, rounded to nearest, ties to even.
pub uninterp spec fn f64_add(a: u64, b: u64) -> u64;

/// The bit pattern of the IEEE-754 binary64 difference of the values with
/// bit patterns `a` and `b`, rounded to nearest, ties to even.
pub uninterp spec fn f64_sub(a: u64, b: u64) -> u64;

/// The bit pattern of the IEEE-754 binary64 product of the values with bit
/// patterns `a` and `b`, rounded to nearest, ties to even.
pub uninterp spec fn f64_mul(a: u64, b: u64) -> u64;

/// The bit pattern of the IEEE-754 binary64 quotient of the values with bit
/// patterns `a` and `b`, rounded to nearest, ties to even.
pub uninterp spec fn f64_div(a: u64, b: u64) -> u64;

/// Relies on rustc_apfloat::ieee::Double::add_r with NearestTiesToEven:
/// correctly rounded IEEE-754 binary64 addition on bit patterns, the same
/// result native double addition gives. It depends on its arguments alone.
#[verifier::external_body]
pub(crate) fn add_bits(a: u64, b: u64) -> (r: u64)
    ensures
        r == f64_add(a, b),
{
    let x = rustc_apfloat::ieee::Double::from_bits(a as u128);
    let y = rustc_apfloat::ieee::Double::from_bits(b as u128);
    x.add_r(y, rustc_apfloat::Round::NearestTiesToEven).value.to_bits() as u64
}

/// Relies on rustc_apfloat::ieee::Double::sub_r with NearestTiesToEven:
/// correctly rounded IEEE-754 binary64 subtraction on bit patterns, the same
/// result native double subtraction gives. It depends on its arguments alone.
#[verifier::external_body]
pub(crate) fn sub_bits(a: u64, b: u64) -> (r: u64)
    ensures
        r == f64_sub(a, b),
{
    let x = rustc_apfloat::ieee::Double::from_bits(a as u128);
    let y = rustc_apfloat::ieee::Double::from_bits(b as u128);
    x.sub_r(y, rustc_apfloat::Round::NearestTiesToEven).value.to_bits() as u64
}

/// Relies on rustc_apfloat::ieee::Double::mul_r with NearestTiesToEven:
/// correctly rounded IEEE-754 binary64 multiplication on bit patterns, the
/// same result native double multiplication gives. It depends on its
/// arguments alone.
#[verifier::external_body]
pub(crate) fn mul_bits(a: u64, b: u64) -> (r: u64)
    ensures
        r == f64_mul(a, b),
{
    let x = rustc_apfloat::ieee::Double::from_bits(a as u128);
    let y = rustc_apfloat::ieee::Double::from_bits(b as u128);
    x.mul_r(y, rustc_apfloat::Round::NearestTiesToEven).value.to_bits() as u64
}

/// Relies on rustc_apfloat::ieee::Double::div_r with NearestTiesToEven:
/// correctly rounded IEEE-754 binary64 division on bit patterns, the same
/// result native double division gives. It depends on its arguments alone.
#[verifier::external_body]
pub(crate) fn div_bits(a: u64, b: u64) -> (r: u64)
    ensures
        r == f64_div(a, b),
{
    let x = rustc_apfloat::ieee::Double::from_bits(a as u128);
    let y = rustc_apfloat::ieee::Double::from_bits(b as u128);
    x.div_r(y, rustc_apfloat::Round::NearestTiesToEven).value.to_bits() as u64
}

} // verus!
