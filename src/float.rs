//! Single-precision arithmetic on bit patterns.
//!
//! A float is handled as the bit pattern of an IEEE-754 binary32 number. The
//! arithmetic is done by `rustc_apfloat`, a software implementation of IEEE
//! arithmetic, rounding to nearest with ties to even as hardware `f32` does.
use vstd::prelude::*;
use rustc_apfloat::ieee::Single;
use rustc_apfloat::{Float, Round};

verus! {

/// The rounded sum of two floats.
pub uninterp spec fn float_sum(a: u32, b: u32) -> u32;

/// The rounded difference `a - b` of two floats.
pub uninterp spec fn float_difference(a: u32, b: u32) -> u32;

/// The rounded product of two floats.
pub uninterp spec fn float_product(a: u32, b: u32) -> u32;

/// The rounded quotient `a / b` of two floats.
pub uninterp spec fn float_quotient(a: u32, b: u32) -> u32;

/// The float nearest to an integer.
pub uninterp spec fn float_of_int(n: i32) -> u32;

/// The decimal rendering of a float.
pub uninterp spec fn float_text(b: u32) -> Seq<char>;

/// Positive or negative zero.
pub open spec fn float_is_zero(b: u32) -> bool {
    b == 0 || b == 0x8000_0000
}

/// Tests for positive or negative zero.
pub fn is_zero_float(b: u32) -> (r: bool)
    ensures
        r == float_is_zero(b),
{
    b == 0 || b == 0x8000_0000
}

/// Relies on rustc_apfloat's `Float::add_r` for `ieee::Single`.
#[verifier::external_body]
pub(crate) fn float_add(a: u32, b: u32) -> (r: u32)
    ensures
        r == float_sum(a, b),
{
    let x = Single::from_bits(a as u128);
    let y = Single::from_bits(b as u128);
    x.add_r(y, Round::NearestTiesToEven).value.to_bits() as u32
}

/// Relies on rustc_apfloat's `Float::sub_r` for `ieee::Single`.
#[verifier::external_body]
pub(crate) fn float_sub(a: u32, b: u32) -> (r: u32)
    ensures
        r == float_difference(a, b),
{
    let x = Single::from_bits(a as u128);
    let y = Single::from_bits(b as u128);
    x.sub_r(y, Round::NearestTiesToEven).value.to_bits() as u32
}

/// Relies on rustc_apfloat's `Float::mul_r` for `ieee::Single`.
#[verifier::external_body]
pub(crate) fn float_mul(a: u32, b: u32) -> (r: u32)
    ensures
        r == float_product(a, b),
{
    let x = Single::from_bits(a as u128);
    let y = Single::from_bits(b as u128);
    x.mul_r(y, Round::NearestTiesToEven).value.to_bits() as u32
}

/// Relies on rustc_apfloat's `Float::div_r` for `ieee::Single`.
#[verifier::external_body]
pub(crate) fn float_div(a: u32, b: u32) -> (r: u32)
    ensures
        r == float_quotient(a, b),
{
    let x = Single::from_bits(a as u128);
    let y = Single::from_bits(b as u128);
    x.div_r(y, Round::NearestTiesToEven).value.to_bits() as u32
}

/// Relies on rustc_apfloat's `Float::from_i128` for `ieee::Single`
/// (rounds to nearest, ties to even).
#[verifier::external_body]
pub(crate) fn float_from_int(n: i32) -> (r: u32)
    ensures
        r == float_of_int(n),
{
    Single::from_i128(n as i128).value.to_bits() as u32
}

/// Relies on the `Display` impl of rustc_apfloat's `ieee::Single`.
#[verifier::external_body]
pub(crate) fn float_to_text(b: u32) -> (r: String)
    ensures
        r@ == float_text(b),
{
    Single::from_bits(b as u128).to_string()
}

} // verus!
