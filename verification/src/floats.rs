//! Floating-point values, held as their IEEE 754 single-precision bit
//! patterns. Verified code never computes on them; every operation goes
//! through a trusted call into std, and the contracts name the results.

use vstd::prelude::*;
use core::primitive::f32 as Real;

verus! {

/// The bit pattern the decimal token `s` denotes, if it denotes one.
pub uninterp spec fn f32_of_text(s: Seq<char>) -> Option<u32>;

/// The decimal rendering of the value with bit pattern `a`.
pub uninterp spec fn f32_text(a: u32) -> Seq<char>;

/// The bit pattern of the rounded sum of the values with bit patterns `a`, `b`.
pub uninterp spec fn f32_sum(a: u32, b: u32) -> u32;

/// The bit pattern of the rounded difference of the values `a`, `b`.
pub uninterp spec fn f32_diff(a: u32, b: u32) -> u32;

/// The bit pattern of the rounded product of the values `a`, `b`.
pub uninterp spec fn f32_prod(a: u32, b: u32) -> u32;

/// The bit pattern of the rounded quotient of the values `a`, `b`.
pub uninterp spec fn f32_quot(a: u32, b: u32) -> u32;

/// Relies on `str::parse` for `f32`: the parse is a function of the
/// characters alone, and fails exactly on tokens that denote no value.
#[verifier::external_body]
pub fn parse_f32(s: &str) -> (r: Option<u32>)
    ensures
        r == f32_of_text(s@),
{
    match s.parse::<Real>() {
        Ok(v) => Some(v.to_bits()),
        Err(_) => None,
    }
}

/// Relies on the std `Display` for `f32`: the shortest decimal form that
/// reads back to the same value, a function of the bit pattern alone.
#[verifier::external_body]
pub fn format_f32(a: u32) -> (r: String)
    ensures
        r@ == f32_text(a),
{
    format!("{}", Real::from_bits(a))
}

/// Relies on IEEE 754 addition as std implements it for `f32`: rounded to
/// nearest even, a function of the operand bit patterns alone.
#[verifier::external_body]
pub fn add_f32(a: u32, b: u32) -> (r: u32)
    ensures
        r == f32_sum(a, b),
{
    (Real::from_bits(a) + Real::from_bits(b)).to_bits()
}

/// Relies on IEEE 754 subtraction as std implements it for `f32`.
#[verifier::external_body]
pub fn sub_f32(a: u32, b: u32) -> (r: u32)
    ensures
        r == f32_diff(a, b),
{
    (Real::from_bits(a) - Real::from_bits(b)).to_bits()
}

/// Relies on IEEE 754 multiplication as std implements it for `f32`.
#[verifier::external_body]
pub fn mul_f32(a: u32, b: u32) -> (r: u32)
    ensures
        r == f32_prod(a, b),
{
    (Real::from_bits(a) * Real::from_bits(b)).to_bits()
}

/// Relies on IEEE 754 division as std implements it for `f32`: a zero
/// divisor yields an infinity or NaN, never a fault.
#[verifier::external_body]
pub fn div_f32(a: u32, b: u32) -> (r: u32)
    ensures
        r == f32_quot(a, b),
{
    (Real::from_bits(a) / Real::from_bits(b)).to_bits()
}

} // verus!
