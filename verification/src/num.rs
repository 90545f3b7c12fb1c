//! IEEE 754 double-precision primitives.
//!
//! The language's numbers are IEEE 754 doubles. Verified code carries them
//! as their 64-bit bit patterns, which are plain values; the arithmetic,
//! parsing and printing on those patterns is done by the `rustc_apfloat`
//! crate behind the trusted wrappers of this module. Each wrapper's result
//! is a fixed function of its arguments, named by an uninterpreted spec
//! function, so that contracts elsewhere can speak of it exactly.

use vstd::prelude::*;
use rustc_apfloat::Float;
use rustc_apfloat::ieee::Double;
use core::str::FromStr;

verus! {

/// The bit pattern of the double denoted by a decimal literal, or `None`
/// where the text is not a well-formed decimal literal.
pub uninterp spec fn float_of_text(s: Seq<u8>) -> Option<u64>;

/// The bit pattern of the IEEE sum of the doubles with bit patterns `a`, `b`.
pub uninterp spec fn float_add(a: u64, b: u64) -> u64;

/// The bit pattern of the IEEE difference of the doubles `a` and `b`.
pub uninterp spec fn float_sub(a: u64, b: u64) -> u64;

/// The bit pattern of the IEEE product of the doubles `a` and `b`.
pub uninterp spec fn float_mul(a: u64, b: u64) -> u64;

/// The bit pattern of the IEEE quotient of the doubles `a` and `b`.
pub uninterp spec fn float_div(a: u64, b: u64) -> u64;

/// The bit pattern of the negation of the double with bit pattern `a`.
pub uninterp spec fn float_neg(a: u64) -> u64;

/// Whether the double `a` compares IEEE-less-than the double `b`.
pub uninterp spec fn float_lt(a: u64, b: u64) -> bool;

/// Whether the double `a` compares IEEE-less-or-equal to the double `b`.
pub uninterp spec fn float_le(a: u64, b: u64) -> bool;

/// Whether the doubles `a` and `b` compare IEEE-equal.
pub uninterp spec fn float_eq(a: u64, b: u64) -> bool;

/// The decimal rendering of the double with bit pattern `b`.
pub uninterp spec fn float_text(b: u64) -> Seq<u8>;

/// Relies on `rustc_apfloat::ieee::Double`'s `FromStr`: correctly rounded
/// (nearest-even) decimal-to-double conversion, failing exactly on malformed
/// literals; the result depends on the text alone.
#[verifier::external_body]
pub(crate) fn parse_bits(s: &[u8]) -> (r: Option<u64>)
    ensures
        r == float_of_text(s@),
{
    match core::str::from_utf8(s) {
        Ok(t) => match Double::from_str(t) {
            Ok(d) => Some(d.to_bits() as u64),
            Err(_) => None,
        },
        Err(_) => None,
    }
}

/// Relies on `rustc_apfloat::ieee::Double`'s `Add`: IEEE 754 addition with
/// round-to-nearest-even, a fixed function of the two bit patterns.
#[verifier::external_body]
pub(crate) fn add_bits(a: u64, b: u64) -> (r: u64)
    ensures
        r == float_add(a, b),
{
    (Double::from_bits(a as u128) + Double::from_bits(b as u128)).value.to_bits() as u64
}

/// Relies on `rustc_apfloat::ieee::Double`'s `Sub`: IEEE 754 subtraction with
/// round-to-nearest-even, a fixed function of the two bit patterns.
#[verifier::external_body]
pub(crate) fn sub_bits(a: u64, b: u64) -> (r: u64)
    ensures
        r == float_sub(a, b),
{
    (Double::from_bits(a as u128) - Double::from_bits(b as u128)).value.to_bits() as u64
}

/// Relies on `rustc_apfloat::ieee::Double`'s `Mul`: IEEE 754 multiplication
/// with round-to-nearest-even, a fixed function of the two bit patterns.
#[verifier::external_body]
pub(crate) fn mul_bits(a: u64, b: u64) -> (r: u64)
    ensures
        r == float_mul(a, b),
{
    (Double::from_bits(a as u128) * Double::from_bits(b as u128)).value.to_bits() as u64
}

/// Relies on `rustc_apfloat::ieee::Double`'s `Div`: IEEE 754 division with
/// round-to-nearest-even (division by zero gives an infinity or NaN, never a
/// failure), a fixed function of the two bit patterns.
#[verifier::external_body]
pub(crate) fn div_bits(a: u64, b: u64) -> (r: u64)
    ensures
        r == float_div(a, b),
{
    (Double::from_bits(a as u128) / Double::from_bits(b as u128)).value.to_bits() as u64
}

/// Relies on `rustc_apfloat::ieee::Double`'s `Neg`: IEEE 754 sign flip, a
/// fixed function of the bit pattern.
#[verifier::external_body]
pub(crate) fn neg_bits(a: u64) -> (r: u64)
    ensures
        r == float_neg(a),
{
    (-Double::from_bits(a as u128)).to_bits() as u64
}

/// Relies on `rustc_apfloat::ieee::Double`'s `PartialOrd`: IEEE 754 ordered
/// comparison (false whenever either operand is NaN), a fixed function of
/// the two bit patterns.
#[verifier::external_body]
pub(crate) fn lt_bits(a: u64, b: u64) -> (r: bool)
    ensures
        r == float_lt(a, b),
{
    Double::from_bits(a as u128) < Double::from_bits(b as u128)
}

/// Relies on `rustc_apfloat::ieee::Double`'s `PartialOrd`: IEEE 754 ordered
/// comparison (false whenever either operand is NaN), a fixed function of
/// the two bit patterns.
#[verifier::external_body]
pub(crate) fn le_bits(a: u64, b: u64) -> (r: bool)
    ensures
        r == float_le(a, b),
{
    Double::from_bits(a as u128) <= Double::from_bits(b as u128)
}

/// Relies on `rustc_apfloat::ieee::Double`'s `PartialEq`: IEEE 754 equality
/// (false whenever either operand is NaN; a zero equals a negative zero), a
/// fixed function of the two bit patterns.
#[verifier::external_body]
pub(crate) fn eq_bits(a: u64, b: u64) -> (r: bool)
    ensures
        r == float_eq(a, b),
{
    Double::from_bits(a as u128) == Double::from_bits(b as u128)
}

/// Relies on `rustc_apfloat::ieee::Double`'s `Display`: a decimal rendering
/// of the value at its natural precision, a fixed function of the bit
/// pattern.
#[verifier::external_body]
pub(crate) fn text_of_bits(b: u64) -> (r: Vec<u8>)
    ensures
        r@ == float_text(b),
{
    format!("{}", Double::from_bits(b as u128)).into_bytes()
}

} // verus!
