//! Double-precision numbers, carried as their IEEE-754 bit patterns.
//!
//! The interpreter's numeric values are doubles. Verified code never
//! computes on floating point directly: a number is a `u64` holding the
//! bits of the double, and the four arithmetic operations, parsing and
//! printing go through trusted wrappers around `rustc_apfloat`, whose
//! results are named by uninterpreted spec functions.
use vstd::prelude::*;

use rustc_apfloat::Float;

verus! {

/// Bits of the double 0.0, the identity for sums.
pub const ZERO_BITS: u64 = 0;

/// Bits of the double 1.0, the identity for products.
pub const ONE_BITS: u64 = 0x3FF0_0000_0000_0000;

/// The bits of the IEEE-754 double sum of two doubles given by their bits.
pub uninterp spec fn add_bits(a: u64, b: u64) -> u64;

/// The bits of the IEEE-754 double difference of two doubles given by their bits.
pub uninterp spec fn sub_bits(a: u64, b: u64) -> u64;

/// The bits of the IEEE-754 double product of two doubles given by their bits.
pub uninterp spec fn mul_bits(a: u64, b: u64) -> u64;

/// The bits of the IEEE-754 double quotient of two doubles given by their bits.
pub uninterp spec fn div_bits(a: u64, b: u64) -> u64;

/// The bits of the double a numeric literal denotes — in any spelling the
/// arithmetic backend reads, decimal or otherwise — and `None` where the
/// text denotes no number.
pub uninterp spec fn bits_of_decimal(s: Seq<char>) -> Option<u64>;

/// The decimal rendering of the double given by its bits.
pub uninterp spec fn decimal_of(bits: u64) -> Seq<char>;

/// The double given by its bits, rounded toward zero and clamped to `u64`.
pub uninterp spec fn trunc_of(bits: u64) -> u64;

/// Relies on `rustc_apfloat::ieee::Double`'s `Add`: IEEE-754 double addition,
/// round to nearest even, on values carried as bits.
#[verifier::external_body]
pub fn dbl_add(a: u64, b: u64) -> (r: u64)
    ensures
        r == add_bits(a, b),
{
    let x = rustc_apfloat::ieee::Double::from_bits(a as u128);
    let y = rustc_apfloat::ieee::Double::from_bits(b as u128);
    (x + y).value.to_bits() as u64
}

/// Relies on `rustc_apfloat::ieee::Double`'s `Sub`: IEEE-754 double subtraction
/// on values carried as bits.
#[verifier::external_body]
pub fn dbl_sub(a: u64, b: u64) -> (r: u64)
    ensures
        r == sub_bits(a, b),
{
    let x = rustc_apfloat::ieee::Double::from_bits(a as u128);
    let y = rustc_apfloat::ieee::Double::from_bits(b as u128);
    (x - y).value.to_bits() as u64
}

/// Relies on `rustc_apfloat::ieee::Double`'s `Mul`: IEEE-754 double
/// multiplication on values carried as bits.
#[verifier::external_body]
pub fn dbl_mul(a: u64, b: u64) -> (r: u64)
    ensures
        r == mul_bits(a, b),
{
    let x = rustc_apfloat::ieee::Double::from_bits(a as u128);
    let y = rustc_apfloat::ieee::Double::from_bits(b as u128);
    (x * y).value.to_bits() as u64
}

/// Relies on `rustc_apfloat::ieee::Double`'s `Div`: IEEE-754 double division
/// on values carried as bits.
#[verifier::external_body]
pub fn dbl_div(a: u64, b: u64) -> (r: u64)
    ensures
        r == div_bits(a, b),
{
    let x = rustc_apfloat::ieee::Double::from_bits(a as u128);
    let y = rustc_apfloat::ieee::Double::from_bits(b as u128);
    (x / y).value.to_bits() as u64
}

/// Relies on `rustc_apfloat::ieee::Double::from_str`: parses a numeric
/// literal (in any spelling that function accepts) to a double, round to
/// nearest even; `None` on a malformed literal.
#[verifier::external_body]
pub fn dbl_parse(s: &str) -> (r: Option<u64>)
    ensures
        r == bits_of_decimal(s@),
{
    match s.parse::<rustc_apfloat::ieee::Double>() {
        Ok(d) => Some(d.to_bits() as u64),
        Err(_) => None,
    }
}

/// Relies on `rustc_apfloat::ieee::Double`'s `Display`: renders the
/// double as a decimal string.
#[verifier::external_body]
pub fn dbl_to_string(bits: u64) -> (r: String)
    ensures
        r@ == decimal_of(bits),
{
    let d = rustc_apfloat::ieee::Double::from_bits(bits as u128);
    format!("{}", d)
}

/// Relies on `rustc_apfloat::ieee::Double::to_u128`: converts a double to an
/// unsigned integer, rounding toward zero; negative values and NaN go to
/// zero, values beyond the width saturate.
#[verifier::external_body]
pub fn dbl_trunc(bits: u64) -> (r: u64)
    ensures
        r == trunc_of(bits),
{
    let d = rustc_apfloat::ieee::Double::from_bits(bits as u128);
    d.to_u128(64).value as u64
}

/// The left fold of double addition over a sequence of bit patterns,
/// starting from `acc`: how a variadic sum is accumulated.
pub open spec fn fold_add(acc: u64, s: Seq<u64>) -> u64
    decreases s.len(),
{
    if s.len() == 0 {
        acc
    } else {
        fold_add(add_bits(acc, s[0]), s.skip(1))
    }
}

/// The left fold of double subtraction over a sequence of bit patterns.
pub open spec fn fold_sub(acc: u64, s: Seq<u64>) -> u64
    decreases s.len(),
{
    if s.len() == 0 {
        acc
    } else {
        fold_sub(sub_bits(acc, s[0]), s.skip(1))
    }
}

/// The left fold of double multiplication over a sequence of bit patterns.
pub open spec fn fold_mul(acc: u64, s: Seq<u64>) -> u64
    decreases s.len(),
{
    if s.len() == 0 {
        acc
    } else {
        fold_mul(mul_bits(acc, s[0]), s.skip(1))
    }
}

/// The left fold of double division over a sequence of bit patterns.
pub open spec fn fold_div(acc: u64, s: Seq<u64>) -> u64
    decreases s.len(),
{
    if s.len() == 0 {
        acc
    } else {
        fold_div(div_bits(acc, s[0]), s.skip(1))
    }
}

} // verus!
