//! Runtime numbers.
//!
//! The language's numbers are IEEE-754 doubles.  The library carries them as
//! their 64-bit encodings (`u64`), so every structural question — is this NaN,
//! is it zero, how do two numbers order — is settled here by bit-level
//! reasoning, fully verified.  Only rounding arithmetic (add, sub, mul, div),
//! decimal parsing and the conversion to an array index are delegated to the
//! `rustc_apfloat` software implementation of IEEE-754 behind trusted
//! wrappers.

use vstd::prelude::*;
use rustc_apfloat::Float;
use rustc_apfloat::ieee::Double;

verus! {

/// The bit pattern of the double `+0.0`.
pub const POS_ZERO_BITS: u64 = 0x0000_0000_0000_0000;

/// The sign bit; everything below it is the magnitude (exponent and
/// significand), which orders finite doubles of equal sign.
pub const MAGNITUDE_MASK: u64 = 0x7FFF_FFFF_FFFF_FFFF;

/// True when `bits` encodes a NaN: exponent field all ones, significand
/// nonzero.
pub open spec fn spec_is_nan(bits: u64) -> bool {
    bits & 0x7FF0_0000_0000_0000 == 0x7FF0_0000_0000_0000
        && bits & 0x000F_FFFF_FFFF_FFFF != 0
}

/// The signed magnitude of an encoded double.  For every non-NaN encoding
/// this orders exactly as the encoded values do, with both zeros at 0.
pub open spec fn spec_key(bits: u64) -> int {
    if bits >> 63 == 1 {
        -((bits & MAGNITUDE_MASK) as int)
    } else {
        (bits & MAGNITUDE_MASK) as int
    }
}

/// IEEE-754 `==` on encodings: false against NaN, and `+0.0 == -0.0`.
pub open spec fn spec_num_eq(a: u64, b: u64) -> bool {
    !spec_is_nan(a) && !spec_is_nan(b) && spec_key(a) == spec_key(b)
}

/// IEEE-754 `<` on encodings: false against NaN.
pub open spec fn spec_num_lt(a: u64, b: u64) -> bool {
    !spec_is_nan(a) && !spec_is_nan(b) && spec_key(a) < spec_key(b)
}

/// True when the encoded double is `+0.0` or `-0.0` — the only numbers the
/// virtual machine treats as falsy.
pub open spec fn spec_num_is_zero(bits: u64) -> bool {
    bits & MAGNITUDE_MASK == 0
}

pub fn num_is_nan(bits: u64) -> (r: bool)
    ensures
        r == spec_is_nan(bits),
{
    bits & 0x7FF0_0000_0000_0000 == 0x7FF0_0000_0000_0000
        && bits & 0x000F_FFFF_FFFF_FFFF != 0
}

pub fn num_is_zero(bits: u64) -> (r: bool)
    ensures
        r == spec_num_is_zero(bits),
{
    bits & MAGNITUDE_MASK == 0
}

pub fn num_eq(a: u64, b: u64) -> (r: bool)
    ensures
        r == spec_num_eq(a, b),
{
    if num_is_nan(a) || num_is_nan(b) {
        false
    } else {
        let ma = a & MAGNITUDE_MASK;
        let mb = b & MAGNITUDE_MASK;
        let sa = a >> 63;
        let sb = b >> 63;
        proof {
            assert(a >> 63 == 0 || a >> 63 == 1) by (bit_vector);
            assert(b >> 63 == 0 || b >> 63 == 1) by (bit_vector);
        }
        ma == mb && (sa == sb || ma == 0)
    }
}

pub fn num_lt(a: u64, b: u64) -> (r: bool)
    ensures
        r == spec_num_lt(a, b),
{
    if num_is_nan(a) || num_is_nan(b) {
        false
    } else {
        let ma = a & MAGNITUDE_MASK;
        let mb = b & MAGNITUDE_MASK;
        let sa = a >> 63;
        let sb = b >> 63;
        proof {
            assert(a >> 63 == 0 || a >> 63 == 1) by (bit_vector);
            assert(b >> 63 == 0 || b >> 63 == 1) by (bit_vector);
        }
        if sa == 1 && sb == 1 {
            mb < ma
        } else if sa == 1 {
            !(ma == 0 && mb == 0)
        } else if sb == 1 {
            false
        } else {
            ma < mb
        }
    }
}

/// Equality on encodings is reflexive except on NaN, which differs from
/// itself.
pub proof fn lemma_num_eq_reflexive(bits: u64)
    ensures
        !spec_is_nan(bits) ==> spec_num_eq(bits, bits),
        spec_is_nan(bits) ==> !spec_num_eq(bits, bits),
{
}

/// The rounded sum of two encoded doubles, as `rustc_apfloat` computes it.
pub uninterp spec fn add_bits(a: u64, b: u64) -> u64;

/// The rounded difference of two encoded doubles.
pub uninterp spec fn sub_bits(a: u64, b: u64) -> u64;

/// The rounded product of two encoded doubles.
pub uninterp spec fn mul_bits(a: u64, b: u64) -> u64;

/// The rounded quotient of two encoded doubles.
pub uninterp spec fn div_bits(a: u64, b: u64) -> u64;

/// The encoded double a decimal literal denotes, or `None` where the text is
/// not a numeric literal.
pub uninterp spec fn parsed_bits(text: Seq<char>) -> Option<u64>;

/// The array index an encoded double selects: truncation toward zero,
/// clamped to `usize`, zero for NaN and negatives.
pub uninterp spec fn index_bits(bits: u64) -> usize;

/// Relies on `rustc_apfloat::ieee::Double`'s `Add`: round-to-nearest-even
/// IEEE-754 addition, a function of the two encodings alone.
#[verifier::external_body]
pub(crate) fn num_add(a: u64, b: u64) -> (r: u64)
    ensures
        r == add_bits(a, b),
{
    let x = Double::from_bits(a as u128);
    let y = Double::from_bits(b as u128);
    (x + y).value.to_bits() as u64
}

/// Relies on `rustc_apfloat::ieee::Double`'s `Sub`: round-to-nearest-even
/// IEEE-754 subtraction, a function of the two encodings alone.
#[verifier::external_body]
pub(crate) fn num_sub(a: u64, b: u64) -> (r: u64)
    ensures
        r == sub_bits(a, b),
{
    let x = Double::from_bits(a as u128);
    let y = Double::from_bits(b as u128);
    (x - y).value.to_bits() as u64
}

/// Relies on `rustc_apfloat::ieee::Double`'s `Mul`: round-to-nearest-even
/// IEEE-754 multiplication, a function of the two encodings alone.
#[verifier::external_body]
pub(crate) fn num_mul(a: u64, b: u64) -> (r: u64)
    ensures
        r == mul_bits(a, b),
{
    let x = Double::from_bits(a as u128);
    let y = Double::from_bits(b as u128);
    (x * y).value.to_bits() as u64
}

/// Relies on `rustc_apfloat::ieee::Double`'s `Div`: round-to-nearest-even
/// IEEE-754 division, a function of the two encodings alone; division by
/// zero yields an infinity or NaN, never a fault.
#[verifier::external_body]
pub(crate) fn num_div(a: u64, b: u64) -> (r: u64)
    ensures
        r == div_bits(a, b),
{
    let x = Double::from_bits(a as u128);
    let y = Double::from_bits(b as u128);
    (x / y).value.to_bits() as u64
}

/// Relies on `rustc_apfloat::ieee::Double::from_str`: correctly rounded
/// IEEE-754 decimal-to-double conversion, a function of the text alone;
/// malformed text is reported as an error, never a panic.
#[verifier::external_body]
pub(crate) fn num_parse(text: &Vec<char>) -> (r: Option<u64>)
    ensures
        r == parsed_bits(text@),
{
    let s: String = text.iter().collect();
    match s.parse::<Double>() {
        Ok(d) => Some(d.to_bits() as u64),
        Err(_) => None,
    }
}

/// Relies on `rustc_apfloat::ieee::Double::to_u128` with round-toward-zero:
/// the saturating integer part of the encoded double, zero for NaN and for
/// negative values, a function of the encoding alone.
#[verifier::external_body]
pub(crate) fn num_index(bits: u64) -> (r: usize)
    ensures
        r == index_bits(bits),
{
    let d = Double::from_bits(bits as u128);
    let wide = d.to_u128(usize::BITS as usize).value;
    wide as usize
}

} // verus!
