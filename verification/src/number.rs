//! IEEE-754 double precision numbers, held as their 64-bit patterns.
//!
//! The arithmetic itself is rustc_apfloat's `Double`, a software
//! implementation of IEEE-754 binary64 with round-to-nearest-even; each
//! operation below is a thin call into it, and its result is named as a
//! function of its operands. Negation and comparison are done here, on the
//! bit patterns: negation flips the sign bit, and comparison orders the
//! patterns as the numbers they stand for.
use vstd::prelude::*;
use rustc_apfloat::{Float, Round};
use rustc_apfloat::ieee::Double;
use core::str::FromStr;

verus! {

/// The double nearest to the decimal numeral (digits with at most one dot).
pub uninterp spec fn numeral_value(text: Seq<char>) -> u64;

/// `a + b`, rounded to nearest even.
pub uninterp spec fn float_sum(a: u64, b: u64) -> u64;

/// `a - b`, rounded to nearest even.
pub uninterp spec fn float_difference(a: u64, b: u64) -> u64;

/// `a * b`, rounded to nearest even.
pub uninterp spec fn float_product(a: u64, b: u64) -> u64;

/// `a / b`, rounded to nearest even.
pub uninterp spec fn float_quotient(a: u64, b: u64) -> u64;

/// `-a`: the sign bit flipped.
pub open spec fn float_negation(a: u64) -> u64 {
    a ^ 0x8000_0000_0000_0000u64
}

/// The value of a text of decimal digits.
pub open spec fn digits_value(t: Seq<char>) -> int
    decreases t.len(),
{
    if t.len() == 0 {
        0
    } else {
        digits_value(t.drop_last()) * 10 + (t.last() as int - '0' as int)
    }
}

/// A non-empty text of decimal digits.
pub open spec fn all_digits(t: Seq<char>) -> bool {
    t.len() > 0 && forall|i: int| 0 <= i < t.len() ==> '0' <= #[trigger] t[i] <= '9'
}

/// The double nearest to an integer, rounded to nearest even.
pub uninterp spec fn float_of_integer(i: i128) -> u64;

/// The double truncated toward zero to a 64-bit integer, saturating at the
/// bounds, 0 for NaN.
pub uninterp spec fn float_truncation(a: u64) -> i128;

/// Whether a double is NaN: all exponent bits set and a nonzero fraction.
pub open spec fn is_nan(a: u64) -> bool {
    a & 0x7ff0_0000_0000_0000u64 == 0x7ff0_0000_0000_0000u64 && a & 0x000f_ffff_ffff_ffffu64 != 0
}

/// Where a double that is not NaN lies on the number line, as an integer
/// that orders as the doubles do: the magnitude bits, negated for a negative
/// sign; both zeros lie at 0.
pub open spec fn order_key(a: u64) -> int {
    let magnitude = a & 0x7fff_ffff_ffff_ffffu64;
    if magnitude == 0 {
        0
    } else if a & 0x8000_0000_0000_0000u64 != 0 {
        -(magnitude as int)
    } else {
        magnitude as int
    }
}

/// How two doubles compare under IEEE-754: unordered when either is NaN,
/// else as their places on the number line.
pub open spec fn float_order(a: u64, b: u64) -> FloatOrder {
    if is_nan(a) || is_nan(b) {
        FloatOrder::Unordered
    } else if order_key(a) < order_key(b) {
        FloatOrder::Less
    } else if order_key(a) == order_key(b) {
        FloatOrder::Equal
    } else {
        FloatOrder::Greater
    }
}

/// The outcome of comparing two doubles.
#[derive(Debug, Clone, Copy, PartialEq, Eq, Structural)]
pub enum FloatOrder {
    Less,
    Equal,
    Greater,
    /// At least one side is NaN.
    Unordered,
}

/// A numeral as the scanner forms it: a decimal digit, then digits and at
/// most one dot.
pub open spec fn is_numeral(text: Seq<char>) -> bool {
    &&& text.len() > 0
    &&& '0' <= text[0] <= '9'
    &&& forall|i: int| 0 <= i < text.len() ==> ('0' <= #[trigger] text[i] <= '9' || text[i] == '.')
    &&& forall|i: int, j: int| 0 <= i < j < text.len() && #[trigger] text[i] == '.' ==> #[trigger] text[j] != '.'
}

/// Calls `Double::from_str` on a numeral; apfloat's decimal conversion is
/// correctly rounded. The contract names the result as a function of the
/// numeral; a numeral never fails to convert. An integer below 2^53 is a
/// double exactly, so truncating it gives the integer back.
#[verifier::external_body]
pub(crate) fn parse_numeral(text: &str) -> (r: u64)
    requires
        is_numeral(text@),
    ensures
        r == numeral_value(text@),
        all_digits(text@) && digits_value(text@) < 0x20_0000_0000_0000 ==> float_truncation(r) == digits_value(
            text@,
        ),
{
    match Double::from_str(text) {
        Ok(d) => d.to_bits() as u64,
        Err(_) => 0,
    }
}

/// Calls apfloat's `Add` on two doubles and keeps the rounded value.
#[verifier::external_body]
pub(crate) fn float_add(a: u64, b: u64) -> (r: u64)
    ensures
        r == float_sum(a, b),
{
    (Double::from_bits(a as u128) + Double::from_bits(b as u128)).value.to_bits() as u64
}

/// Calls apfloat's `Sub` on two doubles and keeps the rounded value.
#[verifier::external_body]
pub(crate) fn float_sub(a: u64, b: u64) -> (r: u64)
    ensures
        r == float_difference(a, b),
{
    (Double::from_bits(a as u128) - Double::from_bits(b as u128)).value.to_bits() as u64
}

/// Calls apfloat's `Mul` on two doubles and keeps the rounded value.
#[verifier::external_body]
pub(crate) fn float_mul(a: u64, b: u64) -> (r: u64)
    ensures
        r == float_product(a, b),
{
    (Double::from_bits(a as u128) * Double::from_bits(b as u128)).value.to_bits() as u64
}

/// Calls apfloat's `Div` on two doubles and keeps the rounded value.
#[verifier::external_body]
pub(crate) fn float_div(a: u64, b: u64) -> (r: u64)
    ensures
        r == float_quotient(a, b),
{
    (Double::from_bits(a as u128) / Double::from_bits(b as u128)).value.to_bits() as u64
}

/// Negates a double by flipping its sign bit.
pub(crate) fn float_neg(a: u64) -> (r: u64)
    ensures
        r == float_negation(a),
{
    a ^ 0x8000_0000_0000_0000u64
}

/// Calls `Double::from_i128` (round to nearest even) and keeps the value,
/// which is a finite double (every 128-bit integer lies within the range of
/// doubles), so never NaN.
#[verifier::external_body]
pub(crate) fn float_from_integer(i: i128) -> (r: u64)
    ensures
        r == float_of_integer(i),
        !is_nan(r),
{
    Double::from_i128(i).value.to_bits() as u64
}

/// Calls `Double::to_i128_r` with width 64 and rounding toward zero, which
/// saturates at the bounds of a 64-bit integer and gives 0 for NaN.
#[verifier::external_body]
pub(crate) fn float_to_integer(a: u64) -> (r: i128)
    ensures
        r == float_truncation(a),
        i64::MIN <= r <= i64::MAX,
{
    Double::from_bits(a as u128).to_i128_r(64, Round::TowardZero, &mut true).value
}

/// The place of a double that is not NaN on the number line.
fn order_key_of(a: u64) -> (r: i128)
    ensures
        r == order_key(a),
{
    let magnitude = a & 0x7fff_ffff_ffff_ffffu64;
    if magnitude == 0 {
        0
    } else if a & 0x8000_0000_0000_0000u64 != 0 {
        -(magnitude as i128)
    } else {
        magnitude as i128
    }
}

/// Compares two doubles under IEEE-754.
pub(crate) fn float_compare(a: u64, b: u64) -> (r: FloatOrder)
    ensures
        r == float_order(a, b),
{
    let a_nan = a & 0x7ff0_0000_0000_0000u64 == 0x7ff0_0000_0000_0000u64 && a & 0x000f_ffff_ffff_ffffu64 != 0;
    let b_nan = b & 0x7ff0_0000_0000_0000u64 == 0x7ff0_0000_0000_0000u64 && b & 0x000f_ffff_ffff_ffffu64 != 0;
    if a_nan || b_nan {
        return FloatOrder::Unordered;
    }
    let ka = order_key_of(a);
    let kb = order_key_of(b);
    if ka < kb {
        FloatOrder::Less
    } else if ka == kb {
        FloatOrder::Equal
    } else {
        FloatOrder::Greater
    }
}

} // verus!
