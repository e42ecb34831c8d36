use vstd::prelude::*;

use rustc_apfloat::Float;
use rustc_apfloat::ieee::Double;

verus! {

// An IEEE-754 double, throughout this crate, is carried as its 64-bit
// pattern: one sign bit, an 11-bit exponent, a 52-bit fraction.
pub const SIGN_MASK: u64 = 0x8000_0000_0000_0000;
pub const ABS_MASK: u64 = 0x7FFF_FFFF_FFFF_FFFF;
pub const EXP_MASK: u64 = 0x7FF0_0000_0000_0000;
pub const FRAC_MASK: u64 = 0x000F_FFFF_FFFF_FFFF;

/// A bit pattern is a NaN when the exponent field is all ones and the
/// fraction field is not zero.
pub open spec fn is_nan_bits(a: u64) -> bool {
    a & EXP_MASK == EXP_MASK && a & FRAC_MASK != 0
}

/// Both zeros, +0.0 and -0.0, have every bit but the sign clear.
pub open spec fn is_zero_bits(a: u64) -> bool {
    a & ABS_MASK == 0
}

/// The sign bit; set on negative doubles.
pub open spec fn sign_bits(a: u64) -> bool {
    a & SIGN_MASK != 0
}

/// IEEE-754 negation flips the sign bit and nothing else.
pub open spec fn neg_bits(a: u64) -> u64 {
    a ^ SIGN_MASK
}

/// IEEE-754 equality on doubles given by their bit patterns: a NaN equals
/// nothing, not even itself; +0.0 and -0.0 are equal; any other pair is
/// equal exactly when the patterns coincide.
pub open spec fn eq_bits(a: u64, b: u64) -> bool {
    &&& !is_nan_bits(a)
    &&& !is_nan_bits(b)
    &&& (a == b || (is_zero_bits(a) && is_zero_bits(b)))
}

/// IEEE-754 `<` on doubles given by their bit patterns. Any comparison with
/// a NaN is false. Otherwise doubles order by sign first; two doubles of the
/// same sign order by their magnitude, which for the common pattern layout
/// is the unsigned order of the patterns, reversed on the negative side.
pub open spec fn lt_bits(a: u64, b: u64) -> bool {
    if is_nan_bits(a) || is_nan_bits(b) {
        false
    } else if is_zero_bits(a) && is_zero_bits(b) {
        false
    } else if sign_bits(a) != sign_bits(b) {
        sign_bits(a)
    } else if !sign_bits(a) {
        a < b
    } else {
        b < a
    }
}

/// IEEE-754 `>`: the mirror of `lt_bits`.
pub open spec fn gt_bits(a: u64, b: u64) -> bool {
    lt_bits(b, a)
}

pub fn double_is_nan(a: u64) -> (r: bool)
    ensures
        r == is_nan_bits(a),
{
    a & EXP_MASK == EXP_MASK && a & FRAC_MASK != 0
}

pub fn double_is_zero(a: u64) -> (r: bool)
    ensures
        r == is_zero_bits(a),
{
    a & ABS_MASK == 0
}

pub fn double_neg(a: u64) -> (r: u64)
    ensures
        r == neg_bits(a),
{
    a ^ SIGN_MASK
}

pub fn double_eq(a: u64, b: u64) -> (r: bool)
    ensures
        r == eq_bits(a, b),
{
    !double_is_nan(a) && !double_is_nan(b) && (a == b || (double_is_zero(a)
        && double_is_zero(b)))
}

pub fn double_lt(a: u64, b: u64) -> (r: bool)
    ensures
        r == lt_bits(a, b),
{
    if double_is_nan(a) || double_is_nan(b) {
        false
    } else if double_is_zero(a) && double_is_zero(b) {
        false
    } else if (a & SIGN_MASK != 0) != (b & SIGN_MASK != 0) {
        a & SIGN_MASK != 0
    } else if a & SIGN_MASK == 0 {
        a < b
    } else {
        b < a
    }
}

pub fn double_gt(a: u64, b: u64) -> (r: bool)
    ensures
        r == gt_bits(a, b),
{
    double_lt(b, a)
}

/// The pattern of the IEEE-754 sum of the doubles with patterns `a` and `b`,
/// under round-to-nearest-even.
pub uninterp spec fn add_bits(a: u64, b: u64) -> u64;

/// The pattern of the IEEE-754 difference of the doubles `a` and `b`.
pub uninterp spec fn sub_bits(a: u64, b: u64) -> u64;

/// The pattern of the IEEE-754 product of the doubles `a` and `b`.
pub uninterp spec fn mul_bits(a: u64, b: u64) -> u64;

/// The pattern of the IEEE-754 quotient of the doubles `a` and `b`.
pub uninterp spec fn div_bits(a: u64, b: u64) -> u64;

/// Relies on rustc_apfloat's `+` for ieee::Double: IEEE-754 addition with
/// round-to-nearest-even, computed from the operand patterns alone.
#[verifier::external_body]
pub(crate) fn double_add(a: u64, b: u64) -> (r: u64)
    ensures
        r == add_bits(a, b),
{
    (Double::from_bits(a as u128) + Double::from_bits(b as u128)).value.to_bits() as u64
}

/// Relies on rustc_apfloat's `-` for ieee::Double: IEEE-754 subtraction with
/// round-to-nearest-even, computed from the operand patterns alone.
#[verifier::external_body]
pub(crate) fn double_sub(a: u64, b: u64) -> (r: u64)
    ensures
        r == sub_bits(a, b),
{
    (Double::from_bits(a as u128) - Double::from_bits(b as u128)).value.to_bits() as u64
}

/// Relies on rustc_apfloat's `*` for ieee::Double: IEEE-754 multiplication
/// with round-to-nearest-even, computed from the operand patterns alone.
#[verifier::external_body]
pub(crate) fn double_mul(a: u64, b: u64) -> (r: u64)
    ensures
        r == mul_bits(a, b),
{
    (Double::from_bits(a as u128) * Double::from_bits(b as u128)).value.to_bits() as u64
}

/// Relies on rustc_apfloat's `/` for ieee::Double: IEEE-754 division with
/// round-to-nearest-even, computed from the operand patterns alone.
#[verifier::external_body]
pub(crate) fn double_div(a: u64, b: u64) -> (r: u64)
    ensures
        r == div_bits(a, b),
{
    (Double::from_bits(a as u128) / Double::from_bits(b as u128)).value.to_bits() as u64
}

/// The pattern of the double nearest to the decimal numeral `s`, under
/// round-to-nearest-even.
pub uninterp spec fn double_of_decimal(s: Seq<u8>) -> u64;

/// A plain decimal numeral, as the scanner's number lexemes are shaped:
/// digits with at most one dot between them, opening and closing on a
/// digit.
pub open spec fn is_decimal_numeral(s: Seq<u8>) -> bool {
    &&& s.len() > 0
    &&& 48 <= s[0] <= 57
    &&& 48 <= s[s.len() - 1] <= 57
    &&& forall|i: int| 0 <= i < s.len() ==> (48 <= #[trigger] s[i] <= 57 || s[i] == 46)
    &&& forall|i: int, j: int|
        0 <= i < j < s.len() && #[trigger] s[i] == 46 ==> #[trigger] s[j] != 46
}

/// The decimal rendering of the double with pattern `a`.
pub uninterp spec fn double_text(a: u64) -> Seq<char>;

/// Relies on rustc_apfloat's decimal parsing for ieee::Double (`from_str`,
/// round-to-nearest-even): the result depends on the numeral alone, and
/// parsing a plain decimal numeral — nonempty digits around at most one
/// dot — never fails.
#[verifier::external_body]
pub(crate) fn double_from_decimal(s: &[u8]) -> (r: Option<u64>)
    ensures
        r matches Some(bits) ==> bits == double_of_decimal(s@),
        is_decimal_numeral(s@) ==> r is Some,
{
    match core::str::from_utf8(s) {
        Ok(text) => match text.parse::<Double>() {
            Ok(d) => Some(d.to_bits() as u64),
            Err(_) => None,
        },
        Err(_) => None,
    }
}

/// Relies on rustc_apfloat's Display for ieee::Double: the decimal rendering
/// depends on the pattern alone.
#[verifier::external_body]
pub(crate) fn double_to_text(a: u64) -> (r: String)
    ensures
        r@ == double_text(a),
{
    format!("{}", Double::from_bits(a as u128))
}

} // verus!
