//! The language's numbers are IEEE 754 binary64 values. Verus has no
//! floating-point support, so the library carries every number as its bit
//! pattern (a `u64`) and performs the arithmetic through `rustc_apfloat`,
//! a pure software implementation of IEEE 754. Each operation is named by
//! an uninterpreted spec function of the operand bits: the operations are
//! deterministic functions of their arguments, so the names are sound, and
//! every contract above this module speaks of the names.

use vstd::prelude::*;

use rustc_apfloat::Float;
use rustc_apfloat::ieee::Double;

verus! {

/// The IEEE 754 binary64 sum of the numbers with bit patterns `a` and `b`.
pub uninterp spec fn num_sum(a: u64, b: u64) -> u64;

/// The IEEE 754 binary64 difference `a - b`, over bit patterns.
pub uninterp spec fn num_diff(a: u64, b: u64) -> u64;

/// The IEEE 754 binary64 product, over bit patterns.
pub uninterp spec fn num_prod(a: u64, b: u64) -> u64;

/// The IEEE 754 binary64 quotient `a / b`, over bit patterns.
pub uninterp spec fn num_quot(a: u64, b: u64) -> u64;

/// The IEEE 754 binary64 negation, over bit patterns.
pub uninterp spec fn num_neg(a: u64) -> u64;

/// IEEE 754 equality of the numbers with bit patterns `a` and `b`.
/// This is not bit equality: zeroes of either sign are equal, and a NaN
/// is equal to nothing, itself included.
pub uninterp spec fn num_eq(a: u64, b: u64) -> bool;

/// IEEE 754 `a < b`, over bit patterns.
pub uninterp spec fn num_lt(a: u64, b: u64) -> bool;

/// IEEE 754 `a <= b`, over bit patterns.
pub uninterp spec fn num_le(a: u64, b: u64) -> bool;

/// IEEE 754 `a > b`, over bit patterns.
pub uninterp spec fn num_gt(a: u64, b: u64) -> bool;

/// IEEE 754 `a >= b`, over bit patterns.
pub uninterp spec fn num_ge(a: u64, b: u64) -> bool;

/// The binary64 value denoted by a decimal numeral, correctly rounded.
pub uninterp spec fn num_of_text(s: Seq<char>) -> u64;

/// The decimal text of the number with bit pattern `a`, as
/// `rustc_apfloat` renders it. This rendering agrees with the usual one
/// on integers and exact binary fractions (`2`, `0.5`), but prints
/// non-exact fractions with enough digits to round-trip, switches to
/// scientific notation for magnitudes more than a few places from the
/// point (`100000` renders as `1.0E+5`), and writes `+Inf` and `NaN`.
pub uninterp spec fn num_text(a: u64) -> Seq<char>;

/// True exactly for the ten ASCII decimal digit characters.
pub open spec fn is_digit_char(c: char) -> bool {
    '0' <= c && c <= '9'
}

pub open spec fn all_digits(s: Seq<char>) -> bool {
    forall|i: int| 0 <= i < s.len() ==> is_digit_char(#[trigger] s[i])
}

/// The shape of a numeric literal: one or more digits, optionally followed
/// by a point and one or more digits.
pub open spec fn is_number_text(s: Seq<char>) -> bool {
    ||| (s.len() > 0 && all_digits(s))
    ||| (exists|k: int|
        1 <= k <= s.len() - 2 && s[k] == '.' && all_digits(s.subrange(0, k)) && all_digits(
            s.subrange(k + 1, s.len() as int),
        ))
}

/// Relies on `rustc_apfloat::ieee::Double`'s addition (IEEE 754 binary64,
/// round to nearest, ties to even): the result depends on the two operand
/// bit patterns alone.
#[verifier::external_body]
pub(crate) fn add_bits(a: u64, b: u64) -> (r: u64)
    ensures
        r == num_sum(a, b),
{
    let x = Double::from_bits(a as u128);
    let y = Double::from_bits(b as u128);
    (x + y).value.to_bits() as u64
}

/// Relies on `rustc_apfloat::ieee::Double`'s subtraction: the result
/// depends on the two operand bit patterns alone.
#[verifier::external_body]
pub(crate) fn sub_bits(a: u64, b: u64) -> (r: u64)
    ensures
        r == num_diff(a, b),
{
    let x = Double::from_bits(a as u128);
    let y = Double::from_bits(b as u128);
    (x - y).value.to_bits() as u64
}

/// Relies on `rustc_apfloat::ieee::Double`'s multiplication: the result
/// depends on the two operand bit patterns alone.
#[verifier::external_body]
pub(crate) fn mul_bits(a: u64, b: u64) -> (r: u64)
    ensures
        r == num_prod(a, b),
{
    let x = Double::from_bits(a as u128);
    let y = Double::from_bits(b as u128);
    (x * y).value.to_bits() as u64
}

/// Relies on `rustc_apfloat::ieee::Double`'s division: the result depends
/// on the two operand bit patterns alone.
#[verifier::external_body]
pub(crate) fn div_bits(a: u64, b: u64) -> (r: u64)
    ensures
        r == num_quot(a, b),
{
    let x = Double::from_bits(a as u128);
    let y = Double::from_bits(b as u128);
    (x / y).value.to_bits() as u64
}

/// Relies on `rustc_apfloat::ieee::Double`'s negation: the result depends
/// on the operand bit pattern alone.
#[verifier::external_body]
pub(crate) fn neg_bits(a: u64) -> (r: u64)
    ensures
        r == num_neg(a),
{
    (-Double::from_bits(a as u128)).to_bits() as u64
}

/// Relies on `PartialEq` for `rustc_apfloat::ieee::Double`, which is IEEE
/// 754 equality: the result depends on the two bit patterns alone.
#[verifier::external_body]
pub(crate) fn eq_bits(a: u64, b: u64) -> (r: bool)
    ensures
        r == num_eq(a, b),
{
    Double::from_bits(a as u128) == Double::from_bits(b as u128)
}

/// Relies on `PartialOrd::lt` for `rustc_apfloat::ieee::Double` (IEEE 754
/// ordering): the result depends on the two bit patterns alone.
#[verifier::external_body]
pub(crate) fn lt_bits(a: u64, b: u64) -> (r: bool)
    ensures
        r == num_lt(a, b),
{
    Double::from_bits(a as u128) < Double::from_bits(b as u128)
}

/// Relies on `PartialOrd::le` for `rustc_apfloat::ieee::Double` (IEEE 754
/// ordering): the result depends on the two bit patterns alone.
#[verifier::external_body]
pub(crate) fn le_bits(a: u64, b: u64) -> (r: bool)
    ensures
        r == num_le(a, b),
{
    Double::from_bits(a as u128) <= Double::from_bits(b as u128)
}

/// Relies on `PartialOrd::gt` for `rustc_apfloat::ieee::Double` (IEEE 754
/// ordering): the result depends on the two bit patterns alone.
#[verifier::external_body]
pub(crate) fn gt_bits(a: u64, b: u64) -> (r: bool)
    ensures
        r == num_gt(a, b),
{
    Double::from_bits(a as u128) > Double::from_bits(b as u128)
}

/// Relies on `PartialOrd::ge` for `rustc_apfloat::ieee::Double` (IEEE 754
/// ordering): the result depends on the two bit patterns alone.
#[verifier::external_body]
pub(crate) fn ge_bits(a: u64, b: u64) -> (r: bool)
    ensures
        r == num_ge(a, b),
{
    Double::from_bits(a as u128) >= Double::from_bits(b as u128)
}

/// Relies on `FromStr` for `rustc_apfloat::ieee::Double`, which parses a
/// decimal numeral correctly rounded to nearest, ties to even: the result
/// depends on the characters alone. Parsing a well-formed numeral cannot
/// fail, so the fallback arm is never taken.
#[verifier::external_body]
pub(crate) fn parse_bits(s: &str) -> (r: u64)
    requires
        is_number_text(s@),
    ensures
        r == num_of_text(s@),
{
    match s.parse::<Double>() {
        Ok(v) => v.to_bits() as u64,
        Err(_) => 0,
    }
}

/// Relies on `Display` for `rustc_apfloat::ieee::Double`: the decimal text
/// depends on the bit pattern alone. See `num_text` for how this
/// rendering can differ from other decimal renderings of a float.
#[verifier::external_body]
pub(crate) fn format_bits(a: u64) -> (r: String)
    ensures
        r@ == num_text(a),
{
    format!("{}", Double::from_bits(a as u128))
}

} // verus!
