//! What a run of digits denotes, and the calls into num-bigint and bigdecimal
//! that build the arbitrary-precision values.

use vstd::prelude::*;
use crate::grammar::{digit_run, is_dec_digit, is_radix_digit, sign_len};
use bigdecimal::{BigDecimal, ParseBigDecimalError};
use num_bigint::BigInt;
use std::str::FromStr;

verus! {

#[verifier::external_type_specification]
#[verifier::external_body]
pub struct ExBigInt(BigInt);

#[verifier::external_type_specification]
#[verifier::external_body]
pub struct ExBigDecimal(BigDecimal);

#[verifier::external_type_specification]
#[verifier::external_body]
pub struct ExParseBigDecimalError(ParseBigDecimalError);

/// The value of one digit, in any radix up to sixteen.
pub open spec fn digit_val(c: char) -> nat {
    if is_dec_digit(c) {
        (c as int - '0' as int) as nat
    } else if 'a' <= c && c <= 'f' {
        (c as int - 'a' as int + 10) as nat
    } else {
        (c as int - 'A' as int + 10) as nat
    }
}

/// The number that a run of digits denotes in `radix`, most significant first.
pub open spec fn digits_value(t: Seq<char>, radix: nat) -> nat
    decreases t.len(),
{
    if t.len() == 0 {
        0
    } else {
        digits_value(t.drop_last(), radix) * radix + digit_val(t.last())
    }
}

/// An optional sign, then at least one digit of `radix`.
pub open spec fn is_signed_digits(t: Seq<char>, radix: nat) -> bool {
    let k = sign_len(t, 0) as int;
    k < t.len() && forall|j: int| k <= j < t.len() ==> is_radix_digit(#[trigger] t[j], radix)
}

/// The integer denoted by an optional sign and digits of `radix`.
pub open spec fn signed_value(t: Seq<char>, radix: nat) -> int {
    if t.len() > 0 && t[0] == '-' {
        -digits_value(t.subrange(1, t.len() as int), radix)
    } else if t.len() > 0 && t[0] == '+' {
        digits_value(t.subrange(1, t.len() as int), radix) as int
    } else {
        digits_value(t, radix) as int
    }
}

/// The `BigInt` that holds `v`: one form per value.
pub uninterp spec fn big_int_of(v: int) -> BigInt;

/// Relies on `BigInt::parse_bytes` (through `from_str_radix`): an optional sign
/// and a non-empty run of digits of the radix parse to the integer they denote.
#[verifier::external_body]
pub(crate) fn big_int_from_text(text: &str, radix: u32) -> (r: Option<BigInt>)
    requires
        radix == 2 || radix == 8 || radix == 10 || radix == 16,
        is_signed_digits(text@, radix as nat),
    ensures
        r == Some(big_int_of(signed_value(text@, radix as nat))),
{
    BigInt::parse_bytes(text.as_bytes(), radix)
}

// The shape of the text handed to `BigDecimal::from_str`: an optional sign,
// integer digits, optionally a point and fraction digits (at least one digit
// in all), then optionally `e` or `E`, an optional sign and digits.
pub open spec fn int_digits_end(t: Seq<char>) -> int {
    (sign_len(t, 0) + digit_run(t, sign_len(t, 0) as int)) as int
}

pub open spec fn has_point(t: Seq<char>) -> bool {
    int_digits_end(t) < t.len() && t[int_digits_end(t)] == '.'
}

pub open spec fn frac_digits(t: Seq<char>) -> nat {
    if has_point(t) {
        digit_run(t, int_digits_end(t) + 1)
    } else {
        0
    }
}

pub open spec fn mantissa_end(t: Seq<char>) -> int {
    if has_point(t) {
        int_digits_end(t) + 1 + frac_digits(t)
    } else {
        int_digits_end(t)
    }
}

pub open spec fn exp_digits_start(t: Seq<char>) -> int {
    mantissa_end(t) + 1 + sign_len(t, mantissa_end(t) + 1)
}

pub open spec fn is_decimal_text(t: Seq<char>) -> bool {
    let p = mantissa_end(t);
    &&& digit_run(t, sign_len(t, 0) as int) + frac_digits(t) > 0
    &&& (p == t.len() || ((t[p] == 'e' || t[p] == 'E') && digit_run(t, exp_digits_start(t)) > 0
        && exp_digits_start(t) + digit_run(t, exp_digits_start(t)) == t.len()))
}

/// The digits of the mantissa with the point left out, read with its sign.
pub open spec fn decimal_unscaled(t: Seq<char>) -> int {
    let k = sign_len(t, 0) as int;
    let e = int_digits_end(t);
    let digits = t.subrange(k, e) + t.subrange(e + 1, e + 1 + frac_digits(t));
    if k > 0 && t[0] == '-' {
        -digits_value(digits, 10)
    } else {
        digits_value(digits, 10) as int
    }
}

pub open spec fn decimal_exponent(t: Seq<char>) -> int {
    if mantissa_end(t) < t.len() {
        signed_value(t.subrange(mantissa_end(t) + 1, t.len() as int), 10)
    } else {
        0
    }
}

/// Digits after the point, less the exponent.
pub open spec fn decimal_scale(t: Seq<char>) -> int {
    frac_digits(t) - decimal_exponent(t)
}

/// The exponent fits an `i128` and the scale an `i64`.
pub open spec fn decimal_in_range(t: Seq<char>) -> bool {
    &&& -0x8000_0000_0000_0000_0000_0000_0000_0000int <= decimal_exponent(t)
        <= 0x7fff_ffff_ffff_ffff_ffff_ffff_ffff_ffffint
    &&& i64::MIN <= decimal_scale(t) <= i64::MAX
}

/// The `BigDecimal` with this unscaled integer and scale (the value is
/// `unscaled * 10^-scale`).
pub uninterp spec fn big_decimal_of(unscaled: int, scale: int) -> BigDecimal;

/// Relies on `BigDecimal::from_str`: it reads the exponent as an `i128`, takes
/// the scale as fraction digits less the exponent (an error when that leaves
/// `i64`), and the mantissa digits without the point as the unscaled integer.
#[verifier::external_body]
pub(crate) fn big_decimal_from_text(text: &str) -> (r: Result<BigDecimal, ParseBigDecimalError>)
    requires
        is_decimal_text(text@),
    ensures
        r is Ok <==> decimal_in_range(text@),
        r matches Ok(d) ==> d == big_decimal_of(decimal_unscaled(text@), decimal_scale(text@)),
{
    BigDecimal::from_str(text)
}

} // verus!
