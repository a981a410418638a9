//! Trusted boundary around `num_bigint::BigInt`, the arbitrary-precision
//! integer that carries every numerator in this crate.
//!
//! A `BigInt` is opaque to the verifier; the uninterpreted function `int_of`
//! names the mathematical integer it holds, and each wrapper below states
//! over `int_of` what the one `num_bigint` operation it calls does.

use vstd::prelude::*;
use num_traits::Signed;
use num_traits::ToPrimitive;
use num_traits::Zero;
use crate::arith::trunc_div;
use crate::arith::trunc_rem;
use crate::text::decimal_rep;

verus! {

#[verifier::external_type_specification]
#[verifier::external_body]
pub struct ExBigInt(num_bigint::BigInt);

/// The mathematical integer held by a `num_bigint::BigInt`.
pub uninterp spec fn int_of(x: num_bigint::BigInt) -> int;

/// Relies on `BigInt::from::<i32>`: converts the machine integer exactly.
#[verifier::external_body]
pub(crate) fn int_from_i32(v: i32) -> (r: num_bigint::BigInt)
    ensures
        int_of(r) == v as int,
{
    num_bigint::BigInt::from(v)
}

/// Relies on `<BigInt as Clone>::clone`: the copy holds the same value.
pub assume_specification[ <num_bigint::BigInt as Clone>::clone ](
    x: &num_bigint::BigInt,
) -> (r: num_bigint::BigInt)
    ensures
        int_of(r) == int_of(*x),
;

/// Relies on `<BigInt as num_traits::Zero>::is_zero`.
#[verifier::external_body]
pub(crate) fn int_is_zero(x: &num_bigint::BigInt) -> (r: bool)
    ensures
        r <==> int_of(*x) == 0,
{
    x.is_zero()
}

/// Relies on `<BigInt as num_traits::Signed>::is_negative`
/// (zero is not negative).
#[verifier::external_body]
pub(crate) fn int_is_negative(x: &num_bigint::BigInt) -> (r: bool)
    ensures
        r <==> int_of(*x) < 0,
{
    x.is_negative()
}

/// Relies on `Add for &BigInt`: exact addition.
#[verifier::external_body]
pub(crate) fn int_add(a: &num_bigint::BigInt, b: &num_bigint::BigInt) -> (r: num_bigint::BigInt)
    ensures
        int_of(r) == int_of(*a) + int_of(*b),
{
    a + b
}

/// Relies on `Mul for &BigInt`: exact multiplication.
#[verifier::external_body]
pub(crate) fn int_mul(a: &num_bigint::BigInt, b: &num_bigint::BigInt) -> (r: num_bigint::BigInt)
    ensures
        int_of(r) == int_of(*a) * int_of(*b),
{
    a * b
}

/// Relies on `Neg for &BigInt`: exact negation.
#[verifier::external_body]
pub(crate) fn int_neg(a: &num_bigint::BigInt) -> (r: num_bigint::BigInt)
    ensures
        int_of(r) == -int_of(*a),
{
    -a
}

/// Relies on `Rem<u32> for &BigInt`: remainder of truncated division (the
/// sign follows the dividend), converted through
/// `num_traits::ToPrimitive::to_i64`, which cannot fail since the remainder's
/// magnitude is below the divisor's.
#[verifier::external_body]
pub(crate) fn int_rem_u32(x: &num_bigint::BigInt, d: u32) -> (r: i64)
    requires
        1 <= d,
    ensures
        r as int == trunc_rem(int_of(*x), d as int),
{
    (x % d).to_i64().unwrap()
}

/// Relies on `Div<u32> for &BigInt`: truncated division (rounds toward zero).
#[verifier::external_body]
pub(crate) fn int_div_u32(x: &num_bigint::BigInt, d: u32) -> (r: num_bigint::BigInt)
    requires
        1 <= d,
    ensures
        int_of(r) == trunc_div(int_of(*x), d as int),
{
    x / d
}

/// Relies on `Rem for &BigInt`: remainder of truncated division (the sign
/// follows the dividend).
#[verifier::external_body]
pub(crate) fn int_rem_big(a: &num_bigint::BigInt, m: &num_bigint::BigInt) -> (r: num_bigint::BigInt)
    requires
        0 < int_of(*m),
    ensures
        int_of(r) == trunc_rem(int_of(*a), int_of(*m)),
{
    a % m
}

/// Relies on `BigInt::iter_u64_digits`: the little-endian 64-bit digits of
/// the magnitude; the first digit is the value's low 64 bits, and the
/// iterator is empty exactly for zero.
#[verifier::external_body]
pub(crate) fn int_low_u64(x: &num_bigint::BigInt) -> (r: u64)
    requires
        0 <= int_of(*x),
    ensures
        r as int == int_of(*x) % 0x1_0000_0000_0000_0000,
{
    x.iter_u64_digits().next().unwrap_or(0)
}

/// Relies on `<BigInt as Display>`, via `ToString`: the decimal rendering,
/// with a leading `-` for negative values and `0` for zero.
#[verifier::external_body]
pub(crate) fn int_to_string(x: &num_bigint::BigInt) -> (r: String)
    ensures
        r@ == decimal_rep(int_of(*x)),
{
    x.to_string()
}

} // verus!
