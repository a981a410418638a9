//! Decimal renderings, as specification sequences of characters, together
//! with the trusted wrappers for the standard library's integer formatting.

use vstd::prelude::*;

verus! {

/// The character for one decimal digit.
pub open spec fn digit_char(d: int) -> char {
    if d == 0 {
        '0'
    } else if d == 1 {
        '1'
    } else if d == 2 {
        '2'
    } else if d == 3 {
        '3'
    } else if d == 4 {
        '4'
    } else if d == 5 {
        '5'
    } else if d == 6 {
        '6'
    } else if d == 7 {
        '7'
    } else if d == 8 {
        '8'
    } else {
        '9'
    }
}

/// The decimal digits of a nonnegative integer, most significant first,
/// without leading zeros (zero itself renders as `0`).
pub open spec fn dec_digits(m: nat) -> Seq<char>
    decreases m,
{
    if m < 10 {
        seq![digit_char(m as int)]
    } else {
        dec_digits(m / 10).push(digit_char((m % 10) as int))
    }
}

/// The decimal rendering of an integer: a `-` prefix for negative values.
pub open spec fn decimal_rep(n: int) -> Seq<char> {
    if n < 0 {
        seq!['-'] + dec_digits((-n) as nat)
    } else {
        dec_digits(n as nat)
    }
}

/// Relies on `<i16 as Display>`, via `ToString`: the decimal rendering.
#[verifier::external_body]
pub(crate) fn i16_to_string(v: i16) -> (r: String)
    ensures
        r@ == decimal_rep(v as int),
{
    v.to_string()
}

/// Relies on `<u64 as Display>`, via `ToString`: the decimal rendering.
#[verifier::external_body]
pub(crate) fn u64_to_string(v: u64) -> (r: String)
    ensures
        r@ == decimal_rep(v as int),
{
    v.to_string()
}

} // verus!
