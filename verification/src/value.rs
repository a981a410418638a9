//! The value representation: a pair `(numerator, valuation)` denoting the
//! number `numerator * p^valuation`, and the errors the operations report.

use vstd::prelude::*;
use crate::big::int_of;

verus! {

/// A p-adic value: the number `numerator * p^valuation` for the prime `p` of
/// the context it is used with. Canonical form (established by
/// normalization, not enforced by the type) keeps a nonzero numerator
/// coprime to `p`, and pairs a zero numerator with valuation zero.
#[derive(Clone, Debug, PartialEq, Eq)]
pub struct Qp {
    pub numerator: num_bigint::BigInt,
    pub valuation: i16,
}

impl Qp {
    /// The mathematical numerator.
    pub open spec fn num(&self) -> int {
        int_of(self.numerator)
    }

    /// The valuation, as a mathematical integer.
    pub open spec fn val(&self) -> int {
        self.valuation as int
    }

    /// Canonical form with respect to the prime `p`.
    pub open spec fn is_canonical(&self, p: int) -> bool {
        &&& self.num() != 0 ==> self.num() % p != 0
        &&& self.num() == 0 ==> self.val() == 0
    }
}

/// Everything an operation of this crate can report instead of a value.
#[derive(Clone, Copy, Debug, PartialEq, Eq, Structural)]
pub enum QpError {
    /// Multiplicative inverse is deliberately unsupported.
    NotImplemented,
    /// The value has a negative valuation, so it is not a p-adic integer.
    NotIntegral,
    /// The encoded numerator does not fit the 16-bit length field.
    NumeratorTooLong,
    /// A decoded record declares a negative numerator length.
    InvalidLength,
    /// The byte stream ends before the record does.
    Truncated,
}

} // verus!
