//! Exact p-adic arithmetic for a fixed prime `p`.
//!
//! A value is a pair `(numerator, valuation)` denoting
//! `numerator * p^valuation`, with an arbitrary-precision numerator and a
//! 16-bit valuation. The crate provides canonical-form normalization, the
//! arithmetic that preserves it, and a compact binary codec for values.

pub mod arith;
pub mod big;
pub mod codec;
pub mod laws;
pub mod ops;
pub mod text;
pub mod value;
