//! The operation context: a fixed prime, with the arithmetic and projection
//! operations over values that share that prime.

use vstd::prelude::*;
use vstd::arithmetic::power::pow;
use vstd::arithmetic::power::lemma_pow_positive;
use vstd::arithmetic::power::lemma_pow_increases;
use vstd::arithmetic::div_mod::lemma_mod_division_less_than_divisor;
use vstd::arithmetic::div_mod::lemma_div_multiples_vanish;
use vstd::arithmetic::div_mod::lemma_small_mod;
use vstd::string::StringExecFns;
use crate::arith::added;
use crate::arith::is_prime;
use crate::arith::lemma_add_multiple_keeps_residue;
use crate::arith::lemma_div_shrinks;
use crate::arith::lemma_padic_decomposition;
use crate::arith::lemma_padic_val_i32;
use crate::arith::lemma_prime_keeps_coprime;
use crate::arith::lemma_trunc_div_exact;
use crate::arith::lemma_trunc_rem_fold;
use crate::arith::lemma_trunc_rem_zero;
use crate::arith::padic_val;
use crate::arith::simplified_num;
use crate::arith::simplified_val;
use crate::big::int_add;
use crate::big::int_div_u32;
use crate::big::int_from_i32;
use crate::big::int_is_negative;
use crate::big::int_is_zero;
use crate::big::int_low_u64;
use crate::big::int_mul;
use crate::big::int_neg;
use crate::big::int_of;
use crate::big::int_rem_big;
use crate::big::int_rem_u32;
use crate::big::int_to_string;
use crate::text::decimal_rep;
use crate::text::i16_to_string;
use crate::text::u64_to_string;
use crate::value::Qp;
use crate::value::QpError;

verus! {

/// How many base-`p` digits the integer projection keeps.
pub const TRUNCATION_DIGITS: u32 = 40;

/// The operation context: an immutable prime, shared by every operation.
#[derive(Clone, Copy, Debug)]
pub struct QpOp {
    prime: i32,
}

impl QpOp {
    /// The configured prime, as a mathematical integer.
    pub closed spec fn prime_spec(&self) -> int {
        self.prime as int
    }

    /// A usable context: the prime is at least 2. Nothing checks primality
    /// itself; conclusions that need it say so explicitly.
    pub open spec fn wf(&self) -> bool {
        2 <= self.prime_spec()
    }

    /// Builds a context for the given prime; no validation is performed.
    pub fn new(prime: i32) -> (r: Self)
        ensures
            r.prime_spec() == prime as int,
    {
        Self { prime }
    }

    /// Returns the configured prime.
    pub fn prime(&self) -> (r: i32)
        ensures
            r as int == self.prime_spec(),
    {
        self.prime
    }

    /// `p^i` as a big integer, by repeated multiplication.
    pub fn power_p(&self, i: u32) -> (r: num_bigint::BigInt)
        ensures
            int_of(r) == pow(self.prime_spec(), i as nat),
    {
        let ghost p = self.prime_spec();
        let p_big = int_from_i32(self.prime);
        let mut res = int_from_i32(1);
        let mut j: u32 = 0;
        proof {
            vstd::arithmetic::power::lemma_pow0(p);
        }
        while j < i
            invariant
                j <= i,
                int_of(p_big) == p,
                int_of(res) == pow(p, j as nat),
            decreases i - j,
        {
            res = int_mul(&res, &p_big);
            proof {
                reveal(pow);
                assert(pow(p, (j + 1) as nat) == p * pow(p, j as nat));
            }
            j = j + 1;
        }
        res
    }

    /// `p^i` as a machine integer; the caller keeps the exponent small
    /// enough for the result to fit.
    pub fn power_p_int(&self, i: u32) -> (r: i32)
        requires
            self.wf(),
            pow(self.prime_spec(), i as nat) <= i32::MAX as int,
        ensures
            r as int == pow(self.prime_spec(), i as nat),
    {
        let ghost p = self.prime_spec();
        let mut res: i32 = 1;
        let mut j: u32 = 0;
        proof {
            vstd::arithmetic::power::lemma_pow0(p);
        }
        while j < i
            invariant
                self.wf(),
                p == self.prime_spec(),
                j <= i,
                res as int == pow(p, j as nat),
                pow(p, i as nat) <= i32::MAX as int,
            decreases i - j,
        {
            proof {
                reveal(pow);
                assert(pow(p, (j + 1) as nat) == p * pow(p, j as nat));
                lemma_pow_positive(p, j as nat);
                lemma_pow_increases(p as nat, (j + 1) as nat, i as nat);
                assert(res as int * p == p * pow(p, j as nat)) by (nonlinear_arith)
                    requires
                        res as int == pow(p, j as nat),
                ;
            }
            res = res * self.prime;
            j = j + 1;
        }
        res
    }

    /// Rewrites `x` into canonical form: a zero numerator gets valuation 0;
    /// otherwise every factor of `p` moves from the numerator into the
    /// valuation. The bound on the valuation is forced by its 16-bit field.
    pub fn simplify(&self, x: &mut Qp)
        requires
            self.wf(),
            old(x).num() != 0 ==> old(x).val() + padic_val(self.prime_spec(), old(x).num())
                <= i16::MAX as int,
        ensures
            final(x).num() == simplified_num(self.prime_spec(), old(x).num()),
            final(x).val() == simplified_val(self.prime_spec(), old(x).num(), old(x).val()),
            final(x).is_canonical(self.prime_spec()),
    {
        let ghost p = self.prime_spec();
        let ghost n0 = old(x).num();
        let ghost v0 = old(x).val();
        if int_is_zero(&x.numerator) {
            x.valuation = 0;
            return;
        }
        proof {
            lemma_padic_decomposition(p, n0);
            vstd::arithmetic::power::lemma_pow0(p);
            assert(n0 * 1 == n0) by (nonlinear_arith);
        }
        let pu: u32 = self.prime as u32;
        let mut r = int_rem_u32(&x.numerator, pu);
        while r == 0
            invariant
                self.wf(),
                p == self.prime_spec(),
                pu as int == p,
                n0 != 0,
                x.num() != 0,
                v0 <= x.val(),
                r as int == crate::arith::trunc_rem(x.num(), p),
                x.num() * pow(p, (x.val() - v0) as nat) == n0,
                padic_val(p, n0) == (x.val() - v0) + padic_val(p, x.num()),
                x.val() + padic_val(p, x.num()) <= i16::MAX as int,
            decreases vstd::math::abs(x.num()),
        {
            let ghost n_cur = x.num();
            let ghost e_cur = (x.val() - v0) as nat;
            proof {
                lemma_trunc_rem_zero(n_cur, p);
                lemma_trunc_div_exact(n_cur, p);
                lemma_div_shrinks(p, n_cur);
            }
            let q = int_div_u32(&x.numerator, pu);
            x.numerator = q;
            x.valuation = x.valuation + 1;
            r = int_rem_u32(&x.numerator, pu);
            proof {
                reveal(pow);
                assert(pow(p, (e_cur + 1) as nat) == p * pow(p, e_cur));
                assert(x.num() * pow(p, (e_cur + 1) as nat) == n_cur * pow(p, e_cur))
                    by (nonlinear_arith)
                    requires
                        x.num() * p == n_cur,
                        pow(p, (e_cur + 1) as nat) == p * pow(p, e_cur),
                ;
            }
        }
        proof {
            lemma_trunc_rem_zero(x.num(), p);
            let k = padic_val(p, n0);
            assert(padic_val(p, x.num()) == 0);
            assert(k == x.val() - v0);
            lemma_pow_positive(p, k);
            lemma_div_multiples_vanish(x.num(), pow(p, k));
            assert(pow(p, k) * x.num() == x.num() * pow(p, k)) by (nonlinear_arith);
            assert(x.num() == n0 / pow(p, k));
        }
    }

    /// The sum of `x` and `y`. With distinct valuations the operand with the
    /// larger one is rescaled by `p^d` and no normalization is needed; at
    /// equal valuations the sum of numerators is normalized, and the 16-bit
    /// valuation field forces the bound in the precondition.
    pub fn add(&self, x: &Qp, y: &Qp) -> (r: Qp)
        requires
            self.wf(),
            x.val() == y.val() && x.num() + y.num() != 0 ==> x.val() + padic_val(
                self.prime_spec(),
                x.num() + y.num(),
            ) <= i16::MAX as int,
        ensures
            (r.num(), r.val()) == added(self.prime_spec(), x.num(), x.val(), y.num(), y.val()),
            x.is_canonical(self.prime_spec()) && y.is_canonical(self.prime_spec()) && (x.val()
                < y.val() ==> x.num() != 0) && (y.val() < x.val() ==> y.num() != 0)
                ==> r.is_canonical(self.prime_spec()),
    {
        let ghost p = self.prime_spec();
        if x.valuation < y.valuation {
            let d: u32 = (y.valuation as i32 - x.valuation as i32) as u32;
            let scaled = int_mul(&y.numerator, &self.power_p(d));
            let z = Qp { numerator: int_add(&x.numerator, &scaled), valuation: x.valuation };
            proof {
                lemma_small_mod(0, p as nat);
                if x.num() != 0 && x.num() % p != 0 {
                    lemma_add_multiple_keeps_residue(p, x.num(), y.num(), d as nat);
                }
            }
            z
        } else if y.valuation < x.valuation {
            let d: u32 = (x.valuation as i32 - y.valuation as i32) as u32;
            let scaled = int_mul(&x.numerator, &self.power_p(d));
            let z = Qp { numerator: int_add(&y.numerator, &scaled), valuation: y.valuation };
            proof {
                lemma_small_mod(0, p as nat);
                if y.num() != 0 && y.num() % p != 0 {
                    lemma_add_multiple_keeps_residue(p, y.num(), x.num(), d as nat);
                }
            }
            z
        } else {
            let mut z = Qp {
                numerator: int_add(&x.numerator, &y.numerator),
                valuation: x.valuation,
            };
            self.simplify(&mut z);
            z
        }
    }

    /// The canonical zero value.
    pub fn zero(&self) -> (r: Qp)
        ensures
            r.num() == 0,
            r.val() == 0,
    {
        Qp { numerator: int_from_i32(0), valuation: 0 }
    }

    /// True exactly when the numerator is zero; the valuation is ignored.
    pub fn is_zero(&self, x: &Qp) -> (r: bool)
        ensures
            r <==> x.num() == 0,
    {
        int_is_zero(&x.numerator)
    }

    /// The negation of `x`: numerator negated, valuation kept.
    pub fn minus(&self, x: &Qp) -> (r: Qp)
        ensures
            r.num() == -x.num(),
            r.val() == x.val(),
    {
        Qp { numerator: int_neg(&x.numerator), valuation: x.valuation }
    }

    /// The product of `x` and `y`: numerators multiplied, valuations summed.
    /// When `p` is prime, the product of two numerators coprime to `p` stays
    /// coprime to `p`, so canonical nonzero inputs give a canonical result.
    pub fn multiply(&self, x: &Qp, y: &Qp) -> (r: Qp)
        requires
            i16::MIN as int <= x.val() + y.val() <= i16::MAX as int,
        ensures
            r.num() == x.num() * y.num(),
            r.val() == x.val() + y.val(),
            is_prime(self.prime_spec()) && x.num() % self.prime_spec() != 0 && y.num()
                % self.prime_spec() != 0 ==> r.num() % self.prime_spec() != 0,
    {
        let z = Qp {
            numerator: int_mul(&x.numerator, &y.numerator),
            valuation: x.valuation + y.valuation,
        };
        proof {
            let p = self.prime_spec();
            if is_prime(p) && x.num() % p != 0 && y.num() % p != 0 {
                lemma_prime_keeps_coprime(p, x.num(), y.num());
            }
        }
        z
    }

    /// The value of the plain integer `n`, in canonical form.
    pub fn unit(&self, n: i32) -> (r: Qp)
        requires
            self.wf(),
        ensures
            r.num() == simplified_num(self.prime_spec(), n as int),
            r.val() == simplified_val(self.prime_spec(), n as int, 0),
            r.is_canonical(self.prime_spec()),
    {
        let mut result = Qp { numerator: int_from_i32(n), valuation: 0 };
        proof {
            if n != 0 {
                lemma_padic_val_i32(self.prime_spec(), n as int);
            }
        }
        self.simplify(&mut result);
        result
    }

    /// True exactly when `x` is invertible in the field, that is, nonzero.
    pub fn invertible(&self, x: &Qp) -> (r: bool)
        ensures
            r <==> x.num() != 0,
    {
        !self.is_zero(x)
    }

    /// Multiplicative inverse is deliberately unsupported: every call
    /// reports `QpError::NotImplemented`.
    pub fn inverse(&self, _x: &Qp) -> (r: Result<Qp, QpError>)
        ensures
            r == Err::<Qp, QpError>(QpError::NotImplemented),
    {
        Err(QpError::NotImplemented)
    }

    /// Builds a value directly from its two fields, with no normalization:
    /// the result may violate canonical form.
    pub fn construct(&self, num: i32, val: i16) -> (r: Qp)
        ensures
            r.num() == num as int,
            r.val() == val as int,
    {
        Qp { numerator: int_from_i32(num), valuation: val }
    }

    /// The first `TRUNCATION_DIGITS` base-`p` digits of a p-adic integer,
    /// folded into the low 64 bits.
    pub open spec fn int_part_spec(&self, n: int, v: int) -> int
        recommends
            0 <= v,
    {
        ((n * pow(self.prime_spec(), v as nat)) % pow(
            self.prime_spec(),
            TRUNCATION_DIGITS as nat,
        )) % 0x1_0000_0000_0000_0000
    }

    /// The lossy integer projection of `x`: meaningful only for nonnegative
    /// valuations; a negative valuation is the domain error `NotIntegral`.
    pub fn int_part(&self, x: &Qp) -> (r: Result<u64, QpError>)
        requires
            self.wf(),
        ensures
            match r {
                Ok(w) => 0 <= x.val() && w as int == self.int_part_spec(x.num(), x.val()),
                Err(e) => x.val() < 0 && e == QpError::NotIntegral,
            },
    {
        let ghost p = self.prime_spec();
        if x.valuation < 0 {
            return Err(QpError::NotIntegral);
        }
        let pw = self.power_p(x.valuation as u32);
        let scaled = int_mul(&x.numerator, &pw);
        let modulus = self.power_p(TRUNCATION_DIGITS);
        proof {
            lemma_pow_positive(p, TRUNCATION_DIGITS as nat);
            lemma_trunc_rem_fold(int_of(scaled), int_of(modulus));
            lemma_mod_division_less_than_divisor(int_of(scaled), int_of(modulus));
        }
        let mut residue = int_rem_big(&scaled, &modulus);
        if int_is_negative(&residue) {
            residue = int_add(&residue, &modulus);
        }
        let w = int_low_u64(&residue);
        Ok(w)
    }

    /// Renders `x` exactly, as `<numerator>(<valuation>)`.
    pub fn output(&self, x: &Qp) -> (r: String)
        ensures
            r@ == decimal_rep(x.num()) + "("@ + decimal_rep(x.val()) + ")"@,
    {
        let n = int_to_string(&x.numerator);
        let v = i16_to_string(x.valuation);
        n.concat("(").concat(v.as_str()).concat(")")
    }

    /// Renders the integer projection of `x` in decimal; fails exactly as
    /// `int_part` does.
    pub fn output_integer(&self, x: &Qp) -> (r: Result<String, QpError>)
        requires
            self.wf(),
        ensures
            match r {
                Ok(s) => 0 <= x.val() && s@ == decimal_rep(
                    self.int_part_spec(x.num(), x.val()),
                ),
                Err(e) => x.val() < 0 && e == QpError::NotIntegral,
            },
    {
        match self.int_part(x) {
            Ok(w) => Ok(u64_to_string(w)),
            Err(e) => Err(e),
        }
    }
}

/// A ready-made context for the prime 3.
pub fn q3_op() -> (r: QpOp)
    ensures
        r.prime_spec() == 3,
        r.wf(),
{
    QpOp::new(3)
}

} // verus!
