//! The algebraic laws of normalization and addition, stated over the same
//! specification functions the operations' contracts use.

use vstd::prelude::*;
use vstd::arithmetic::power::pow;
use vstd::arithmetic::power::lemma_pow0;
use vstd::arithmetic::power::lemma_pow_positive;
use vstd::arithmetic::div_mod::lemma_div_multiples_vanish;
use crate::arith::added;
use crate::arith::lemma_padic_decomposition;
use crate::arith::lemma_padic_mul_pow;
use crate::arith::padic_val;
use crate::arith::simplified_num;
use crate::arith::simplified_val;

verus! {

/// Dividing an exact multiple by its factor gives the cofactor back.
proof fn lemma_cancel_factor(m: int, f: int)
    requires
        0 < f,
    ensures
        (m * f) / f == m,
{
    lemma_div_multiples_vanish(m, f);
    assert(f * m == m * f) by (nonlinear_arith);
}

/// Normalization is idempotent: a pair already in canonical form is left
/// exactly as it is, so normalizing twice equals normalizing once.
pub proof fn lemma_simplify_idempotent(p: int, n: int, v: int)
    requires
        2 <= p,
    ensures
        simplified_num(p, simplified_num(p, n)) == simplified_num(p, n),
        simplified_val(p, simplified_num(p, n), simplified_val(p, n, v)) == simplified_val(
            p,
            n,
            v,
        ),
{
    if n != 0 {
        lemma_padic_decomposition(p, n);
        let sn = simplified_num(p, n);
        assert(padic_val(p, sn) == 0);
        lemma_pow0(p);
        lemma_cancel_factor(sn, 1);
        assert(sn / pow(p, padic_val(p, sn)) == sn);
    }
}

/// Adding the canonical zero to a canonical value gives the value back, up
/// to normalization: the sum's canonical form is exactly the original pair.
pub proof fn lemma_add_zero(p: int, n: int, v: int)
    requires
        2 <= p,
        n != 0 ==> n % p != 0,
        n == 0 ==> v == 0,
    ensures
        simplified_num(p, added(p, n, v, 0, 0).0) == n,
        simplified_val(p, added(p, n, v, 0, 0).0, added(p, n, v, 0, 0).1) == v,
{
    if n == 0 {
    } else if v < 0 {
        let e = (0 - v) as nat;
        assert(added(p, n, v, 0, 0).0 == n + 0 * pow(p, e));
        assert(0 * pow(p, e) == 0) by (nonlinear_arith);
        assert(padic_val(p, n) == 0);
        lemma_pow0(p);
        lemma_cancel_factor(n, 1);
    } else if v > 0 {
        let e = v as nat;
        let rn = n * pow(p, e);
        assert(added(p, n, v, 0, 0) == (0 + rn, 0int));
        lemma_padic_mul_pow(p, n, e);
        assert(padic_val(p, rn) == e);
        lemma_pow_positive(p, e);
        lemma_cancel_factor(n, pow(p, e));
        assert(simplified_num(p, rn) == n);
        assert(simplified_val(p, rn, 0) == v);
    } else {
        assert(added(p, n, v, 0, 0).0 == simplified_num(p, n + 0));
        assert(padic_val(p, n) == 0);
        lemma_pow0(p);
        lemma_cancel_factor(n, 1);
    }
}

/// A value plus its negation is the canonical zero.
pub proof fn lemma_add_opposite(p: int, n: int, v: int)
    ensures
        added(p, n, v, -n, v) == (0int, 0int),
{
    assert(added(p, n, v, -n, v).0 == simplified_num(p, n + -n));
}

} // verus!
