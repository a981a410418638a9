//! The number theory behind canonical forms: truncated division, the p-adic
//! valuation of an integer, primality, and the lemmas the operations rely on.

use vstd::prelude::*;
use vstd::math::abs;
use vstd::arithmetic::power::pow;
use vstd::arithmetic::power::lemma_pow_positive;
use vstd::arithmetic::div_mod::lemma_fundamental_div_mod;
use vstd::arithmetic::div_mod::lemma_fundamental_div_mod_converse_mod;
use vstd::arithmetic::div_mod::lemma_div_multiples_vanish;
use vstd::arithmetic::div_mod::lemma_mod_multiples_basic;
use vstd::arithmetic::div_mod::lemma_mul_mod_noop;
use vstd::arithmetic::div_mod::lemma_small_mod;

verus! {

/// Quotient of division truncated toward zero, for a positive divisor.
pub open spec fn trunc_div(a: int, d: int) -> int
    recommends
        0 < d,
{
    if a >= 0 {
        a / d
    } else {
        -((-a) / d)
    }
}

/// Remainder of division truncated toward zero: its sign follows the
/// dividend, unlike `%` on `int`, which is always nonnegative.
pub open spec fn trunc_rem(a: int, d: int) -> int
    recommends
        0 < d,
{
    if a >= 0 {
        a % d
    } else {
        -((-a) % d)
    }
}

/// The truncated remainder vanishes exactly when the Euclidean one does.
pub proof fn lemma_trunc_rem_zero(a: int, d: int)
    requires
        0 < d,
    ensures
        trunc_rem(a, d) == 0 <==> a % d == 0,
{
    if a < 0 {
        if (-a) % d == 0 {
            lemma_fundamental_div_mod(-a, d);
            let t = -((-a) / d);
            assert(a == t * d) by (nonlinear_arith)
                requires
                    -a == d * ((-a) / d) + (-a) % d,
                    (-a) % d == 0,
                    t == -((-a) / d),
            ;
            lemma_mod_multiples_basic(t, d);
        }
        if a % d == 0 {
            lemma_fundamental_div_mod(a, d);
            let t = -(a / d);
            assert(-a == t * d) by (nonlinear_arith)
                requires
                    a == d * (a / d) + a % d,
                    a % d == 0,
                    t == -(a / d),
            ;
            lemma_mod_multiples_basic(t, d);
        }
    }
}

/// When the divisor divides the dividend, truncated division is exact and
/// agrees with Euclidean division.
pub proof fn lemma_trunc_div_exact(a: int, d: int)
    requires
        0 < d,
        a % d == 0,
    ensures
        trunc_div(a, d) * d == a,
        trunc_div(a, d) == a / d,
{
    lemma_trunc_rem_zero(a, d);
    if a >= 0 {
        lemma_fundamental_div_mod(a, d);
        assert(d * (a / d) == (a / d) * d) by (nonlinear_arith);
    } else {
        lemma_fundamental_div_mod(-a, d);
        assert(trunc_div(a, d) * d == a) by (nonlinear_arith)
            requires
                -a == d * ((-a) / d) + (-a) % d,
                (-a) % d == 0,
                trunc_div(a, d) == -((-a) / d),
        ;
        lemma_div_multiples_vanish(trunc_div(a, d), d);
        assert(d * trunc_div(a, d) == trunc_div(a, d) * d) by (nonlinear_arith);
    }
}

/// Folding a negative truncated remainder into the positive range yields the
/// Euclidean remainder.
pub proof fn lemma_trunc_rem_fold(a: int, d: int)
    requires
        0 < d,
    ensures
        trunc_rem(a, d) < 0 ==> trunc_rem(a, d) + d == a % d,
        trunc_rem(a, d) >= 0 ==> trunc_rem(a, d) == a % d,
{
    if a < 0 {
        let r = (-a) % d;
        lemma_fundamental_div_mod(-a, d);
        if r == 0 {
            lemma_trunc_rem_zero(a, d);
        } else {
            let q = -((-a) / d) - 1;
            assert(a == q * d + (d - r)) by (nonlinear_arith)
                requires
                    -a == d * ((-a) / d) + r,
                    q == -((-a) / d) - 1,
            ;
            lemma_fundamental_div_mod_converse_mod(a, d, q, d - r);
        }
    }
}

/// How many times `p` divides `n`: the exponent of `p` in `n`'s
/// factorization, zero when `p` does not divide `n`.
pub open spec fn padic_val(p: int, n: int) -> nat
    recommends
        2 <= p,
        n != 0,
    decreases abs(n),
        when 2 <= p && n != 0
        via padic_val_decreases
{
    if n % p != 0 {
        0
    } else {
        (1 + padic_val(p, n / p)) as nat
    }
}

#[via_fn]
proof fn padic_val_decreases(p: int, n: int) {
    if 2 <= p && n != 0 && n % p == 0 {
        lemma_div_shrinks(p, n);
    }
}

/// Dividing a nonzero multiple of `p >= 2` by `p` strictly shrinks its
/// magnitude and keeps it nonzero.
pub proof fn lemma_div_shrinks(p: int, n: int)
    requires
        2 <= p,
        n != 0,
        n % p == 0,
    ensures
        abs(n / p) < abs(n),
        n / p != 0,
        (n / p) * p == n,
{
    lemma_fundamental_div_mod(n, p);
    let q = n / p;
    assert(n == q * p && q != 0) by (nonlinear_arith)
        requires
            n == p * q + n % p,
            n % p == 0,
            n != 0,
    ;
    if n > 0 {
        assert(0 < q < n) by (nonlinear_arith)
            requires
                n == q * p,
                2 <= p,
                q != 0,
                n > 0,
        ;
    } else {
        assert(n < q < 0) by (nonlinear_arith)
            requires
                n == q * p,
                2 <= p,
                q != 0,
                n < 0,
        ;
    }
}

/// The factorization that the p-adic valuation names: `n` is `p^k` times a
/// quotient that `p` no longer divides.
pub proof fn lemma_padic_decomposition(p: int, n: int)
    requires
        2 <= p,
        n != 0,
    ensures
        0 < pow(p, padic_val(p, n)),
        n % pow(p, padic_val(p, n)) == 0,
        (n / pow(p, padic_val(p, n))) * pow(p, padic_val(p, n)) == n,
        (n / pow(p, padic_val(p, n))) % p != 0,
        n / pow(p, padic_val(p, n)) != 0,
    decreases abs(n),
{
    reveal(pow);
    let k = padic_val(p, n);
    lemma_pow_positive(p, k);
    if n % p != 0 {
        assert(pow(p, 0) == 1);
        lemma_small_mod(0, 1);
        assert(n % 1 == 0) by {
            lemma_mod_multiples_basic(n, 1);
        }
        lemma_div_multiples_vanish(n, 1);
        assert(n / 1 == n);
    } else {
        lemma_div_shrinks(p, n);
        let q = n / p;
        lemma_padic_decomposition(p, q);
        let k1 = padic_val(p, q);
        let m = q / pow(p, k1);
        assert(k == 1 + k1);
        assert(pow(p, k) == p * pow(p, k1));
        assert(n == m * pow(p, k)) by (nonlinear_arith)
            requires
                q == m * pow(p, k1) || m * pow(p, k1) == q,
                n == q * p,
                pow(p, k) == p * pow(p, k1),
        ;
        lemma_mod_multiples_basic(m, pow(p, k));
        lemma_div_multiples_vanish(m, pow(p, k));
        assert(pow(p, k) * m == m * pow(p, k)) by (nonlinear_arith);
        assert(n / pow(p, k) == m);
    }
}

/// Multiplying by `p^k` raises the p-adic valuation by exactly `k`.
pub proof fn lemma_padic_mul_pow(p: int, n: int, k: nat)
    requires
        2 <= p,
        n != 0,
    ensures
        n * pow(p, k) != 0,
        padic_val(p, n * pow(p, k)) == padic_val(p, n) + k,
    decreases k,
{
    reveal(pow);
    lemma_pow_positive(p, k);
    if k == 0 {
        assert(pow(p, 0) == 1);
        assert(n * 1 == n) by (nonlinear_arith);
    } else {
        let k1 = (k - 1) as nat;
        lemma_pow_positive(p, k1);
        lemma_padic_mul_pow(p, n, k1);
        let m = n * pow(p, k1);
        let w = n * pow(p, k);
        assert(pow(p, k) == p * pow(p, k1));
        assert(w == m * p && w != 0) by (nonlinear_arith)
            requires
                w == n * pow(p, k),
                m == n * pow(p, k1),
                pow(p, k) == p * pow(p, k1),
                m != 0,
                2 <= p,
        ;
        lemma_mod_multiples_basic(m, p);
        assert(w % p == 0);
        lemma_div_multiples_vanish(m, p);
        assert(p * m == m * p) by (nonlinear_arith);
        assert(w / p == m);
        assert(padic_val(p, w) == 1 + padic_val(p, m));
    }
}

/// `p^k` can be no larger than the magnitude of the number it divides.
pub proof fn lemma_padic_bound(p: int, n: int)
    requires
        2 <= p,
        n != 0,
    ensures
        pow(p, padic_val(p, n)) <= abs(n),
    decreases abs(n),
{
    reveal(pow);
    let k = padic_val(p, n);
    if n % p != 0 {
        assert(pow(p, 0) == 1);
    } else {
        lemma_div_shrinks(p, n);
        let q = n / p;
        lemma_padic_bound(p, q);
        let k1 = padic_val(p, q);
        lemma_pow_positive(p, k1);
        assert(pow(p, k) == p * pow(p, k1));
        assert(p * pow(p, k1) <= abs(n)) by (nonlinear_arith)
            requires
                pow(p, k1) <= abs(q),
                0 < pow(p, k1),
                n == q * p,
                2 <= p,
                abs(q) == if q >= 0 { q } else { -q },
                abs(n) == if n >= 0 { n } else { -n },
        ;
    }
}

/// A smaller base never gives a larger power.
pub proof fn lemma_pow_base_mono(b1: int, b2: int, e: nat)
    requires
        1 <= b1 <= b2,
    ensures
        pow(b1, e) <= pow(b2, e),
    decreases e,
{
    reveal(pow);
    lemma_pow_positive(b1, e);
    lemma_pow_positive(b2, e);
    if e > 0 {
        let e1 = (e - 1) as nat;
        lemma_pow_base_mono(b1, b2, e1);
        lemma_pow_positive(b1, e1);
        lemma_pow_positive(b2, e1);
        assert(b1 * pow(b1, e1) <= b2 * pow(b2, e1)) by (nonlinear_arith)
            requires
                pow(b1, e1) <= pow(b2, e1),
                0 < pow(b1, e1),
                1 <= b1 <= b2,
        ;
    }
}

/// The p-adic valuation of a 32-bit integer is at most 31.
pub proof fn lemma_padic_val_i32(p: int, n: int)
    requires
        2 <= p,
        n != 0,
        abs(n) <= 0x8000_0000,
    ensures
        padic_val(p, n) <= 31,
{
    let k = padic_val(p, n);
    if k > 31 {
        lemma_padic_bound(p, n);
        lemma_pow_base_mono(2, p, k);
        assert(pow(2, 32) <= pow(2, k)) by {
            vstd::arithmetic::power::lemma_pow_increases(2, 32, k);
        }
        assert(pow(2, 32) == 0x1_0000_0000) by {
            vstd::arithmetic::power2::lemma_pow2(32);
            vstd::arithmetic::power2::lemma2_to64();
        }
    }
}

/// No integer in `2 .. p` divides a prime `p`.
pub open spec fn is_prime(p: int) -> bool {
    2 <= p && forall|d: int| 2 <= d < p ==> #[trigger] (p % d) != 0
}

/// Euclid's lemma for residues: if a prime `p` divides `a * b` and
/// `0 < a < p`, then `p` divides `b`.
proof fn lemma_euclid_step(p: int, a: int, b: int)
    requires
        is_prime(p),
        0 < a < p,
        (a * b) % p == 0,
    ensures
        b % p == 0,
    decreases a,
{
    if a == 1 {
        assert(1 * b == b) by (nonlinear_arith);
    } else {
        let q = p / a;
        let r = p % a;
        assert(p % a != 0);
        lemma_fundamental_div_mod(p, a);
        lemma_fundamental_div_mod(a * b, p);
        let t = (a * b) / p;
        assert(r * b == p * (b - q * t)) by (nonlinear_arith)
            requires
                p == a * q + r,
                a * b == p * t + (a * b) % p,
                (a * b) % p == 0,
        ;
        lemma_mod_multiples_basic(b - q * t, p);
        assert((b - q * t) * p == p * (b - q * t)) by (nonlinear_arith);
        assert((r * b) % p == 0);
        lemma_euclid_step(p, r, b);
    }
}

/// The product of two integers that a prime `p` does not divide is itself
/// not divisible by `p`.
pub proof fn lemma_prime_keeps_coprime(p: int, a: int, b: int)
    requires
        is_prime(p),
        a % p != 0,
        b % p != 0,
    ensures
        (a * b) % p != 0,
{
    if (a * b) % p == 0 {
        let a1 = a % p;
        let b1 = b % p;
        vstd::arithmetic::div_mod::lemma_mod_division_less_than_divisor(a, p);
        vstd::arithmetic::div_mod::lemma_mod_division_less_than_divisor(b, p);
        lemma_mul_mod_noop(a, b, p);
        assert((a1 * b1) % p == 0);
        lemma_euclid_step(p, a1, b1);
        lemma_small_mod(b1 as nat, p as nat);
        assert(false);
    }
}

/// Adding a multiple of `p^k`, `k >= 1`, does not change a residue mod `p`.
pub proof fn lemma_add_multiple_keeps_residue(p: int, a: int, b: int, k: nat)
    requires
        2 <= p,
        1 <= k,
    ensures
        (a + b * pow(p, k)) % p == a % p,
{
    reveal(pow);
    let k1 = (k - 1) as nat;
    assert(pow(p, k) == p * pow(p, k1));
    let c = b * pow(p, k1);
    assert(b * pow(p, k) == c * p) by (nonlinear_arith)
        requires
            pow(p, k) == p * pow(p, k1),
            c == b * pow(p, k1),
    ;
    lemma_mod_multiples_basic(c, p);
    vstd::arithmetic::div_mod::lemma_add_mod_noop_right(a, b * pow(p, k), p);
    assert((a + (b * pow(p, k)) % p) % p == (a + b * pow(p, k)) % p);
    vstd::arithmetic::div_mod::lemma_mod_twice(a, p);
}

/// The canonical numerator: `n` with every factor of `p` removed.
pub open spec fn simplified_num(p: int, n: int) -> int {
    if n == 0 {
        0
    } else {
        n / pow(p, padic_val(p, n))
    }
}

/// The canonical valuation: raised once for every factor of `p` removed
/// from the numerator, or reset to zero for the zero numerator.
pub open spec fn simplified_val(p: int, n: int, v: int) -> int {
    if n == 0 {
        0
    } else {
        v + padic_val(p, n)
    }
}

/// The sum of `(xn, xv)` and `(yn, yv)`: the operand with the larger
/// valuation is rescaled to the smaller one; at equal valuations the
/// numerators are summed and the pair is normalized.
pub open spec fn added(p: int, xn: int, xv: int, yn: int, yv: int) -> (int, int) {
    if xv < yv {
        (xn + yn * pow(p, (yv - xv) as nat), xv)
    } else if yv < xv {
        (yn + xn * pow(p, (xv - yv) as nat), yv)
    } else {
        (simplified_num(p, xn + yn), simplified_val(p, xn + yn, xv))
    }
}

} // verus!
