//! Fermat's little theorem: for a prime `p` and a base `a` coprime to it,
//! `a^(p-1) mod p` is 1. The proof goes through the binomial theorem.

use crate::number_theory::{gcd, is_prime, is_viable_witness, passes_fermat};
use vstd::arithmetic::div_mod::{lemma_fundamental_div_mod, lemma_mod_multiples_basic};
use vstd::arithmetic::power::pow;
use vstd::prelude::*;

verus! {

/// The binomial coefficient `n` choose `k`, by Pascal's rule.
pub open spec fn binom(n: nat, k: nat) -> nat
    decreases n,
{
    if k == 0 {
        1
    } else if n == 0 {
        0
    } else {
        binom((n - 1) as nat, (k - 1) as nat) + binom((n - 1) as nat, k)
    }
}

/// The sum of `binom(n, i) * a^i` for `i` from 0 to `j`.
pub open spec fn binom_sum(a: int, n: nat, j: nat) -> int
    decreases j,
{
    if j == 0 {
        1
    } else {
        binom_sum(a, n, (j - 1) as nat) + binom(n, j) * pow(a, j)
    }
}

proof fn lemma_pow_step(b: int, e: nat)
    ensures
        pow(b, e + 1) == b * pow(b, e),
{
    reveal(pow);
}

proof fn lemma_binom_above(n: nat, k: nat)
    requires
        k > n,
    ensures
        binom(n, k) == 0,
    decreases n,
{
    if n > 0 {
        lemma_binom_above((n - 1) as nat, (k - 1) as nat);
        lemma_binom_above((n - 1) as nat, k);
    }
}

proof fn lemma_binom_diagonal(n: nat)
    ensures
        binom(n, n) == 1,
    decreases n,
{
    if n > 0 {
        lemma_binom_diagonal((n - 1) as nat);
        lemma_binom_above((n - 1) as nat, n);
    }
}

/// `binom_sum(a, n + 1, j) == binom_sum(a, n, j) + a * binom_sum(a, n, j - 1)`.
proof fn lemma_binom_sum_step(a: int, n: nat, j: nat)
    requires
        j >= 1,
    ensures
        binom_sum(a, n + 1, j) == binom_sum(a, n, j) + a * binom_sum(a, n, (j - 1) as nat),
    decreases j,
{
    lemma_pow_step(a, (j - 1) as nat);
    let cn = binom(n, j);
    let cm = binom(n, (j - 1) as nat);
    let pj = pow(a, j);
    let pm = pow(a, (j - 1) as nat);
    assert(binom(n + 1, j) == cm + cn);
    if j == 1 {
        assert(pm == 1) by {
            reveal(pow);
        }
        assert(cm == 1);
        assert(binom_sum(a, n + 1, 0) == 1);
        assert(binom_sum(a, n, 0) == 1);
        assert(binom_sum(a, n + 1, j) == 1 + (cm + cn) * pj);
        assert(binom_sum(a, n, j) == 1 + cn * pj);
        assert((cm + cn) * pj == cn * pj + a) by (nonlinear_arith)
            requires
                pj == a * pm,
                pm == 1,
                cm == 1,
        ;
    } else {
        lemma_binom_sum_step(a, n, (j - 1) as nat);
        let s1 = binom_sum(a, n, (j - 1) as nat);
        let s2 = binom_sum(a, n, (j - 2) as nat);
        assert(binom_sum(a, n, (j - 1) as nat) == s2 + cm * pm);
        assert((cm + cn) * pj + a * s2 == cn * pj + a * (s2 + cm * pm)) by (nonlinear_arith)
            requires
                pj == a * pm,
        ;
    }
}

/// The binomial theorem for `(a + 1)^n`.
proof fn lemma_binomial_theorem(a: int, n: nat)
    ensures
        pow(a + 1, n) == binom_sum(a, n, n),
    decreases n,
{
    if n == 0 {
        reveal(pow);
    } else {
        let m = (n - 1) as nat;
        lemma_binomial_theorem(a, m);
        lemma_pow_step(a + 1, m);
        lemma_binom_sum_step(a, m, n);
        lemma_binom_above(m, n);
        assert(binom_sum(a, m, n) == binom_sum(a, m, m));
        assert((a + 1) * binom_sum(a, m, m) == binom_sum(a, m, m) + a * binom_sum(a, m, m))
            by (nonlinear_arith);
    }
}

/// `k * binom(n, k) == n * binom(n - 1, k - 1)`.
proof fn lemma_binom_absorption(n: nat, k: nat)
    requires
        n >= 1,
        k >= 1,
    ensures
        k * binom(n, k) == n * binom((n - 1) as nat, (k - 1) as nat),
    decreases n,
{
    let n1 = (n - 1) as nat;
    let k1 = (k - 1) as nat;
    if n == 1 {
        if k > 1 {
            lemma_binom_above(1, k);
            lemma_binom_above(0, k1);
        }
    } else {
        let n2 = (n - 2) as nat;
        assert(binom(n, k) == binom(n1, k1) + binom(n1, k));
        lemma_binom_absorption(n1, k);
        assert(k * binom(n1, k) == n1 * binom(n2, k1));
        if k == 1 {
            assert(binom(n1, 0) == 1);
            assert(binom(n2, 0) == 1);
            assert(k * binom(n, k) == n1 + 1) by (nonlinear_arith)
                requires
                    k == 1,
                    binom(n, k) == binom(n1, k1) + binom(n1, k),
                    binom(n1, k1) == 1,
                    k * binom(n1, k) == n1 * binom(n2, k1),
                    binom(n2, k1) == 1,
            ;
        } else {
            let k2 = (k - 2) as nat;
            lemma_binom_absorption(n1, k1);
            assert(k1 * binom(n1, k1) == n1 * binom(n2, k2));
            assert(binom(n1, k1) == binom(n2, k2) + binom(n2, k1));
            assert(k * binom(n, k) == n * binom(n1, k1)) by (nonlinear_arith)
                requires
                    binom(n, k) == binom(n1, k1) + binom(n1, k),
                    k * binom(n1, k) == n1 * binom(n2, k1),
                    k1 * binom(n1, k1) == n1 * binom(n2, k2),
                    binom(n1, k1) == binom(n2, k2) + binom(n2, k1),
                    k1 + 1 == k,
                    n1 + 1 == n,
            ;
        }
    }
}

/// Bezout's identity: `a * r.0 + b * r.1 == gcd(a, b)`.
proof fn lemma_bezout(a: nat, b: nat) -> (r: (int, int))
    ensures
        a * r.0 + b * r.1 == gcd(a, b),
    decreases b,
{
    if b == 0 {
        (1, 0)
    } else {
        let (x, y) = lemma_bezout(b, a % b);
        lemma_fundamental_div_mod(a as int, b as int);
        let q = (a / b) as int;
        assert(a * y + b * (x - q * y) == b * x + (a % b) * y) by (nonlinear_arith)
            requires
                a == b * q + (a % b),
        ;
        (y, x - q * y)
    }
}

/// `gcd(a, b)` divides both: `gcd(a, b) * r.0 == a` and `gcd(a, b) * r.1 == b`.
proof fn lemma_gcd_divides(a: nat, b: nat) -> (r: (nat, nat))
    ensures
        gcd(a, b) * r.0 == a,
        gcd(a, b) * r.1 == b,
    decreases b,
{
    if b == 0 {
        (1, 0)
    } else {
        let g = gcd(a, b);
        let (q1, q2) = lemma_gcd_divides(b, a % b);
        lemma_fundamental_div_mod(a as int, b as int);
        let q = a / b;
        assert(g * (q1 * q + q2) == a) by (nonlinear_arith)
            requires
                g * q1 == b,
                g * q2 == a % b,
                a == b * q + (a % b),
        ;
        (q1 * q + q2, q1)
    }
}

/// A number coprime to `p` that divides out of a multiple of `p`.
proof fn lemma_cancel_coprime(a: nat, p: nat, c: int, m: int)
    requires
        p > 0,
        gcd(a, p) == 1,
        a * c == p * m,
    ensures
        c % (p as int) == 0,
{
    let (x, y) = lemma_bezout(a, p);
    assert(c == (m * x + c * y) * p) by (nonlinear_arith)
        requires
            a * x + p * y == 1,
            a * c == p * m,
    ;
    lemma_mod_multiples_basic(m * x + c * y, p as int);
}

/// Every number in `[1, p)` is coprime to a prime `p`.
proof fn lemma_coprime_to_prime(k: nat, p: nat)
    requires
        is_prime(p),
        1 <= k < p,
    ensures
        gcd(k, p) == 1,
{
    let g = gcd(k, p);
    let (q1, q2) = lemma_gcd_divides(k, p);
    assert(g != 0 && g <= k) by (nonlinear_arith)
        requires
            g * q1 == k,
            k >= 1,
    ;
    if g >= 2 {
        lemma_mod_multiples_basic(q2 as int, g as int);
        assert(p % g == 0) by (nonlinear_arith)
            requires
                g * q2 == p,
                ((q2 * g) as int) % (g as int) == 0,
        ;
    }
}

/// Below `p`, the terms of the binomial sum for a prime `p` add up to 1 plus a
/// multiple of `p`: `binom_sum(a, p, j) == 1 + p * m`.
proof fn lemma_inner_terms(a: int, p: nat, j: nat) -> (m: int)
    requires
        is_prime(p),
        j < p,
    ensures
        binom_sum(a, p, j) == 1 + p * m,
    decreases j,
{
    if j == 0 {
        0
    } else {
        let m0 = lemma_inner_terms(a, p, (j - 1) as nat);
        let c = binom(p, j);
        let t = binom((p - 1) as nat, (j - 1) as nat);
        lemma_binom_absorption(p, j);
        lemma_coprime_to_prime(j, p);
        lemma_cancel_coprime(j, p, c as int, t as int);
        lemma_fundamental_div_mod(c as int, p as int);
        let u = (c as int) / (p as int);
        let pj = pow(a, j);
        assert(binom_sum(a, p, j) == 1 + p * (m0 + u * pj)) by (nonlinear_arith)
            requires
                binom_sum(a, p, j) == binom_sum(a, p, (j - 1) as nat) + c * pj,
                binom_sum(a, p, (j - 1) as nat) == 1 + p * m0,
                c == p * u,
        ;
        m0 + u * pj
    }
}

/// `a^p == a + p * m` for a prime `p`.
proof fn lemma_pow_prime(a: nat, p: nat) -> (m: int)
    requires
        is_prime(p),
    ensures
        pow(a as int, p) == a + p * m,
    decreases a,
{
    if a == 0 {
        lemma_pow_step(0, (p - 1) as nat);
        0
    } else {
        let b = (a - 1) as nat;
        let m0 = lemma_pow_prime(b, p);
        lemma_binomial_theorem(b as int, p);
        let m1 = lemma_inner_terms(b as int, p, (p - 1) as nat);
        lemma_binom_diagonal(p);
        assert(binom_sum(b as int, p, p) == binom_sum(b as int, p, (p - 1) as nat) + pow(
            b as int,
            p,
        ));
        assert(pow(a as int, p) == a + p * (m0 + m1)) by (nonlinear_arith)
            requires
                pow(a as int, p) == binom_sum(b as int, p, (p - 1) as nat) + pow(b as int, p),
                binom_sum(b as int, p, (p - 1) as nat) == 1 + p * m1,
                pow(b as int, p) == b + p * m0,
                a == b + 1,
        ;
        m0 + m1
    }
}

/// Fermat's little theorem: every base that is viable for a prime passes.
pub proof fn lemma_fermat_little(a: nat, p: nat)
    requires
        is_prime(p),
        is_viable_witness(a, p),
    ensures
        passes_fermat(a, p),
{
    let e = (p - 1) as nat;
    let m = lemma_pow_prime(a, p);
    lemma_pow_step(a as int, e);
    let q = pow(a as int, e);
    let c = q - 1;
    assert(a * c == p * m) by (nonlinear_arith)
        requires
            a * q == a + p * m,
            c == q - 1,
    ;
    lemma_cancel_coprime(a, p, c, m);
    lemma_fundamental_div_mod(c, p as int);
    let u = c / (p as int);
    assert(q == p * u + 1);
    lemma_mod_multiples_basic(u, p as int);
    vstd::arithmetic::div_mod::lemma_small_mod(1, p);
    vstd::arithmetic::div_mod::lemma_mod_add_multiples_vanish(1, p as int);
    assert(q % (p as int) == 1) by {
        vstd::arithmetic::div_mod::lemma_mod_multiples_vanish(u, 1, p as int);
    }
}

} // verus!
