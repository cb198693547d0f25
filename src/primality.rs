//! The Fermat primality test.
//!
//! A `Composite` verdict on a candidate above 3 is certain: a base coprime to
//! the candidate broke Fermat's condition. A `Prime` verdict only means that
//! no base drawn broke it: some composites (Carmichael numbers among them)
//! pass for most or all coprime bases, so `Prime` reads "probably prime".

use crate::bignat::BigNat;
use crate::fermat_little::lemma_fermat_little;
use crate::number_theory::{is_prime, is_viable_witness, lemma_predecessor_is_viable, passes_fermat};
use vstd::prelude::*;

verus! {

/// How many random draws a witness may take before the fallback base is used.
pub const MAX_DRAWS: u32 = 1000;

/// The outcome of a test, holding the candidate unchanged.
#[derive(Debug, Clone, PartialEq, Eq)]
pub enum Primality {
    Prime(BigNat),
    Composite(BigNat),
}

impl Primality {
    /// The candidate that the verdict is about.
    pub open spec fn candidate(self) -> BigNat {
        match self {
            Primality::Prime(x) => x,
            Primality::Composite(x) => x,
        }
    }
}

/// The bases `ws` that a test of `x` with `k` rounds drew, in order: each is
/// viable, and the test stops early only at the first base that fails.
pub open spec fn is_fermat_run(x: nat, k: nat, ws: Seq<nat>) -> bool {
    &&& ws.len() <= k
    &&& forall|i: int| 0 <= i < ws.len() ==> is_viable_witness(#[trigger] ws[i], x)
    &&& forall|i: int| 0 <= i < ws.len() - 1 ==> passes_fermat(#[trigger] ws[i], x)
    &&& ws.len() < k ==> ws.len() > 0 && !passes_fermat(ws.last(), x)
}

/// Some base among `ws` fails Fermat's condition for `x`.
pub open spec fn exposes_composite(x: nat, ws: Seq<nat>) -> bool {
    exists|i: int| 0 <= i < ws.len() && !passes_fermat(#[trigger] ws[i], x)
}

/// A run of `k` rounds that exposed `x` as composite is also a complete run of
/// any larger number of rounds over the same draws: more rounds never turn a
/// `Composite` verdict into `Prime`.
pub proof fn lemma_more_rounds_keep_composite(x: nat, k: nat, more: nat, ws: Seq<nat>)
    requires
        is_fermat_run(x, k, ws),
        exposes_composite(x, ws),
        k <= more,
    ensures
        is_fermat_run(x, more, ws),
        exposes_composite(x, ws),
{
    let i = choose|i: int| 0 <= i < ws.len() && !passes_fermat(#[trigger] ws[i], x);
    assert(i == ws.len() - 1);
}

/// A run that exposes `x` proves it composite: by Fermat's little theorem
/// every viable base passes for a prime.
pub proof fn lemma_exposed_is_not_prime(x: nat, k: nat, ws: Seq<nat>)
    requires
        is_fermat_run(x, k, ws),
        exposes_composite(x, ws),
    ensures
        !is_prime(x),
{
    let i = choose|i: int| 0 <= i < ws.len() && !passes_fermat(#[trigger] ws[i], x);
    if is_prime(x) {
        lemma_fermat_little(ws[i], x);
    }
}

/// Whether `a^(x-1) mod x` is 1.
pub fn passes_fermat_check(a: &BigNat, x: &BigNat) -> (r: bool)
    requires
        x.value() >= 1,
    ensures
        r == passes_fermat(a.value(), x.value()),
{
    let one = BigNat::from_u64(1);
    let exponent = x.sub(&one);
    let residue = a.modpow(&exponent, x);
    residue.equals_small(1)
}

/// A random base in `[2, x)` coprime to `x`. Draws are repeated until one is
/// coprime; after `MAX_DRAWS` failed draws `x - 1`, which is always coprime to
/// `x`, is taken instead.
pub fn generate_viable_witness(x: &BigNat) -> (a: BigNat)
    requires
        x.value() > 3,
    ensures
        is_viable_witness(a.value(), x.value()),
{
    let two = BigNat::from_u64(2);
    let mut draws: u32 = 0;
    while draws < MAX_DRAWS
        invariant
            x.value() > 3,
            two.value() == 2,
        decreases MAX_DRAWS - draws,
    {
        let a = BigNat::random_in_range(&two, x);
        let g = a.gcd(x);
        if g.equals_small(1) {
            return a;
        }
        draws = draws + 1;
    }
    let one = BigNat::from_u64(1);
    proof {
        lemma_predecessor_is_viable(x.value());
    }
    x.sub(&one)
}

/// Tests `x` with up to `iterations` random bases.
///
/// `x <= 1` is composite and 2 and 3 are prime, whatever `iterations` is.
/// Above 3, each round draws a viable base `a` and returns `Composite` as soon
/// as `a^(x-1) mod x` is not 1; after `iterations` passing rounds the verdict
/// is `Prime`, so with no rounds every candidate above 3 is `Prime`.
pub fn fermat_primality_test(x: BigNat, iterations: u8) -> (r: Primality)
    ensures
        r.candidate() == x,
        x.value() <= 1 ==> r is Composite,
        x.value() == 2 || x.value() == 3 ==> r is Prime,
        is_prime(x.value()) ==> r is Prime,
        r is Composite ==> !is_prime(x.value()),
        x.value() > 3 ==> exists|ws: Seq<nat>|
            #[trigger] is_fermat_run(x.value(), iterations as nat, ws) && (r is Composite
                <==> exposes_composite(x.value(), ws)),
{
    if x.is_at_most_one() {
        return Primality::Composite(x);
    }
    if x.equals_small(2) || x.equals_small(3) {
        return Primality::Prime(x);
    }
    let ghost xv = x.value();
    let ghost k = iterations as nat;
    let ghost mut ws: Seq<nat> = Seq::empty();
    for i in 0..iterations
        invariant
            xv == x.value(),
            xv > 3,
            k == iterations as nat,
            ws.len() == i,
            forall|j: int| 0 <= j < ws.len() ==> is_viable_witness(#[trigger] ws[j], xv),
            forall|j: int| 0 <= j < ws.len() ==> passes_fermat(#[trigger] ws[j], xv),
    {
        let a = generate_viable_witness(&x);
        proof {
            ws = ws.push(a.value());
        }
        if !passes_fermat_check(&a, &x) {
            proof {
                if is_prime(xv) {
                    lemma_fermat_little(a.value(), xv);
                }
                assert(is_fermat_run(xv, k, ws));
                assert(!passes_fermat(ws[ws.len() - 1], xv));
            }
            return Primality::Composite(x);
        }
    }
    proof {
        assert(is_fermat_run(xv, k, ws));
        assert(!exposes_composite(xv, ws));
    }
    Primality::Prime(x)
}

} // verus!
