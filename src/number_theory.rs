//! Elementary number theory used to state what the Fermat test decides.

use vstd::arithmetic::power::pow;
use vstd::prelude::*;

verus! {

/// The greatest common divisor, by Euclid's algorithm.
pub open spec fn gcd(a: nat, b: nat) -> nat
    decreases b,
{
    if b == 0 {
        a
    } else {
        gcd(b, a % b)
    }
}

/// A number of at least 2 with no divisor strictly between 1 and itself.
pub open spec fn is_prime(n: nat) -> bool {
    n >= 2 && forall|d: nat| 2 <= d < n ==> #[trigger] (n % d) != 0
}

/// Whether `a^(x-1) mod x` is 1, the condition that every base coprime to a
/// prime `x` meets.
pub open spec fn passes_fermat(a: nat, x: nat) -> bool {
    x >= 1 && pow(a as int, (x - 1) as nat) % (x as int) == 1
}

/// A base that the Fermat test may use for `x`: in `[2, x)` and coprime to `x`.
pub open spec fn is_viable_witness(a: nat, x: nat) -> bool {
    2 <= a < x && gcd(a, x) == 1
}

/// Above 3, `x - 1` is always a viable base for `x`.
pub proof fn lemma_predecessor_is_viable(x: nat)
    requires
        x > 3,
    ensures
        is_viable_witness((x - 1) as nat, x),
{
    let p = (x - 1) as nat;
    assert(p % x == p) by {
        vstd::arithmetic::div_mod::lemma_small_mod(p, x);
    }
    assert(x % p == 1) by {
        vstd::arithmetic::div_mod::lemma_fundamental_div_mod(x as int, p as int);
        vstd::arithmetic::div_mod::lemma_small_mod(1, p);
        vstd::arithmetic::div_mod::lemma_mod_add_multiples_vanish(1, p as int);
    }
    assert(p % 1 == 0);
    assert(gcd(1, 0) == 1);
    assert(gcd(p, 1) == gcd(1, 0));
    assert(gcd(x, p) == gcd(p, 1));
    assert(gcd(p, x) == gcd(x, p));
}

} // verus!
