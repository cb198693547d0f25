//! Arbitrary-precision natural numbers, held as base 2^32 digits, least
//! significant first.

use crate::number_theory::gcd;
use num_bigint::{BigUint, RandBigInt};
use vstd::arithmetic::power::pow;
use vstd::prelude::*;

verus! {

/// The radix of a digit.
pub open spec fn radix() -> nat {
    0x1_0000_0000
}

/// The number that little-endian base 2^32 digits stand for.
pub open spec fn digits_value(d: Seq<u32>) -> nat
    decreases d.len(),
{
    if d.len() == 0 {
        0
    } else {
        d[0] as nat + radix() * digits_value(d.drop_first())
    }
}

/// No most significant zero digit: every number has exactly one such form.
pub open spec fn normalized(d: Seq<u32>) -> bool {
    d.len() == 0 || d.last() != 0
}

proof fn lemma_value_of_single(d: Seq<u32>)
    requires
        d.len() == 1,
    ensures
        digits_value(d) == d[0] as nat,
{
    assert(digits_value(d.drop_first()) == 0);
}

proof fn lemma_normalized_lower_bound(d: Seq<u32>)
    requires
        normalized(d),
        d.len() >= 1,
    ensures
        digits_value(d) >= 1,
        d.len() >= 2 ==> digits_value(d) >= radix(),
    decreases d.len(),
{
    let rest = d.drop_first();
    if d.len() == 1 {
        lemma_value_of_single(d);
    } else {
        assert(rest.last() == d.last());
        lemma_normalized_lower_bound(rest);
        assert(radix() * digits_value(rest) >= radix()) by (nonlinear_arith)
            requires
                digits_value(rest) >= 1,
        ;
    }
}

proof fn lemma_drop_zero_top(d: Seq<u32>)
    requires
        d.len() >= 1,
        d.last() == 0,
    ensures
        digits_value(d) == digits_value(d.drop_last()),
    decreases d.len(),
{
    if d.len() == 1 {
        lemma_value_of_single(d);
    } else {
        let rest = d.drop_first();
        lemma_drop_zero_top(rest);
        assert(d.drop_last().drop_first() =~= rest.drop_last());
    }
}

/// An arbitrary-precision natural number.
#[derive(Debug, PartialEq, Eq)]
pub struct BigNat {
    digits: Vec<u32>,
}

impl Clone for BigNat {
    fn clone(&self) -> (r: BigNat)
        ensures
            r.value() == self.value(),
    {
        proof {
            use_type_invariant(self);
        }
        BigNat { digits: self.digits.clone() }
    }
}

impl BigNat {
    /// The number this value stands for.
    pub closed spec fn value(&self) -> nat {
        digits_value(self.digits@)
    }

    #[verifier::type_invariant]
    spec fn inv(self) -> bool {
        normalized(self.digits@)
    }

    /// The number that `digits`, least significant first, stand for; most
    /// significant zero digits are dropped.
    pub fn from_u32_digits(digits: Vec<u32>) -> (r: BigNat)
        ensures
            r.value() == digits_value(digits@),
    {
        let mut d = digits;
        while d.len() > 0 && d[d.len() - 1] == 0
            invariant
                digits_value(d@) == digits_value(digits@),
            decreases d.len(),
        {
            proof {
                lemma_drop_zero_top(d@);
            }
            d.pop();
        }
        BigNat { digits: d }
    }

    /// The digits of this number, least significant first, without a most
    /// significant zero.
    pub fn to_u32_digits(&self) -> (r: Vec<u32>)
        ensures
            normalized(r@),
            digits_value(r@) == self.value(),
    {
        proof {
            use_type_invariant(self);
        }
        self.digits.clone()
    }

    /// The number `n`.
    pub fn from_u64(n: u64) -> (r: BigNat)
        ensures
            r.value() == n as nat,
    {
        if n == 0 {
            let digits: Vec<u32> = Vec::new();
            BigNat { digits }
        } else if n < 0x1_0000_0000 {
            let digits: Vec<u32> = vec![n as u32];
            proof {
                lemma_value_of_single(digits@);
            }
            BigNat { digits }
        } else {
            let lo = (n % 0x1_0000_0000) as u32;
            let hi = (n / 0x1_0000_0000) as u32;
            let digits: Vec<u32> = vec![lo, hi];
            proof {
                lemma_value_of_single(digits@.drop_first());
                vstd::arithmetic::div_mod::lemma_fundamental_div_mod(n as int, 0x1_0000_0000);
            }
            BigNat { digits }
        }
    }

    /// Whether this number is 0 or 1.
    pub fn is_at_most_one(&self) -> (r: bool)
        ensures
            r == (self.value() <= 1),
    {
        proof {
            use_type_invariant(self);
            if self.digits.len() >= 1 {
                lemma_normalized_lower_bound(self.digits@);
            }
            if self.digits.len() == 1 {
                lemma_value_of_single(self.digits@);
            }
        }
        self.digits.len() == 0 || (self.digits.len() == 1 && self.digits[0] <= 1)
    }

    /// Whether this number equals `c`.
    pub fn equals_small(&self, c: u32) -> (r: bool)
        ensures
            r == (self.value() == c as nat),
    {
        proof {
            use_type_invariant(self);
            if self.digits.len() >= 1 {
                lemma_normalized_lower_bound(self.digits@);
            }
            if self.digits.len() == 1 {
                lemma_value_of_single(self.digits@);
            }
        }
        if c == 0 {
            self.digits.len() == 0
        } else {
            self.digits.len() == 1 && self.digits[0] == c
        }
    }
}

/// Relies on num_bigint's `BigUint::modpow`: `(self ^ exponent) % modulus`;
/// it panics on a zero modulus. `to_u32_digits` gives the digits of the
/// normalized result.
#[verifier::external_body]
fn modpow_digits(base: &BigNat, exponent: &BigNat, modulus: &BigNat) -> (r: Vec<u32>)
    requires
        modulus.value() > 0,
    ensures
        normalized(r@),
        digits_value(r@) == pow(base.value() as int, exponent.value()) % (modulus.value() as int),
{
    let b = BigUint::new(base.digits.clone());
    let e = BigUint::new(exponent.digits.clone());
    let m = BigUint::new(modulus.digits.clone());
    b.modpow(&e, &m).to_u32_digits()
}

/// Relies on `Sub` for num_bigint's `BigUint`: the difference, panicking
/// where it would be negative.
#[verifier::external_body]
fn sub_digits(a: &BigNat, b: &BigNat) -> (r: Vec<u32>)
    requires
        b.value() <= a.value(),
    ensures
        normalized(r@),
        digits_value(r@) == a.value() - b.value(),
{
    (BigUint::new(a.digits.clone()) - BigUint::new(b.digits.clone())).to_u32_digits()
}

/// Relies on num_integer's `Integer::gcd` for `BigUint`: the greatest common
/// divisor, and the other argument where one of them is zero.
#[verifier::external_body]
fn gcd_digits(a: &BigNat, b: &BigNat) -> (r: Vec<u32>)
    ensures
        normalized(r@),
        digits_value(r@) == gcd(a.value(), b.value()),
{
    let x = BigUint::new(a.digits.clone());
    num_integer::Integer::gcd(&x, &BigUint::new(b.digits.clone())).to_u32_digits()
}

/// Relies on num_bigint's `RandBigInt::gen_biguint_range` over rand's
/// thread-local generator: a random number in `[lo, hi)`; it panics unless
/// `lo < hi`.
#[verifier::external_body]
fn random_digits_in_range(lo: &BigNat, hi: &BigNat) -> (r: Vec<u32>)
    requires
        lo.value() < hi.value(),
    ensures
        normalized(r@),
        lo.value() <= digits_value(r@) < hi.value(),
{
    let l = BigUint::new(lo.digits.clone());
    let h = BigUint::new(hi.digits.clone());
    rand::thread_rng().gen_biguint_range(&l, &h).to_u32_digits()
}

impl BigNat {
    /// `self^exponent mod modulus`.
    pub fn modpow(&self, exponent: &BigNat, modulus: &BigNat) -> (r: BigNat)
        requires
            modulus.value() > 0,
        ensures
            r.value() == pow(self.value() as int, exponent.value()) % (modulus.value() as int),
    {
        BigNat { digits: modpow_digits(self, exponent, modulus) }
    }

    /// `self - other`, which must not be negative.
    pub fn sub(&self, other: &BigNat) -> (r: BigNat)
        requires
            other.value() <= self.value(),
        ensures
            r.value() == self.value() - other.value(),
    {
        BigNat { digits: sub_digits(self, other) }
    }

    /// The greatest common divisor of `self` and `other`.
    pub fn gcd(&self, other: &BigNat) -> (r: BigNat)
        ensures
            r.value() == gcd(self.value(), other.value()),
    {
        BigNat { digits: gcd_digits(self, other) }
    }

    /// A random number in `[lo, hi)`.
    pub fn random_in_range(lo: &BigNat, hi: &BigNat) -> (r: BigNat)
        requires
            lo.value() < hi.value(),
        ensures
            lo.value() <= r.value() < hi.value(),
    {
        BigNat { digits: random_digits_in_range(lo, hi) }
    }
}

} // verus!
