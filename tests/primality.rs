use fermat::{fermat_primality_test, BigNat, Primality};
use fermat::primality::passes_fermat_check;

fn big(n: u64) -> BigNat {
    BigNat::from_u64(n)
}

#[test]
fn fermat_primality_test_test() {
    let prime_numbers: [u8; 5] = [2, 3, 5, 7, 13];
    prime_numbers.into_iter().for_each(|p| {
        assert_eq!(fermat_primality_test(big(p as u64), 10), Primality::Prime(big(p as u64)));
    });
    let not_prime_numbers: [u8; 5] = [4, 6, 8, 9, 10];
    not_prime_numbers.into_iter().for_each(|x| {
        assert_eq!(fermat_primality_test(big(x as u64), 10), Primality::Composite(big(x as u64)));
    });
}

#[test]
fn two_and_three_are_prime_for_any_rounds() {
    for k in [0u8, 1, 10, 255] {
        assert_eq!(fermat_primality_test(big(2), k), Primality::Prime(big(2)));
        assert_eq!(fermat_primality_test(big(3), k), Primality::Prime(big(3)));
    }
}

#[test]
fn zero_and_one_are_composite_for_any_rounds() {
    for k in [0u8, 1, 5, 255] {
        assert_eq!(fermat_primality_test(big(0), k), Primality::Composite(big(0)));
        assert_eq!(fermat_primality_test(big(1), k), Primality::Composite(big(1)));
    }
}

#[test]
fn small_primes_are_prime_in_every_run() {
    for p in [5u64, 7, 11, 13, 17, 19, 23] {
        for _ in 0..100 {
            assert_eq!(fermat_primality_test(big(p), 10), Primality::Prime(big(p)));
        }
    }
}

#[test]
fn small_composites_are_composite_in_every_run() {
    for c in [4u64, 6, 8, 9, 10, 15, 21, 100] {
        for _ in 0..100 {
            assert_eq!(fermat_primality_test(big(c), 10), Primality::Composite(big(c)));
        }
    }
}

#[test]
fn repeated_calls_agree_on_primes_and_small_values() {
    for x in [0u64, 1, 2, 3, 13, 97] {
        let first = fermat_primality_test(big(x), 10);
        let second = fermat_primality_test(big(x), 10);
        assert_eq!(first, second);
    }
}

#[test]
fn example_scenarios() {
    assert_eq!(fermat_primality_test(big(13), 10), Primality::Prime(big(13)));
    assert_eq!(fermat_primality_test(big(9), 10), Primality::Composite(big(9)));
    assert_eq!(fermat_primality_test(big(1), 5), Primality::Composite(big(1)));
    assert_eq!(fermat_primality_test(big(2), 0), Primality::Prime(big(2)));
}

#[test]
fn no_rounds_leaves_every_candidate_above_three_prime() {
    assert_eq!(fermat_primality_test(big(4), 0), Primality::Prime(big(4)));
    assert_eq!(fermat_primality_test(big(100), 0), Primality::Prime(big(100)));
}

#[test]
fn large_prime_and_composite_above_one_digit() {
    // 2^61 - 1 is prime; 2^64 - 1 = 3 * 5 * 17 * 257 * 641 * 65537 * 6700417.
    let p = (1u64 << 61) - 1;
    assert_eq!(fermat_primality_test(big(p), 20), Primality::Prime(big(p)));
    assert_eq!(fermat_primality_test(big(u64::MAX), 20), Primality::Composite(big(u64::MAX)));
}

#[test]
fn carmichael_number_passes_every_coprime_base() {
    // 561 = 3 * 11 * 17: every base coprime to it meets Fermat's condition.
    for a in [2u64, 4, 5, 7, 8, 10, 13, 560] {
        assert!(passes_fermat_check(&big(a), &big(561)));
    }
    assert_eq!(fermat_primality_test(big(561), 10), Primality::Prime(big(561)));
}

#[test]
fn fermat_check_exact_values() {
    assert!(passes_fermat_check(&big(2), &big(13)));
    assert!(!passes_fermat_check(&big(2), &big(9)));
    assert!(passes_fermat_check(&big(8), &big(9)));
    assert!(!passes_fermat_check(&big(5), &big(15)));
}
