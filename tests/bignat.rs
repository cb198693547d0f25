use fermat::primality::generate_viable_witness;
use fermat::{fermat_primality_test, BigNat, Primality};

fn big(n: u64) -> BigNat {
    BigNat::from_u64(n)
}

#[test]
fn from_u64_digits() {
    assert_eq!(big(0).to_u32_digits(), Vec::<u32>::new());
    assert_eq!(big(1125).to_u32_digits(), vec![1125]);
    assert_eq!(big(4294967295).to_u32_digits(), vec![4294967295]);
    assert_eq!(big(4294967296).to_u32_digits(), vec![0, 1]);
    assert_eq!(big(112500000000).to_u32_digits(), vec![830850304, 26]);
}

#[test]
fn from_u32_digits_drops_top_zeros() {
    assert_eq!(BigNat::from_u32_digits(vec![7, 0, 0]), big(7));
    assert_eq!(BigNat::from_u32_digits(vec![0, 0]), big(0));
    assert_eq!(BigNat::from_u32_digits(vec![0, 1, 0]), big(4294967296));
}

#[test]
fn small_comparisons() {
    assert!(big(0).is_at_most_one());
    assert!(big(1).is_at_most_one());
    assert!(!big(2).is_at_most_one());
    assert!(!big(4294967297).is_at_most_one());
    assert!(big(0).equals_small(0));
    assert!(big(3).equals_small(3));
    assert!(!big(3).equals_small(2));
    assert!(!big(4294967299).equals_small(3));
}

#[test]
fn modpow_exact_values() {
    assert_eq!(big(4).modpow(&big(13), &big(497)), big(445));
    assert_eq!(big(2).modpow(&big(0), &big(7)), big(1));
    assert_eq!(big(5).modpow(&big(3), &big(1)), big(0));
    assert_eq!(big(3).modpow(&big(40), &big(1u64 << 63)), big(2934293422202152993));
}

#[test]
fn sub_exact_values() {
    assert_eq!(big(10).sub(&big(3)), big(7));
    assert_eq!(big(4294967296).sub(&big(1)), big(4294967295));
    assert_eq!(big(5).sub(&big(5)), big(0));
}

#[test]
fn gcd_exact_values() {
    assert_eq!(big(12).gcd(&big(18)), big(6));
    assert_eq!(big(17).gcd(&big(5)), big(1));
    assert_eq!(big(0).gcd(&big(9)), big(9));
    assert_eq!(big(9).gcd(&big(0)), big(9));
}

#[test]
fn random_in_range_stays_in_range() {
    for _ in 0..200 {
        let r = BigNat::random_in_range(&big(2), &big(5));
        assert!(r == big(2) || r == big(3) || r == big(4));
    }
    assert_eq!(BigNat::random_in_range(&big(41), &big(42)), big(41));
}

#[test]
fn witnesses_are_viable() {
    for x in [4u64, 9, 10, 15, 100, 561, 4294967311] {
        for _ in 0..50 {
            let a = generate_viable_witness(&big(x));
            assert!(!a.is_at_most_one());
            let below = big(x).sub(&big(1));
            assert!(below.sub(&a).to_u32_digits().len() <= 2);
            assert!(a.gcd(&big(x)).equals_small(1));
        }
    }
    for _ in 0..50 {
        assert_eq!(generate_viable_witness(&big(4)), big(3));
        let a = generate_viable_witness(&big(6));
        assert_eq!(a, big(5));
    }
}

#[test]
fn mersenne_prime_of_three_digits() {
    // 2^89 - 1 is prime and needs three base 2^32 digits.
    let m = BigNat::from_u32_digits(vec![0xFFFF_FFFF, 0xFFFF_FFFF, 0x01FF_FFFF]);
    let same = BigNat::from_u32_digits(vec![0xFFFF_FFFF, 0xFFFF_FFFF, 0x01FF_FFFF]);
    assert_eq!(fermat_primality_test(m, 10), Primality::Prime(same));
}

#[test]
fn three_digit_composite() {
    // 2^64 + 1 = 274177 * 67280421310721.
    let x = BigNat::from_u32_digits(vec![1, 0, 1]);
    let same = BigNat::from_u32_digits(vec![1, 0, 1]);
    assert_eq!(fermat_primality_test(x, 10), Primality::Composite(same));
}

#[test]
fn clones_keep_the_value() {
    let x = BigNat::from_u32_digits(vec![5, 9]);
    assert_eq!(x.clone(), x);
    let v = Primality::Composite(big(21));
    assert_eq!(v.clone(), Primality::Composite(big(21)));
}
