use agentshield::bignat::BigNat;
use agentshield::scaled::Scaled;

fn scaled(mantissa: u64, exponent: u64) -> Scaled {
    Scaled { mantissa, exponent }
}

fn parts(x: Scaled) -> (u64, u64) {
    (x.mantissa, x.exponent)
}

fn big(factors: &[u64]) -> BigNat {
    let mut n = BigNat::one();
    for f in factors {
        n.mul_small(*f);
    }
    n
}

#[test]
fn small_products_are_exact() {
    assert_eq!(parts(Scaled::one()), (1, 0));
    assert_eq!(parts(Scaled::one().times_down(23)), (23, 0));
    assert_eq!(parts(Scaled::one().times_up(23)), (23, 0));
    assert_eq!(parts(scaled(23, 7).times_down(529)), (12167, 7));
    assert_eq!(parts(scaled(23, 7).times_up(529)), (12167, 7));
    assert_eq!(parts(scaled(5, 3).times_down(0)), (0, 3));
    assert_eq!(parts(scaled(5, 3).times_up(0)), (0, 3));
}

#[test]
fn long_products_are_halved_until_they_fit() {
    // 3 * 2^62 is halved once, and nothing is cut off.
    assert_eq!(parts(scaled(1 << 62, 0).times_down(3)), (3 << 61, 1));
    assert_eq!(parts(scaled(1 << 62, 0).times_up(3)), (3 << 61, 1));
    // 3 * (2^62 + 1) = 3 * 2^62 + 3 loses its last bit.
    assert_eq!(parts(scaled((1 << 62) + 1, 4).times_down(3)), ((3 << 61) + 1, 5));
    assert_eq!(parts(scaled((1 << 62) + 1, 4).times_up(3)), ((3 << 61) + 2, 5));
    // The greatest product there is: (2^64 - 1)^2 = 2^128 - 2^65 + 1.
    assert_eq!(
        parts(scaled(u64::MAX, 0).times_down(u64::MAX)),
        (0x7FFF_FFFF_FFFF_FFFF, 65)
    );
    assert_eq!(
        parts(scaled(u64::MAX, 0).times_up(u64::MAX)),
        (0x8000_0000_0000_0000, 65)
    );
}

#[test]
fn scaled_numbers_compare_by_value() {
    assert!(scaled(3, 10).exceeds(&scaled(5, 9)));
    assert!(!scaled(5, 9).exceeds(&scaled(3, 10)));
    assert!(!scaled(1, 10).exceeds(&scaled(2, 9)));
    assert!(!scaled(2, 9).exceeds(&scaled(1, 10)));
    assert!(scaled(1, 64).exceeds(&scaled(u64::MAX, 0)));
    assert!(!scaled(u64::MAX, 0).exceeds(&scaled(1, 64)));
    assert!(scaled(1, 1000).exceeds(&scaled(u64::MAX, 900)));
    assert!(!scaled(u64::MAX, 900).exceeds(&scaled(1, 1000)));
    assert!(!scaled(1, 63).exceeds(&scaled(1 << 63, 0)));
    assert!(!scaled(1 << 63, 0).exceeds(&scaled(1, 63)));
    assert!(scaled((1 << 63) + 1, 0).exceeds(&scaled(1, 63)));
    assert!(!scaled(0, 500).exceeds(&scaled(0, 0)));
    assert!(!scaled(0, 500).exceeds(&scaled(1, 0)));
    assert!(scaled(1, 0).exceeds(&scaled(0, 500)));
    assert!(scaled(7, 5).exceeds(&scaled(6, 5)));
    assert!(!scaled(7, 5).exceeds(&scaled(7, 5)));
}

#[test]
fn big_numbers_compare_by_value() {
    let two_to_64 = big(&[1 << 63, 2]);
    let two_to_65 = big(&[1 << 63, 4]);
    let below = big(&[u64::MAX]);
    assert!(two_to_65.exceeds(&two_to_64));
    assert!(!two_to_64.exceeds(&two_to_65));
    assert!(two_to_64.exceeds(&below));
    assert!(!below.exceeds(&two_to_64));
    assert!(!two_to_64.exceeds(&big(&[2, 1 << 63])));
    assert!(!BigNat::one().exceeds(&BigNat::one()));
    assert!(big(&[2]).exceeds(&BigNat::one()));
    assert!(BigNat::one().exceeds(&big(&[0])));
    assert!(!big(&[5, 0, 7]).exceeds(&big(&[0])));
    assert!(!big(&[0]).exceeds(&BigNat::one()));
}

#[test]
fn big_products_carry_into_higher_digits() {
    // (2^64 - 1)^2 + 2 * (2^64 - 1) + 1 = 2^128, step by step:
    // 3^81 = 3^40 * 3^41 against 3^80 * 3 and its neighbours.
    let mut a = BigNat::one();
    let mut b = BigNat::one();
    for _ in 0..27 {
        a.mul_small(27);
        b.mul_small(3);
        b.mul_small(9);
    }
    assert!(!a.exceeds(&b));
    assert!(!b.exceeds(&a));
    b.mul_small(2);
    assert!(b.exceeds(&a));
    a.mul_small(3);
    assert!(a.exceeds(&b));

    // 10^40 and 2^40 * 5^40, built in different orders.
    let mut x = BigNat::one();
    let mut y = BigNat::one();
    for _ in 0..4 {
        x.mul_small(10_000_000_000);
    }
    for _ in 0..40 {
        y.mul_small(5);
    }
    for _ in 0..2 {
        y.mul_small(1 << 20);
    }
    assert!(!x.exceeds(&y));
    assert!(!y.exceeds(&x));
    x.mul_small(u64::MAX);
    y.mul_small(u64::MAX - 1);
    assert!(x.exceeds(&y));
    assert!(!y.exceeds(&x));
}
