use num_bigint::BigUint;
use num_traits::{One, Zero};

use large_primes::{gcd, get_trailing_zeros, pow, pow_mod};

#[test]
fn gcd_edge_cases() {
    // Test case 0: 0
    assert_eq!(gcd(&BigUint::zero(), &BigUint::zero()), BigUint::zero());

    // Test case 1: 1
    assert_eq!(gcd(&BigUint::one(), &BigUint::zero()), BigUint::one());

    // Test case 2: 1
    assert_eq!(gcd(&BigUint::zero(), &BigUint::one()), BigUint::one());

    // Test case 3: 2
    assert_eq!(gcd(&BigUint::from(2u32), &BigUint::from(2u32)), BigUint::from(2u32));

    // Test case 4: 1
    assert_eq!(gcd(&BigUint::from(2u32), &BigUint::from(3u32)), BigUint::one());

    // Test case 5: 2
    assert_eq!(gcd(&BigUint::from(2u32), &BigUint::from(4u32)), BigUint::from(2u32));

    // Test case 6: 1
    assert_eq!(gcd(&BigUint::from(3u32), &BigUint::from(5u32)), BigUint::one());

    // Test case 7: 3
    assert_eq!(gcd(&BigUint::from(3u32), &BigUint::from(6u32)), BigUint::from(3u32));

    // Test case 8: 1
    assert_eq!(gcd(&BigUint::from(4u32), &BigUint::from(7u32)), BigUint::one());

    // Test case 9: 4
    assert_eq!(gcd(&BigUint::from(4u32), &BigUint::from(8u32)), BigUint::from(4u32));

    // Test case 10: 1
    assert_eq!(gcd(&BigUint::from(5u32), &BigUint::from(9u32)), BigUint::one());

    // Test case 11: 5
    assert_eq!(gcd(&BigUint::from(5u32), &BigUint::from(10u32)), BigUint::from(5u32));
}

#[test]
fn general_cases() {
    // Big Numbers 6-8 digits

    assert_eq!(
        gcd(&BigUint::from(123456u32), &BigUint::from(123456u32)),
        BigUint::from(123456u32)
    );
    assert_eq!(gcd(&BigUint::from(123456u32), &BigUint::from(123457u32)), BigUint::one());
    assert_eq!(gcd(&BigUint::from(123456u32), &BigUint::from(123458u32)), BigUint::from(2u32));
    assert_eq!(gcd(&BigUint::from(123456u32), &BigUint::from(123459u32)), BigUint::from(3u32));
    assert_eq!(gcd(&BigUint::from(123456u32), &BigUint::from(123460u32)), BigUint::from(4u32));
    assert_eq!(gcd(&BigUint::from(123456u32), &BigUint::from(123461u32)), BigUint::one());
    assert_eq!(gcd(&BigUint::from(123456u32), &BigUint::from(123462u32)), BigUint::from(6u32));
    assert_eq!(gcd(&BigUint::from(123456u32), &BigUint::from(123463u32)), BigUint::one());
    assert_eq!(gcd(&BigUint::from(123456u32), &BigUint::from(123464u32)), BigUint::from(8u32));
    assert_eq!(gcd(&BigUint::from(123456u32), &BigUint::from(123465u32)), BigUint::from(3u32));
}

#[test]
fn normal_power() {
    let base = BigUint::from(2u32);
    let exp = BigUint::zero();

    assert_eq!(pow(&base, &exp), BigUint::from(1u32));

    let base = BigUint::from(2u32);
    let exp = BigUint::from(10u32);

    assert_eq!(pow(&base, &exp), BigUint::from(1024u32));

    let base = BigUint::from(2u32);
    let exp = BigUint::from(100u32);

    assert_eq!(
        pow(&base, &exp),
        BigUint::parse_bytes(b"1267650600228229401496703205376", 10).unwrap()
    );
}

#[test]
fn base_cases() {
    let base = BigUint::from(2u32);
    let exp = BigUint::from(2u32);
    let modulus = BigUint::from(3u32);

    assert_eq!(pow_mod(&base, &exp, &modulus), BigUint::from(1u32));

    let base = BigUint::from(2u32);
    let exp = BigUint::zero();
    let modulus = BigUint::from(3u32);

    assert_eq!(pow_mod(&base, &exp, &modulus), BigUint::from(1u32));

    let base = BigUint::from(2u32);
    let exp = BigUint::from(1u32);
    let modulus = BigUint::from(2u32);

    assert_eq!(pow_mod(&base, &exp, &modulus), BigUint::from(0u32));
}

#[test]
fn big_cases() {
    let base = BigUint::from(2u32);
    let exp = BigUint::from(10u32);
    let modulus = BigUint::from(100u32);

    assert_eq!(pow_mod(&base, &exp, &modulus), BigUint::from(24u32));

    let base = BigUint::from(2u32);
    let exp = BigUint::from(100u32);
    let modulus = BigUint::from(1000u32);

    assert_eq!(pow_mod(&base, &exp, &modulus), BigUint::from(376u32));

    let base = BigUint::from(2u32);
    let exp = BigUint::from(1000u32);
    let modulus = BigUint::from(10000u32);

    assert_eq!(pow_mod(&base, &exp, &modulus), BigUint::from(9376u32));

    let base = BigUint::from(2u32);
    let exp = BigUint::from(10000u32);
    let modulus = BigUint::from(100000u32);

    assert_eq!(pow_mod(&base, &exp, &modulus), BigUint::from(9376u32));
}

#[test]
fn pow_mod_literal_scenario() {
    assert_eq!(
        pow_mod(&BigUint::from(4u32), &BigUint::from(13u32), &BigUint::from(497u32)),
        BigUint::from(445u32)
    );
}

#[test]
fn pow_zero_exponent() {
    // Any base to the zeroth power is 1, including 0.
    assert_eq!(pow(&BigUint::zero(), &BigUint::zero()), BigUint::one());
    assert_eq!(pow(&BigUint::from(7u32), &BigUint::zero()), BigUint::one());
    assert_eq!(
        pow(&BigUint::parse_bytes(b"123456789123456789", 10).unwrap(), &BigUint::zero()),
        BigUint::one()
    );
}

#[test]
fn gcd_symmetry_pairs() {
    let pairs: [(u64, u64); 4] = [(0, 5), (12, 18), (123456, 123458), (97, 100)];
    for (a, b) in pairs {
        let a = BigUint::from(a);
        let b = BigUint::from(b);
        assert_eq!(gcd(&a, &b), gcd(&b, &a));
        assert_eq!(gcd(&a, &BigUint::zero()), a);
        assert_eq!(gcd(&a, &a), a);
    }
}

#[test]
fn pow_mod_exponent_addition() {
    // pow_mod(b, e1 + e2, m) == pow_mod(b, e1, m) * pow_mod(b, e2, m) % m
    let cases: [(u64, u64, u64, u64); 3] = [(4, 6, 7, 497), (2, 50, 50, 1000), (3, 0, 9, 11)];
    for (b, e1, e2, m) in cases {
        let b = BigUint::from(b);
        let m = BigUint::from(m);
        let split =
            pow_mod(&b, &BigUint::from(e1), &m) * pow_mod(&b, &BigUint::from(e2), &m) % &m;
        assert_eq!(pow_mod(&b, &BigUint::from(e1 + e2), &m), split);
    }
}

#[test]
fn trailing_zeros_values() {
    // 8 is binary 1000: three trailing zeros.
    assert_eq!(get_trailing_zeros(&BigUint::from(8u32)), BigUint::from(3u32));
    assert_eq!(get_trailing_zeros(&BigUint::from(1u32)), BigUint::zero());
    assert_eq!(get_trailing_zeros(&BigUint::from(12u32)), BigUint::from(2u32));
    assert_eq!(get_trailing_zeros(&BigUint::from(1024u32)), BigUint::from(10u32));
}
