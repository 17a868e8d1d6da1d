use num_bigint::BigUint;
use num_traits::{One, Zero};

use large_primes::{fermat, lucas_lehmer_test, miller_rabin, standard};

#[test]
fn fermat_edge_cases() {
    // Test case 0: False
    assert_eq!(fermat(&BigUint::zero()), false);

    // Test case 1: False
    assert_eq!(fermat(&BigUint::one()), false);

    // Test case 2: True
    assert_eq!(fermat(&BigUint::from(2u32)), true);

    // Test case 3: True
    assert_eq!(fermat(&BigUint::from(3u32)), true);

    // Test case 4: False
    assert_eq!(fermat(&BigUint::from(4u32)), false);
}

#[test]
fn fermat_large_primes() {
    let primes = [
        // 10-12 digit primes
        "871603259",
        "98762051",
        "1000000007",
        "123575321",
        "193818613",
        "444444443",
        "999999937",
        "1000000000039",
        "9999999929",
    ];

    for prime in primes {
        let prime = BigUint::parse_bytes(prime.as_bytes(), 10).unwrap();
        assert_eq!(fermat(&prime), true);
    }
}

#[test]
fn fermat_large_composites() {
    let primes = [
        // 10-12 digit primes
        "871603259",
        "98762051",
        "1000000007",
        "123575321",
        "193818613",
        "444444443",
        "999999937",
        "1000000000039",
        "9999999929",
    ];

    for i in 0..primes.len() {
        for j in 0..primes.len() {
            if i == j {
                continue;
            }
            let composite = BigUint::parse_bytes(primes[i].as_bytes(), 10).unwrap()
                * BigUint::parse_bytes(primes[j].as_bytes(), 10).unwrap();
            assert_eq!(fermat(&composite), false);
        }
    }
}

#[test]
fn carmichael_number() {
    let carmichaels: Vec<BigUint> = vec![
        BigUint::parse_bytes(b"561", 10).unwrap(),
        BigUint::parse_bytes(b"41041", 10).unwrap(),
        BigUint::parse_bytes(b"825265", 10).unwrap(),
        BigUint::parse_bytes(b"321197185", 10).unwrap(),
        BigUint::parse_bytes(b"5394826801", 10).unwrap(),
        BigUint::parse_bytes(b"232250619601", 10).unwrap(),
        BigUint::parse_bytes(b"9746347772161", 10).unwrap(),
        BigUint::parse_bytes(b"1436697831295441", 10).unwrap(),
        BigUint::parse_bytes(b"60977817398996785", 10).unwrap(),
        BigUint::parse_bytes(b"7156857700403137441", 10).unwrap(),
    ];

    for carmichael in carmichaels {
        assert_eq!(fermat(&carmichael), true);
    }
}

#[test]
fn prime_test() {
    let powers = vec![2, 3, 5, 7, 13, 17, 19, 31, 61, 89, 107, 127, 521, 607, 1279, 2203];
    for power in powers {
        println!("Testing M{}", power);
        assert!(lucas_lehmer_test(&BigUint::from(power as u32)));
    }
}

#[test]
fn composite_test() {
    let powers = vec![
        11, 23, 29, 37, 41, 43, 47, 53, 59, 67, 71, 73, 79, 83, 97, 101, 103, 109, 113, 131,
        137, 139, 149, 151, 157, 163, 167, 173, 179,
    ];
    for power in powers {
        println!("Testing M{}", power);
        assert!(!lucas_lehmer_test(&BigUint::from(power as u32)));
    }
}

#[test]
fn miller_rabin_edge_cases() {
    // Test case 0: False
    assert_eq!(miller_rabin(&BigUint::zero()), false);

    // Test case 1: False
    assert_eq!(miller_rabin(&BigUint::one()), false);

    // Test case 2: True
    assert_eq!(miller_rabin(&BigUint::from(2u32)), true);

    // Test case 3: True
    assert_eq!(miller_rabin(&BigUint::from(3u32)), true);

    // Test case 4: False
    assert_eq!(miller_rabin(&BigUint::from(4u32)), false);
}

#[test]
fn miller_rabin_large_primes() {
    let primes = [
        // 10-12 digit primes
        "871603259",
        "98762051",
        "1000000007",
        "123575321",
        "193818613",
        "444444443",
        "999999937",
        "1000000000039",
        "9999999929",
    ];

    for prime in primes {
        let prime = BigUint::parse_bytes(prime.as_bytes(), 10).unwrap();
        assert_eq!(miller_rabin(&prime), true);
    }
}

#[test]
fn miller_rabin_large_composites() {
    let primes = [
        // 10-12 digit primes
        "871603259",
        "98762051",
        "1000000007",
        "123575321",
        "193818613",
        "444444443",
        "999999937",
        "1000000000039",
        "9999999929",
    ];

    for i in 0..primes.len() {
        for j in 0..primes.len() {
            if i == j {
                continue;
            }
            let composite = BigUint::parse_bytes(primes[i].as_bytes(), 10).unwrap()
                * BigUint::parse_bytes(primes[j].as_bytes(), 10).unwrap();
            assert_eq!(miller_rabin(&composite), false);
        }
    }
}

#[test]
fn counter_example() {
    let counter_example = BigUint::parse_bytes(b"2152302898747", 10).unwrap();
    assert_eq!(miller_rabin(&counter_example), true);
}

#[test]
fn standard_edge_cases() {
    // Test case 0: False
    assert_eq!(standard(&BigUint::zero()), false);

    // Test case 1: False
    assert_eq!(standard(&BigUint::one()), false);

    // Test case 2: True
    assert_eq!(standard(&BigUint::from(2u32)), true);

    // Test case 3: True
    assert_eq!(standard(&BigUint::from(3u32)), true);

    // Test case 4: False
    assert_eq!(standard(&BigUint::from(4u32)), false);
}

#[test]
fn standard_large_primes() {
    let primes = [
        "871603259",
        "98762051",
        "1000000007",
        "123575321",
        "193818613",
        "444444443",
        "999999937",
        "1000000000039",
        "9999999929",
    ];

    for prime in primes {
        let prime = BigUint::parse_bytes(prime.as_bytes(), 10).unwrap();
        assert_eq!(standard(&prime), true);
    }
}

#[test]
fn standard_large_composites() {
    let primes = ["914491", "15959", "767857", "14293", "680123", "617237"];

    for i in 0..primes.len() {
        for j in 0..primes.len() {
            if i == j {
                continue;
            }
            let composite = BigUint::parse_bytes(primes[i].as_bytes(), 10).unwrap()
                * BigUint::parse_bytes(primes[j].as_bytes(), 10).unwrap();
            assert_eq!(standard(&composite), false);
        }
    }
}

#[test]
fn trial_division_literal_scenarios() {
    assert_eq!(standard(&BigUint::from(97u32)), true);
    assert_eq!(standard(&BigUint::from(100u32)), false);
}

#[test]
fn lucas_lehmer_literal_scenarios() {
    // M7 = 127 is prime; M11 = 2047 = 23 * 89 is composite.
    assert_eq!(lucas_lehmer_test(&BigUint::from(7u32)), true);
    assert_eq!(lucas_lehmer_test(&BigUint::from(11u32)), false);
}
