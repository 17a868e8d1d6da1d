use num_bigint::BigUint;

use large_primes::get_max_primes;

#[test]
fn primes_edge_cases() {
    // Test case 0: Empty
    assert_eq!(get_max_primes(0), Vec::<BigUint>::new());

    // Test case 1: Empty
    assert_eq!(get_max_primes(1), Vec::<BigUint>::new());

    // Test case 2: [2]
    assert_eq!(get_max_primes(2), vec![BigUint::from(2u32)]);

    // Test case 3: [2, 3]
    assert_eq!(get_max_primes(3), vec![BigUint::from(2u32), BigUint::from(3u32)]);

    // Test case 4: [2, 3]
    assert_eq!(get_max_primes(4), vec![BigUint::from(2u32), BigUint::from(3u32)]);
}

#[test]
fn large_test() {
    // Generate Huge list of prime numbers
    let primes = get_max_primes(10000000);
    assert_eq!(primes.len(), 664579);

    assert_eq!(primes[0], BigUint::from(2u32));
    assert_eq!(primes[9], BigUint::from(29u32));
    assert_eq!(primes[99], BigUint::from(541u32));
    assert_eq!(primes[999], BigUint::from(7919u32));
    assert_eq!(primes[9999], BigUint::from(104729u32));
    assert_eq!(primes[99999], BigUint::from(1299709u32));
    assert_eq!(primes[599999], BigUint::from(8960453u32));
}

#[test]
fn first_primes_in_order() {
    assert_eq!(
        get_max_primes(10),
        vec![
            BigUint::from(2u32),
            BigUint::from(3u32),
            BigUint::from(5u32),
            BigUint::from(7u32)
        ]
    );
}

#[test]
fn sieve_strictly_ascending_and_complete() {
    let primes = get_max_primes(1000);
    // Strictly ascending output.
    for w in primes.windows(2) {
        assert!(w[0] < w[1]);
    }
    // A few known composites must be absent, a few known primes present.
    for p in [2u32, 3, 5, 997] {
        assert!(primes.contains(&BigUint::from(p)));
    }
    for c in [1u32, 4, 100, 561, 1000] {
        assert!(!primes.contains(&BigUint::from(c)));
    }
    assert_eq!(primes.len(), 168);
}
