//! The Lucas-Lehmer test for Mersenne numbers.

use vstd::prelude::*;
use num_bigint::BigUint;
use vstd::arithmetic::div_mod::lemma_mod_add_multiples_vanish;
use crate::big::{
    big_add, big_eq, big_from_u64, big_le, big_lt, big_mul, big_rem, big_sub, big_val,
};
use crate::number_theory::{lemma_spec_pow_two_at_least_eight, spec_pow};
use crate::operations::pow::pow;

verus! {

/// The Lucas-Lehmer residue sequence modulo `m`: starts at 4, and each step
/// squares, subtracts 2 and reduces modulo `m`.
pub open spec fn lucas_seq(k: nat, m: int) -> int
    decreases k,
{
    if k == 0 {
        4
    } else {
        (lucas_seq((k - 1) as nat, m) * lucas_seq((k - 1) as nat, m) - 2) % m
    }
}

/// The Mersenne number `2^p - 1` is prime exactly when the residue sequence
/// reaches 0 after `p - 2` steps; `p <= 1` is rejected and `p == 2` accepted
/// outright.
pub open spec fn spec_lucas_lehmer(p: nat) -> bool {
    if p <= 1 {
        false
    } else if p == 2 {
        true
    } else {
        lucas_seq((p - 2) as nat, spec_pow(2, p) as int - 1) == 0
    }
}

/// Whether the Mersenne number `2^power - 1` is prime, by the Lucas-Lehmer
/// recurrence. Exact, but only for numbers of the Mersenne form.
pub fn lucas_lehmer_test(power: &BigUint) -> (r: bool)
    ensures
        r == spec_lucas_lehmer(big_val(*power)),
{
    let one = big_from_u64(1);
    let two = big_from_u64(2);
    if big_le(power, &one) {
        return false;
    }
    if big_eq(power, &two) {
        return true;
    }
    let ghost p = big_val(*power);
    proof {
        lemma_spec_pow_two_at_least_eight(p);
    }
    let pw = pow(&two, power);
    let mersenne = big_sub(&pw, &one);
    let ghost m = big_val(mersenne);
    let mut sum = big_from_u64(4);
    let mut i = big_from_u64(0);
    let bound = big_sub(power, &two);
    loop
        invariant
            big_val(one) == 1,
            big_val(two) == 2,
            p >= 3,
            m == spec_pow(2, p) - 1,
            m >= 7,
            m == big_val(mersenne),
            big_val(bound) == p - 2,
            big_val(i) <= p - 2,
            big_val(sum) as int == lucas_seq(big_val(i), m as int),
        ensures
            big_val(i) == p - 2,
            big_val(sum) as int == lucas_seq((p - 2) as nat, m as int),
        decreases p - big_val(i),
    {
        if !big_lt(&i, &bound) {
            break;
        }
        let ghost s0 = big_val(sum) as int;
        let sq = big_mul(&sum, &sum);
        let m2 = big_sub(&mersenne, &two);
        let t = big_add(&sq, &m2);
        sum = big_rem(&t, &mersenne);
        i = big_add(&i, &one);
        proof {
            lemma_mod_add_multiples_vanish(s0 * s0 - 2, m as int);
            assert(big_val(sum) as int == (s0 * s0 - 2) % (m as int));
            assert(lucas_seq(big_val(i), m as int) == (s0 * s0 - 2) % (m as int));
        }
    }
    let zero = big_from_u64(0);
    big_eq(&sum, &zero)
}

} // verus!
