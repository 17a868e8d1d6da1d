//! Binary (square-and-multiply) exponentiation, plain and modular.

use vstd::prelude::*;
use num_bigint::BigUint;
use vstd::arithmetic::div_mod::{
    lemma_mul_mod_noop_general, lemma_mul_mod_noop_left, lemma_mul_mod_noop_right, lemma_small_mod,
};
use crate::big::{
    big_clone, big_eq, big_from_u64, big_half, big_lt, big_mul, big_rem, big_val,
};
use crate::number_theory::{
    lemma_pow_halving, lemma_spec_pow_adds, lemma_spec_pow_mod_noop, spec_pow,
};

verus! {

/// `base` raised to `exp`, with `pow(base, 0) == 1` for every base. The
/// result grows without bound; no modulus is applied.
pub fn pow(base: &BigUint, exp: &BigUint) -> (r: BigUint)
    ensures
        big_val(r) == spec_pow(big_val(*base), big_val(*exp)),
        big_val(*exp) == 0 ==> big_val(r) == 1,
{
    let mut result = big_from_u64(1);
    let mut current_base = big_clone(base);
    let mut power = big_clone(exp);
    let zero = big_from_u64(0);
    let one = big_from_u64(1);
    let two = big_from_u64(2);
    loop
        invariant
            big_val(zero) == 0,
            big_val(one) == 1,
            big_val(two) == 2,
            big_val(result) * spec_pow(big_val(current_base), big_val(power)) == spec_pow(
                big_val(*base),
                big_val(*exp),
            ),
        ensures
            big_val(power) == 0,
            big_val(result) * spec_pow(big_val(current_base), big_val(power)) == spec_pow(
                big_val(*base),
                big_val(*exp),
            ),
        decreases big_val(power),
    {
        if !big_lt(&zero, &power) {
            break;
        }
        let ghost p0 = big_val(power);
        let ghost c0 = big_val(current_base);
        let ghost r0 = big_val(result);
        let parity = big_rem(&power, &two);
        if big_eq(&parity, &one) {
            result = big_mul(&result, &current_base);
        }
        power = big_half(&power);
        current_base = big_mul(&current_base, &current_base);
        proof {
            lemma_pow_halving(c0, p0);
            if p0 % 2 == 1 {
                assert((r0 * c0) * spec_pow(c0 * c0, p0 / 2) == r0 * (c0 * spec_pow(
                    c0 * c0,
                    p0 / 2,
                ))) by (nonlinear_arith);
            }
        }
    }
    proof {
        assert(big_val(power) == 0);
        assert(spec_pow(big_val(current_base), 0) == 1);
        assert(big_val(result) * spec_pow(big_val(current_base), big_val(power)) == spec_pow(
            big_val(*base),
            big_val(*exp),
        ));
    }
    result
}

/// `(base ^ exp) % modulus` by the same binary loop, reducing after every
/// multiplication. The modulus must be positive; the result is always below
/// it.
pub fn pow_mod(base: &BigUint, exp: &BigUint, modulus: &BigUint) -> (r: BigUint)
    requires
        big_val(*modulus) > 0,
    ensures
        big_val(r) == spec_pow(big_val(*base), big_val(*exp)) % big_val(*modulus),
{
    let ghost m = big_val(*modulus);
    let ghost b0 = big_val(*base);
    let ghost e0 = big_val(*exp);
    let zero = big_from_u64(0);
    let one = big_from_u64(1);
    let two = big_from_u64(2);
    let mut result = big_rem(&one, modulus);
    let mut current_base = big_rem(base, modulus);
    let mut power = big_clone(exp);
    proof {
        lemma_spec_pow_mod_noop(b0, e0, m);
        lemma_mul_mod_noop_left(1, spec_pow(b0 % m, e0) as int, m as int);
    }
    loop
        invariant
            big_val(zero) == 0,
            big_val(one) == 1,
            big_val(two) == 2,
            m == big_val(*modulus),
            m > 0,
            big_val(result) < m,
            big_val(current_base) < m,
            (big_val(result) * spec_pow(big_val(current_base), big_val(power))) % m == spec_pow(
                b0,
                e0,
            ) % m,
        ensures
            big_val(power) == 0,
            big_val(result) < m,
            (big_val(result) * spec_pow(big_val(current_base), big_val(power))) % m == spec_pow(
                b0,
                e0,
            ) % m,
        decreases big_val(power),
    {
        if !big_lt(&zero, &power) {
            break;
        }
        let ghost p0 = big_val(power);
        let ghost c0 = big_val(current_base);
        let ghost r0 = big_val(result);
        let parity = big_rem(&power, &two);
        if big_eq(&parity, &one) {
            let t = big_mul(&result, &current_base);
            result = big_rem(&t, modulus);
        }
        power = big_half(&power);
        let s = big_mul(&current_base, &current_base);
        current_base = big_rem(&s, modulus);
        proof {
            let k = p0 / 2;
            lemma_pow_halving(c0, p0);
            lemma_spec_pow_mod_noop(c0 * c0, k, m);
            if p0 % 2 == 1 {
                lemma_mul_mod_noop_left(
                    (r0 * c0) as int,
                    spec_pow((c0 * c0) % m, k) as int,
                    m as int,
                );
                lemma_mul_mod_noop_right(
                    (r0 * c0) as int,
                    spec_pow((c0 * c0) % m, k) as int,
                    m as int,
                );
                lemma_mul_mod_noop_right((r0 * c0) as int, spec_pow(c0 * c0, k) as int, m as int);
                assert((r0 * c0) * spec_pow(c0 * c0, k) == r0 * (c0 * spec_pow(c0 * c0, k)))
                    by (nonlinear_arith);
            } else {
                lemma_mul_mod_noop_right(r0 as int, spec_pow((c0 * c0) % m, k) as int, m as int);
                lemma_mul_mod_noop_right(r0 as int, spec_pow(c0 * c0, k) as int, m as int);
            }
        }
    }
    proof {
        assert(spec_pow(big_val(current_base), big_val(power)) == 1);
        assert((big_val(result) * 1) % m == spec_pow(b0, e0) % m);
        lemma_small_mod(big_val(result), m);
        assert(big_val(result) == spec_pow(b0, e0) % m);
    }
    result
}

/// Splitting an exponent: a power of a sum of exponents, taken modulo `m`,
/// is the modular product of the two partial modular powers.
pub proof fn lemma_pow_mod_splits(b: nat, e1: nat, e2: nat, m: nat)
    requires
        m > 0,
    ensures
        spec_pow(b, e1 + e2) % m == ((spec_pow(b, e1) % m) * (spec_pow(b, e2) % m)) % m,
{
    lemma_spec_pow_adds(b, e1, e2);
    lemma_mul_mod_noop_general(spec_pow(b, e1) as int, spec_pow(b, e2) as int, m as int);
}

} // verus!
