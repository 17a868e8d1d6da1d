//! Deterministic primality by trial division.

use vstd::prelude::*;
use num_bigint::BigUint;
use crate::big::{big_add, big_eq, big_from_u64, big_le, big_rem, big_sqrt, big_val};
use crate::number_theory::{is_prime, lemma_no_small_factor_is_prime};

verus! {

/// Tests every candidate factor from 2 up to one past the square root.
/// Exact: the answer is primality itself, with no probabilistic slack — at
/// the price of a square root's worth of divisions.
pub fn standard(num: &BigUint) -> (r: bool)
    ensures
        r == is_prime(big_val(*num)),
{
    let one = big_from_u64(1);
    let two = big_from_u64(2);
    if big_le(num, &one) {
        return false;
    }
    if big_eq(num, &two) {
        return true;
    }
    let ghost n = big_val(*num);
    let isq = big_sqrt(num);
    let sqrt_num = big_add(&isq, &one);
    let ghost q = big_val(isq);
    let ghost s = big_val(sqrt_num);
    proof {
        assert(q * q <= n < (q + 1) * (q + 1));
        if q == 0 {
            assert((q + 1) * (q + 1) == 1) by (nonlinear_arith)
                requires
                    q == 0,
            ;
            assert(false);
        }
        assert(s >= 2);
        assert((s - 1) * (s - 1) <= n < s * s);
    }
    let zero = big_from_u64(0);
    let mut factor = big_from_u64(2);
    loop
        invariant
            big_val(zero) == 0,
            big_val(one) == 1,
            n == big_val(*num),
            n >= 3,
            s == big_val(sqrt_num),
            2 <= s,
            (s - 1) * (s - 1) <= n < s * s,
            2 <= big_val(factor) <= s + 1,
            forall|f: nat| 2 <= f < big_val(factor) ==> #[trigger] (n % f) != 0,
        ensures
            big_val(factor) > s,
            forall|f: nat| 2 <= f < big_val(factor) ==> #[trigger] (n % f) != 0,
        decreases s + 1 - big_val(factor),
    {
        if !big_le(&factor, &sqrt_num) {
            break;
        }
        let rem = big_rem(num, &factor);
        if big_eq(&rem, &zero) {
            proof {
                let fv = big_val(factor);
                assert(s < n) by (nonlinear_arith)
                    requires
                        (s - 1) * (s - 1) <= n,
                        n >= 3,
                        s >= 2,
                ;
                assert(2 <= fv < n && n % fv == 0);
                if is_prime(n) {
                    assert(n % fv != 0);
                }
            }
            return false;
        }
        factor = big_add(&factor, &one);
    }
    proof {
        assert forall|f: nat| 2 <= f < n && f * f <= n implies #[trigger] (n % f) != 0 by {
            assert(f < s) by (nonlinear_arith)
                requires
                    f * f <= n,
                    n < s * s,
                    f >= 0,
                    s >= 0,
            ;
        }
        lemma_no_small_factor_is_prime(n);
    }
    true
}

} // verus!
