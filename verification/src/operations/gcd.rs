//! Greatest common divisor by the Euclidean algorithm.

use vstd::prelude::*;
use num_bigint::BigUint;
use crate::big::{big_clone, big_from_u64, big_lt, big_rem, big_val};
use crate::number_theory::spec_gcd;

verus! {

/// The greatest common divisor of `a` and `b`, with `gcd(0, 0) == 0` by
/// convention and `gcd(a, 0) == a`.
pub fn gcd(a: &BigUint, b: &BigUint) -> (r: BigUint)
    ensures
        big_val(r) == spec_gcd(big_val(*a), big_val(*b)),
{
    let mut x = big_clone(a);
    let mut y = big_clone(b);
    let zero = big_from_u64(0);
    loop
        invariant
            big_val(zero) == 0,
            spec_gcd(big_val(x), big_val(y)) == spec_gcd(big_val(*a), big_val(*b)),
        ensures
            big_val(y) == 0,
            spec_gcd(big_val(x), big_val(y)) == spec_gcd(big_val(*a), big_val(*b)),
        decreases big_val(y),
    {
        if !big_lt(&zero, &y) {
            break;
        }
        let t = big_clone(&y);
        y = big_rem(&x, &y);
        x = t;
    }
    x
}

} // verus!
