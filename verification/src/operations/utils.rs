//! Binary-representation analysis: counting trailing zero bits.

use vstd::prelude::*;
use num_bigint::BigUint;
use crate::big::{big_add, big_clone, big_eq, big_from_u64, big_half, big_rem, big_val};
use crate::number_theory::spec_trailing_zeros;

verus! {

/// The number of consecutive zero low-order bits of `num`.
///
/// `num` must be positive: on zero there is no lowest set bit, and the
/// original loop would never find one.
pub fn get_trailing_zeros(num: &BigUint) -> (r: BigUint)
    requires
        big_val(*num) > 0,
    ensures
        big_val(r) == spec_trailing_zeros(big_val(*num)),
{
    let mut count = big_from_u64(0);
    let mut n = big_clone(num);
    let zero = big_from_u64(0);
    let one = big_from_u64(1);
    let two = big_from_u64(2);
    loop
        invariant
            big_val(zero) == 0,
            big_val(one) == 1,
            big_val(two) == 2,
            big_val(n) > 0,
            spec_trailing_zeros(big_val(*num)) == big_val(count) + spec_trailing_zeros(big_val(n)),
        ensures
            big_val(n) % 2 == 1,
            spec_trailing_zeros(big_val(*num)) == big_val(count) + spec_trailing_zeros(big_val(n)),
        decreases big_val(n),
    {
        let parity = big_rem(&n, &two);
        if !big_eq(&parity, &zero) {
            break;
        }
        n = big_half(&n);
        count = big_add(&count, &one);
    }
    count
}

} // verus!
