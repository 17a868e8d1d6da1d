//! The Fermat primality test.

use vstd::prelude::*;
use num_bigint::BigUint;
use crate::big::{big_eq, big_from_u64, big_le, big_val};
use crate::number_theory::{spec_gcd, spec_pow};
use crate::operations::gcd::gcd;
use crate::operations::pow::pow_mod;

verus! {

/// The fixed witness set of the Fermat test.
pub open spec fn fermat_witnesses() -> Seq<u64> {
    seq![2u64, 3u64, 5u64, 7u64, 11u64, 13u64, 17u64, 19u64, 23u64, 29u64]
}

/// A single witness is conclusive or skipped: a witness sharing a factor
/// with the candidate is skipped; otherwise Fermat's congruence
/// `a^n == a (mod n)` must hold.
pub open spec fn fermat_witness_passes(n: nat, a: nat) -> bool {
    spec_gcd(a, n) != 1 || spec_pow(a, n) % n == a % n
}

/// The Fermat test accepts a candidate above 1 exactly when every witness
/// passes or is skipped. Composites coprime to all witnesses that satisfy the
/// congruence (Carmichael numbers) are accepted too: the test has no false
/// negatives, but known false positives.
pub open spec fn spec_fermat(n: nat) -> bool {
    n > 1 && forall|k: int|
        0 <= k < fermat_witnesses().len() ==> #[trigger] fermat_witness_passes(
            n,
            fermat_witnesses()[k] as nat,
        )
}

/// Probabilistic primality by Fermat's little theorem over the fixed witness
/// set 2, 3, 5, 7, 11, 13, 17, 19, 23, 29.
pub fn fermat(num: &BigUint) -> (r: bool)
    ensures
        r == spec_fermat(big_val(*num)),
{
    let one = big_from_u64(1);
    if big_le(num, &one) {
        return false;
    }
    let ghost n = big_val(*num);
    let mut witnesses: Vec<u64> = Vec::new();
    witnesses.push(2);
    witnesses.push(3);
    witnesses.push(5);
    witnesses.push(7);
    witnesses.push(11);
    witnesses.push(13);
    witnesses.push(17);
    witnesses.push(19);
    witnesses.push(23);
    witnesses.push(29);
    proof {
        assert(witnesses@ =~= fermat_witnesses());
    }
    let mut k: usize = 0;
    while k < witnesses.len()
        invariant
            big_val(one) == 1,
            n == big_val(*num),
            n >= 2,
            witnesses@ == fermat_witnesses(),
            k <= witnesses@.len(),
            forall|t: int|
                0 <= t < k ==> #[trigger] fermat_witness_passes(n, fermat_witnesses()[t] as nat),
        decreases witnesses@.len() - k,
    {
        let a = big_from_u64(witnesses[k]);
        let ghost av = big_val(a);
        let g = gcd(&a, num);
        if big_eq(&g, &one) {
            let mod_value = pow_mod(&a, num, num);
            let rhs = pow_mod(&a, &one, num);
            proof {
                assert(spec_pow(av, 0) == 1);
                assert(spec_pow(av, 1) == av * spec_pow(av, 0));
                assert(big_val(rhs) == av % n);
            }
            if !big_eq(&mod_value, &rhs) {
                proof {
                    assert(!fermat_witness_passes(n, fermat_witnesses()[k as int] as nat));
                    if spec_fermat(n) {
                        assert(fermat_witness_passes(n, fermat_witnesses()[k as int] as nat));
                    }
                }
                return false;
            }
        }
        k = k + 1;
    }
    true
}

} // verus!
