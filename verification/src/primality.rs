//! The four primality testers: trial division, Fermat, Miller-Rabin and
//! Lucas-Lehmer.

pub mod fermat;
pub mod lucas_lehmer;
pub mod miller_rabin;
pub mod standard;

use vstd::prelude::*;
use num_bigint::BigUint;
use crate::big::big_val;
use crate::number_theory::is_prime;
use crate::primality::fermat::spec_fermat;
use crate::primality::lucas_lehmer::spec_lucas_lehmer;
use crate::primality::miller_rabin::spec_miller_rabin;

verus! {

/// Cross-validation of the generator against the exact tester: whatever the
/// sieve emits is prime, so trial division — whose verdict is primality
/// itself — is bound by its contract to accept every member of the sieve's
/// output.
pub proof fn lemma_sieve_members_pass_trial_division(primes: Seq<BigUint>, k: int, verdict: bool)
    requires
        forall|t: int| 0 <= t < primes.len() ==> is_prime(big_val(#[trigger] primes[t])),
        0 <= k < primes.len(),
        verdict == is_prime(big_val(primes[k])),
    ensures
        verdict,
{
}

/// Idempotence: each tester's contract fixes its verdict as a function of
/// the candidate alone, so two calls on the same input must agree — there is
/// no hidden state to drift.
pub proof fn lemma_testers_deterministic(
    n: nat,
    p: nat,
    trial1: bool,
    trial2: bool,
    fermat1: bool,
    fermat2: bool,
    miller1: bool,
    miller2: bool,
    lucas1: bool,
    lucas2: bool,
)
    requires
        trial1 == is_prime(n),
        trial2 == is_prime(n),
        fermat1 == spec_fermat(n),
        fermat2 == spec_fermat(n),
        miller1 == spec_miller_rabin(n),
        miller2 == spec_miller_rabin(n),
        lucas1 == spec_lucas_lehmer(p),
        lucas2 == spec_lucas_lehmer(p),
    ensures
        trial1 == trial2,
        fermat1 == fermat2,
        miller1 == miller2,
        lucas1 == lucas2,
{
}

} // verus!
