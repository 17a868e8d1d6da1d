//! The Miller-Rabin primality test.

use vstd::prelude::*;
use num_bigint::BigUint;
use vstd::arithmetic::div_mod::{lemma_mod_self_0, lemma_small_mod};
use crate::big::{
    big_add, big_div, big_eq, big_from_u64, big_le, big_lt, big_mul, big_rem, big_sub, big_val,
};
use crate::number_theory::{
    lemma_spec_pow_pos, lemma_trailing_zeros_decomposition, spec_pow, spec_trailing_zeros,
};
use crate::operations::pow::{pow, pow_mod};
use crate::operations::utils::get_trailing_zeros;

verus! {

/// The fixed witness set of the Miller-Rabin test, deterministic for all
/// candidates below 2^64 and probabilistic beyond.
pub open spec fn mr_witnesses() -> Seq<u64> {
    seq![2u64, 3u64, 5u64, 7u64, 11u64]
}

/// `r` in the decomposition `n - 1 == 2^r * d` with `d` odd: the number of
/// squaring rounds available to a witness.
pub open spec fn mr_rounds(n: nat) -> nat {
    spec_trailing_zeros((n - 1) as nat)
}

/// `d` in the decomposition `n - 1 == 2^r * d`: the odd factor the witness is
/// first raised to.
pub open spec fn mr_odd_part(n: nat) -> nat {
    (n - 1) as nat / spec_pow(2, mr_rounds(n))
}

/// A single witness passes when `a^d == 1 (mod n)`, or when some round
/// `t < r` reaches `a^(d * 2^t) == n - 1 (mod n)`.
pub open spec fn mr_witness_passes(n: nat, a: nat) -> bool {
    spec_pow(a, mr_odd_part(n)) % n == 1 || exists|t: nat|
        t < mr_rounds(n) && #[trigger] (spec_pow(a, mr_odd_part(n) * spec_pow(2, t)) % n) == (n
            - 1) as nat
}

/// The Miller-Rabin test rejects 0 and 1, accepts 2 outright, and otherwise
/// accepts exactly when every witness below the candidate passes; witnesses
/// at or above the candidate are inapplicable and skipped.
pub open spec fn spec_miller_rabin(n: nat) -> bool {
    if n <= 1 {
        false
    } else if n == 2 {
        true
    } else {
        forall|k: int|
            0 <= k < mr_witnesses().len() ==> (#[trigger] mr_witnesses()[k]) as nat >= n
                || mr_witness_passes(n, mr_witnesses()[k] as nat)
    }
}

/// The decomposition the test computes is genuine: for a candidate of at
/// least 3, `n - 1` really is `2^r` times the odd `d`.
pub proof fn lemma_mr_decomposition(n: nat)
    requires
        n >= 3,
    ensures
        (n - 1) as nat == spec_pow(2, mr_rounds(n)) * mr_odd_part(n),
        mr_odd_part(n) % 2 == 1,
{
    lemma_trailing_zeros_decomposition((n - 1) as nat);
}

/// Probabilistic primality by the Miller-Rabin strong-pseudoprime test over
/// the fixed witness set 2, 3, 5, 7, 11.
pub fn miller_rabin(num: &BigUint) -> (r: bool)
    ensures
        r == spec_miller_rabin(big_val(*num)),
{
    let zero = big_from_u64(0);
    let one = big_from_u64(1);
    let two = big_from_u64(2);
    if big_le(num, &one) {
        return false;
    }
    if big_eq(num, &two) {
        return true;
    }
    let ghost n = big_val(*num);
    let num_minus_one = big_sub(num, &one);
    let s = get_trailing_zeros(&num_minus_one);
    let ghost rounds = big_val(s);
    proof {
        lemma_spec_pow_pos(2, rounds);
    }
    let p2s = pow(&two, &s);
    let d = big_div(&num_minus_one, &p2s);
    let ghost dv = big_val(d);
    proof {
        assert(rounds == mr_rounds(n));
        assert(dv == mr_odd_part(n));
    }
    let mut witnesses: Vec<u64> = Vec::new();
    witnesses.push(2);
    witnesses.push(3);
    witnesses.push(5);
    witnesses.push(7);
    witnesses.push(11);
    proof {
        assert(witnesses@ =~= mr_witnesses());
    }
    let mut k: usize = 0;
    while k < witnesses.len()
        invariant
            big_val(zero) == 0,
            big_val(one) == 1,
            big_val(two) == 2,
            n == big_val(*num),
            n >= 3,
            rounds == mr_rounds(n),
            rounds == big_val(s),
            dv == mr_odd_part(n),
            dv == big_val(d),
            witnesses@ == mr_witnesses(),
            k <= witnesses@.len(),
            forall|t: int|
                0 <= t < k ==> (#[trigger] mr_witnesses()[t]) as nat >= n || mr_witness_passes(
                    n,
                    mr_witnesses()[t] as nat,
                ),
        decreases witnesses@.len() - k,
    {
        let a = big_from_u64(witnesses[k]);
        let ghost av = big_val(a);
        if big_lt(&a, num) {
            let x = pow_mod(&a, &d, num);
            if big_eq(&x, &one) {
                proof {
                    assert(mr_witness_passes(n, av));
                }
            } else {
                let mut found = false;
                let mut rr = big_from_u64(0);
                loop
                    invariant
                        big_val(zero) == 0,
                        big_val(one) == 1,
                        big_val(two) == 2,
                        n == big_val(*num),
                        n >= 3,
                        rounds == mr_rounds(n),
                        rounds == big_val(s),
                        dv == mr_odd_part(n),
                        dv == big_val(d),
                        av == big_val(a),
                        av < n,
                        big_val(rr) <= rounds,
                        !found ==> forall|t: nat|
                            t < big_val(rr) ==> #[trigger] (spec_pow(av, dv * spec_pow(2, t))
                                % n) != (n - 1) as nat,
                        found ==> mr_witness_passes(n, av),
                    ensures
                        found ==> mr_witness_passes(n, av),
                        !found ==> forall|t: nat|
                            t < rounds ==> #[trigger] (spec_pow(av, dv * spec_pow(2, t)) % n) != (
                            n - 1) as nat,
                    decreases rounds - big_val(rr),
                {
                    if !big_lt(&rr, &s) {
                        break;
                    }
                    let ghost rv = big_val(rr);
                    let p2r = pow(&two, &rr);
                    let a_power = big_mul(&d, &p2r);
                    let y = pow_mod(&a, &a_power, num);
                    let y1 = big_add(&y, &one);
                    let z = big_rem(&y1, num);
                    if big_eq(&z, &zero) {
                        proof {
                            if big_val(y1) < n {
                                lemma_small_mod(big_val(y1), n);
                            }
                            assert(big_val(y) == (n - 1) as nat);
                            assert(spec_pow(av, dv * spec_pow(2, rv)) % n == (n - 1) as nat);
                            assert(mr_witness_passes(n, av));
                        }
                        found = true;
                        break;
                    }
                    proof {
                        if big_val(y) == (n - 1) as nat {
                            assert(big_val(y1) == n);
                            lemma_mod_self_0(n as int);
                            assert(false);
                        }
                        if !found {
                            assert forall|t: nat| t < rv + 1 implies #[trigger] (spec_pow(
                                av,
                                dv * spec_pow(2, t),
                            ) % n) != (n - 1) as nat by {
                                if t == rv {
                                    assert(spec_pow(av, dv * spec_pow(2, t)) % n != (n
                                        - 1) as nat);
                                }
                            }
                        }
                    }
                    rr = big_add(&rr, &one);
                }
                if !found {
                    proof {
                        if mr_witness_passes(n, av) {
                            if spec_pow(av, mr_odd_part(n)) % n != 1 {
                                let t = choose|t: nat|
                                    t < mr_rounds(n) && #[trigger] (spec_pow(
                                        av,
                                        mr_odd_part(n) * spec_pow(2, t),
                                    ) % n) == (n - 1) as nat;
                                assert(spec_pow(av, dv * spec_pow(2, t)) % n != (n - 1) as nat);
                            }
                            assert(false);
                        }
                        if spec_miller_rabin(n) {
                            assert((mr_witnesses()[k as int]) as nat >= n || mr_witness_passes(
                                n,
                                mr_witnesses()[k as int] as nat,
                            ));
                            assert(false);
                        }
                    }
                    return false;
                }
            }
        }
        k = k + 1;
    }
    proof {
        assert(spec_miller_rabin(n));
    }
    true
}

} // verus!
