//! All primes up to a bound, by the sieve of Eratosthenes.

use vstd::prelude::*;
use num_bigint::BigUint;
use vstd::arithmetic::div_mod::{
    lemma_fundamental_div_mod, lemma_mod_add_multiples_vanish,
    lemma_mod_multiples_basic,
};
use crate::big::{big_from_u64, big_val};
use crate::number_theory::{
    is_prime, lemma_divides_transitive, lemma_no_small_factor_is_prime,
};

verus! {

/// Some number of at least 2 and below `i` divides `j` and is at most its
/// square root. This is exactly the property the sieve has established about
/// `j` once every candidate below `i` has marked its multiples.
spec fn has_factor_below(j: nat, i: nat) -> bool {
    exists|d: nat| 2 <= d < i && d * d <= j && #[trigger] (j % d) == 0
}

/// Raising the bound by one adds exactly the multiples of the old bound that
/// lie at or above its square.
proof fn lemma_factor_step(j: nat, i: nat)
    requires
        i >= 2,
    ensures
        has_factor_below(j, i + 1) == (has_factor_below(j, i) || (j % i == 0 && i * i <= j)),
{
    if has_factor_below(j, i + 1) {
        let d = choose|d: nat| 2 <= d < i + 1 && d * d <= j && #[trigger] (j % d) == 0;
        if d < i {
            assert(has_factor_below(j, i));
        } else {
            assert(d == i);
        }
    }
    if has_factor_below(j, i) {
        let d = choose|d: nat| 2 <= d < i && d * d <= j && #[trigger] (j % d) == 0;
        assert(2 <= d < i + 1 && d * d <= j && j % d == 0);
        assert(has_factor_below(j, i + 1));
    }
    if j % i == 0 && i * i <= j {
        assert(2 <= i < i + 1 && i * i <= j && j % i == 0);
        assert(has_factor_below(j, i + 1));
    }
}

/// A multiple of a composite bound is already covered by a factor of that
/// bound, so a composite marks nothing new.
proof fn lemma_composite_multiples_covered(j: nat, i: nat)
    requires
        i >= 2,
        has_factor_below(i, i),
        j % i == 0,
        i * i <= j,
    ensures
        has_factor_below(j, i),
{
    let e = choose|d: nat| 2 <= d < i && d * d <= i && #[trigger] (i % d) == 0;
    lemma_divides_transitive(j, i, e);
    assert(i <= i * i) by (nonlinear_arith)
        requires
            i >= 2,
    ;
    assert(2 <= e < i && e * e <= j && j % e == 0);
}

/// A divisor at most the square root refutes primality.
proof fn lemma_small_factor_not_prime(j: nat, d: nat)
    requires
        2 <= d,
        d * d <= j,
        j % d == 0,
    ensures
        !is_prime(j),
{
    assert(d < j) by (nonlinear_arith)
        requires
            d >= 2,
            d * d <= j,
    ;
    if is_prime(j) {
        assert(j % d != 0);
    }
}

/// A number the sieve left unmarked is prime.
proof fn lemma_unmarked_is_prime(n: nat, bound: nat)
    requires
        2 <= n <= bound,
        !has_factor_below(n, bound),
    ensures
        is_prime(n),
{
    assert forall|f: nat| 2 <= f < n && f * f <= n implies #[trigger] (n % f) != 0 by {
        if n % f == 0 {
            assert(2 <= f < bound && f * f <= n && n % f == 0);
            assert(has_factor_below(n, bound));
        }
    }
    lemma_no_small_factor_is_prime(n);
}

/// Two multiples of `i` less than `i` apart cannot straddle each other: the
/// smaller is at most the larger.
proof fn lemma_multiple_gap(jj: nat, j: nat, i: nat)
    requires
        i > 0,
        jj % i == 0,
        j % i == 0,
        jj < j + i,
    ensures
        jj <= j,
{
    let a = jj / i;
    let b = j / i;
    lemma_fundamental_div_mod(jj as int, i as int);
    lemma_fundamental_div_mod(j as int, i as int);
    assert(jj <= j) by (nonlinear_arith)
        requires
            jj == i * a,
            j == i * b,
            jj < j + i,
            i > 0,
            a >= 0,
            b >= 0,
    ;
}

/// Every prime up to `maximum`, in ascending order; empty when `maximum < 2`.
///
/// The bound must leave room for a sieve table of `maximum + 1` entries.
pub fn get_max_primes(maximum: u64) -> (r: Vec<BigUint>)
    requires
        maximum + 1 <= usize::MAX,
    ensures
        forall|k: int|
            0 <= k < r@.len() ==> is_prime(big_val(#[trigger] r@[k])) && big_val(r@[k]) <= maximum,
        forall|q: nat|
            #[trigger] is_prime(q) && q <= maximum ==> exists|k: int|
                0 <= k < r@.len() && big_val(r@[k]) == q,
        forall|k1: int, k2: int|
            0 <= k1 < k2 < r@.len() ==> big_val(r@[k1]) < big_val(r@[k2]),
{
    if maximum < 2 {
        return Vec::new();
    }
    let len: usize = (maximum + 1) as usize;
    let mut sieve: Vec<bool> = Vec::new();
    let mut idx: usize = 0;
    while idx < len
        invariant
            idx <= len,
            sieve@.len() == idx,
            forall|k: int| 0 <= k < idx ==> sieve@[k] == true,
        decreases len - idx,
    {
        sieve.push(true);
        idx = idx + 1;
    }
    sieve[0] = false;
    sieve[1] = false;
    let mut primes: Vec<BigUint> = Vec::new();
    let mut i: u64 = 2;
    while i <= maximum
        invariant
            2 <= i <= maximum + 1,
            2 <= maximum,
            maximum + 1 <= usize::MAX,
            sieve@.len() == maximum + 1,
            forall|jj: nat|
                2 <= jj <= maximum ==> sieve@[jj as int] == !has_factor_below(
                    jj,
                    i as nat,
                ),
            forall|k: int|
                0 <= k < primes@.len() ==> 2 <= big_val(#[trigger] primes@[k]) < i && is_prime(
                    big_val(primes@[k]),
                ),
            forall|q: nat|
                #[trigger] is_prime(q) && q < i ==> exists|k: int|
                    0 <= k < primes@.len() && big_val(primes@[k]) == q,
            forall|k1: int, k2: int|
                0 <= k1 < k2 < primes@.len() ==> big_val(primes@[k1]) < big_val(primes@[k2]),
        decreases maximum + 1 - i,
    {
        if sieve[i as usize] {
            proof {
                lemma_unmarked_is_prime(i as nat, i as nat);
            }
            let ghost primes0 = primes@;
            primes.push(big_from_u64(i));
            proof {
                assert(big_val(primes@[primes@.len() - 1]) == i as nat);
                assert forall|q: nat| #[trigger] is_prime(q) && q < i + 1 implies exists|k: int|
                    0 <= k < primes@.len() && big_val(primes@[k]) == q by {
                    if q < i as nat {
                        let k0 = choose|k: int| 0 <= k < primes0.len() && big_val(primes0[k]) == q;
                        assert(big_val(primes@[k0]) == q);
                    } else {
                        assert(big_val(primes@[primes@.len() - 1]) == q);
                    }
                }
            }
            proof {
                assert((i as nat) * (i as nat) <= u64::MAX * u64::MAX) by (nonlinear_arith)
                    requires
                        i <= u64::MAX,
                ;
            }
            let mut j: u128 = (i as u128) * (i as u128);
            proof {
                lemma_mod_multiples_basic(i as int, i as int);
            }
            while j <= maximum as u128
                invariant
                    2 <= i <= maximum,
                    maximum + 1 <= usize::MAX,
                    sieve@.len() == maximum + 1,
                    (i as nat) * (i as nat) <= j as nat,
                    j as nat % (i as nat) == 0,
                    forall|jj: nat|
                        2 <= jj <= maximum ==> sieve@[jj as int] == !(has_factor_below(
                            jj,
                            i as nat,
                        ) || (jj % (i as nat) == 0 && (i as nat) * (i as nat) <= jj && jj < j
                            as nat)),
                decreases maximum as int + i as int - j as int,
            {
                let ghost jn = j as nat;
                let ghost iv = i as nat;
                let ghost sieve0 = sieve@;
                sieve[j as usize] = false;
                j = j + (i as u128);
                proof {
                    lemma_mod_add_multiples_vanish(jn as int, iv as int);
                    assert(j as nat == jn + iv);
                    assert(j as nat % iv == 0);
                    assert(sieve@ == sieve0.update(jn as int, false));
                    assert forall|jj: nat| 2 <= jj <= maximum implies sieve@[jj as int] == !(
                    has_factor_below(jj, iv) || (jj % iv == 0 && iv * iv <= jj && jj < j as nat)) by {
                        assert(sieve0[jj as int] == !(has_factor_below(jj, iv) || (jj % iv == 0
                            && iv * iv <= jj && jj < jn)));
                        if jj == jn {
                            assert(sieve@[jj as int] == false);
                        } else {
                            assert(sieve@[jj as int] == sieve0[jj as int]);
                            if jj % iv == 0 && iv * iv <= jj && jj < j as nat {
                                lemma_multiple_gap(jj, jn, iv);
                                assert(jj < jn);
                            }
                        }
                    }
                }
            }
            proof {
                assert forall|jj: nat| 2 <= jj <= maximum implies sieve@[jj as int]
                    == !has_factor_below(jj, (i + 1) as nat) by {
                    lemma_factor_step(jj, i as nat);
                }
            }
        } else {
            proof {
                assert(has_factor_below(i as nat, i as nat));
                let d = choose|d: nat|
                    2 <= d < i as nat && d * d <= i as nat && #[trigger] ((i as nat) % d) == 0;
                lemma_small_factor_not_prime(i as nat, d);
                assert forall|jj: nat| 2 <= jj <= maximum implies sieve@[jj as int]
                    == !has_factor_below(jj, (i + 1) as nat) by {
                    lemma_factor_step(jj, i as nat);
                    if jj % (i as nat) == 0 && (i as nat) * (i as nat) <= jj {
                        lemma_composite_multiples_covered(jj, i as nat);
                    }
                }
            }
        }
        i = i + 1;
    }
    primes
}

} // verus!
