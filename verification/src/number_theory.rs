//! Mathematical model: primality, gcd, exponentiation and trailing zeros as
//! spec functions over natural numbers, with the lemmas the engine's proofs
//! rest on.

use vstd::prelude::*;
use vstd::arithmetic::div_mod::{
    lemma_div_multiples_vanish, lemma_div_non_zero, lemma_fundamental_div_mod,
    lemma_mod_multiples_basic, lemma_mod_self_0, lemma_small_mod,
};
use vstd::arithmetic::power::{
    lemma_pow_adds, lemma_pow_mod_noop, lemma_pow_multiplies, lemma_square_is_pow2, pow,
};

verus! {

/// A number is prime when it is at least 2 and no smaller number of at least 2
/// divides it.
pub open spec fn is_prime(n: nat) -> bool {
    2 <= n && forall|d: nat| 2 <= d < n ==> #[trigger] (n % d) != 0
}

/// The greatest common divisor by Euclid's recurrence; `spec_gcd(0, 0) == 0`
/// by convention.
pub open spec fn spec_gcd(a: nat, b: nat) -> nat
    decreases b,
{
    if b == 0 {
        a
    } else {
        spec_gcd(b, a % b)
    }
}

/// Plain exponentiation, with `spec_pow(b, 0) == 1` for every base.
pub open spec fn spec_pow(b: nat, e: nat) -> nat
    decreases e,
{
    if e == 0 {
        1
    } else {
        b * spec_pow(b, (e - 1) as nat)
    }
}

/// The number of consecutive zero low-order bits; 0 for an odd number, and
/// fixed at 0 for the (never queried) value 0.
pub open spec fn spec_trailing_zeros(n: nat) -> nat
    decreases n,
{
    if n == 0 || n % 2 == 1 {
        0
    } else {
        1 + spec_trailing_zeros(n / 2)
    }
}

/// `spec_pow` agrees with the vstd power function, so its algebraic lemmas
/// carry over.
pub proof fn lemma_spec_pow_is_pow(b: nat, e: nat)
    ensures
        spec_pow(b, e) == pow(b as int, e),
    decreases e,
{
    reveal(pow);
    if e > 0 {
        lemma_spec_pow_is_pow(b, (e - 1) as nat);
    }
}

/// A positive base gives a positive power.
pub proof fn lemma_spec_pow_pos(b: nat, e: nat)
    ensures
        b > 0 ==> spec_pow(b, e) >= 1,
        b > 1 && e > 0 ==> spec_pow(b, e) >= b,
    decreases e,
{
    if e > 0 {
        lemma_spec_pow_pos(b, (e - 1) as nat);
        if b > 0 {
            assert(spec_pow(b, e) == b * spec_pow(b, (e - 1) as nat));
            assert(b * spec_pow(b, (e - 1) as nat) >= b * 1) by (nonlinear_arith)
                requires
                    spec_pow(b, (e - 1) as nat) >= 1,
                    b > 0,
            ;
        }
    }
}

/// From exponent 3 on, a power of two is at least 8.
pub proof fn lemma_spec_pow_two_at_least_eight(e: nat)
    requires
        e >= 3,
    ensures
        spec_pow(2, e) >= 8,
    decreases e,
{
    if e == 3 {
        reveal_with_fuel(spec_pow, 4);
    } else {
        lemma_spec_pow_two_at_least_eight((e - 1) as nat);
        assert(spec_pow(2, e) == 2 * spec_pow(2, (e - 1) as nat));
    }
}

/// A power of a sum of exponents is the product of the powers.
pub proof fn lemma_spec_pow_adds(b: nat, e1: nat, e2: nat)
    ensures
        spec_pow(b, e1 + e2) == spec_pow(b, e1) * spec_pow(b, e2),
{
    lemma_spec_pow_is_pow(b, e1 + e2);
    lemma_spec_pow_is_pow(b, e1);
    lemma_spec_pow_is_pow(b, e2);
    lemma_pow_adds(b as int, e1, e2);
}

/// Squaring the base halves the exponent.
pub proof fn lemma_spec_pow_square(b: nat, k: nat)
    ensures
        spec_pow(b * b, k) == spec_pow(b, 2 * k),
{
    lemma_spec_pow_is_pow(b * b, k);
    lemma_spec_pow_is_pow(b, 2 * k);
    lemma_square_is_pow2(b as int);
    lemma_pow_multiplies(b as int, 2, k);
}

/// Reducing the base modulo `m` does not change the power modulo `m`.
pub proof fn lemma_spec_pow_mod_noop(b: nat, e: nat, m: nat)
    requires
        m > 0,
    ensures
        spec_pow(b % m, e) % m == spec_pow(b, e) % m,
{
    lemma_spec_pow_is_pow(b % m, e);
    lemma_spec_pow_is_pow(b, e);
    lemma_pow_mod_noop(b as int, e, m as int);
}

/// One step of binary exponentiation: splitting the exponent at its lowest
/// bit turns the power into a power of the squared base.
pub proof fn lemma_pow_halving(c: nat, p: nat)
    requires
        p > 0,
    ensures
        p % 2 == 1 ==> spec_pow(c, p) == c * spec_pow(c * c, p / 2),
        p % 2 == 0 ==> spec_pow(c, p) == spec_pow(c * c, p / 2),
{
    let k = p / 2;
    lemma_fundamental_div_mod(p as int, 2);
    lemma_spec_pow_square(c, k);
    if p % 2 == 1 {
        assert(p == 2 * k + 1);
        lemma_spec_pow_adds(c, 1, 2 * k);
        assert(spec_pow(c, 1) == c * spec_pow(c, 0));
        assert(spec_pow(c, 0) == 1);
    } else {
        assert(p == 2 * k);
    }
}

/// Factoring out the trailing zero bits decomposes a positive number into a
/// power of two times an odd part.
pub proof fn lemma_trailing_zeros_decomposition(m: nat)
    requires
        m > 0,
    ensures
        m % spec_pow(2, spec_trailing_zeros(m)) == 0,
        m == spec_pow(2, spec_trailing_zeros(m)) * (m / spec_pow(2, spec_trailing_zeros(m))),
        (m / spec_pow(2, spec_trailing_zeros(m))) % 2 == 1,
    decreases m,
{
    if m % 2 == 1 {
        assert(spec_trailing_zeros(m) == 0);
        assert(spec_pow(2, 0) == 1);
    } else {
        let h = m / 2;
        lemma_fundamental_div_mod(m as int, 2);
        assert(m == 2 * h);
        lemma_trailing_zeros_decomposition(h);
        let k = spec_trailing_zeros(h);
        let d = h / spec_pow(2, k);
        assert(spec_trailing_zeros(m) == 1 + k);
        assert(spec_pow(2, 1 + k) == 2 * spec_pow(2, k));
        assert(m == (2 * spec_pow(2, k)) * d) by (nonlinear_arith)
            requires
                m == 2 * h,
                h == spec_pow(2, k) * d,
        ;
        let p = 2 * spec_pow(2, k);
        assert(p > 0) by {
            lemma_spec_pow_pos(2, k);
        }
        lemma_mod_multiples_basic(d as int, p as int);
        assert((d * p) % p == 0);
        assert(d * p == p * d) by (nonlinear_arith);
        assert(m % p == 0);
        lemma_div_multiples_vanish(d as int, p as int);
        assert((p * d) / p == d);
        assert(m / p == d);
    }
}

/// A proper divisor yields a divisor no larger than the square root: either
/// the divisor itself or its cofactor.
pub proof fn lemma_divisor_pair(n: nat, d: nat)
    requires
        2 <= d < n,
        n % d == 0,
    ensures
        exists|e: nat| 2 <= e < n && e * e <= n && #[trigger] (n % e) == 0,
{
    if d * d <= n {
        assert(2 <= d < n && d * d <= n && n % d == 0);
    } else {
        let q = n / d;
        lemma_fundamental_div_mod(n as int, d as int);
        assert(n == d * q + n % d);
        assert(n == d * q);
        lemma_div_non_zero(n as int, d as int);
        assert(q >= 1);
        if q == 1 {
            assert(n == d * 1 + n % d);
            assert(false);
        }
        assert(q >= 2);
        lemma_mod_multiples_basic(d as int, q as int);
        assert((d * q) % q == 0);
        assert(n % q == 0);
        assert(q < d) by (nonlinear_arith)
            requires
                d * d > n,
                n == d * q,
                d >= 2,
                q >= 2,
        ;
        assert(q * q < n) by (nonlinear_arith)
            requires
                q < d,
                n == d * q,
                q >= 2,
        ;
        assert(q < n) by (nonlinear_arith)
            requires
                q * q < n,
                q >= 2,
        ;
        assert(2 <= q < n && q * q <= n && n % q == 0);
    }
}

/// A number of at least 2 with no divisor below or at its square root is
/// prime.
pub proof fn lemma_no_small_factor_is_prime(n: nat)
    requires
        2 <= n,
        forall|f: nat| 2 <= f < n && f * f <= n ==> #[trigger] (n % f) != 0,
    ensures
        is_prime(n),
{
    assert forall|d: nat| 2 <= d < n implies #[trigger] (n % d) != 0 by {
        if n % d == 0 {
            lemma_divisor_pair(n, d);
            let e = choose|e: nat| 2 <= e < n && e * e <= n && #[trigger] (n % e) == 0;
            assert(n % e != 0);
        }
    }
}

/// Divisibility is transitive: a divisor of a divisor divides the number.
pub proof fn lemma_divides_transitive(j: nat, i: nat, e: nat)
    requires
        i > 0,
        e > 0,
        j % i == 0,
        i % e == 0,
    ensures
        j % e == 0,
{
    let q1 = j / i;
    let q2 = i / e;
    lemma_fundamental_div_mod(j as int, i as int);
    lemma_fundamental_div_mod(i as int, e as int);
    assert(j == (q2 * q1) * e) by (nonlinear_arith)
        requires
            j == i * q1 + j % i,
            i == e * q2 + i % e,
            j % i == 0,
            i % e == 0,
    ;
    lemma_mod_multiples_basic((q2 * q1) as int, e as int);
    assert(((q2 * q1) as int * e as int) % (e as int) == 0);
}

/// The gcd absorbs zero: `spec_gcd(a, 0) == a`.
pub proof fn lemma_gcd_zero(a: nat)
    ensures
        spec_gcd(a, 0) == a,
        spec_gcd(0, a) == a,
{
    if a > 0 {
        lemma_small_mod(0, a);
        assert(spec_gcd(0, a) == spec_gcd(a, 0));
    }
}

/// The gcd of a number with itself is that number.
pub proof fn lemma_gcd_self(a: nat)
    ensures
        spec_gcd(a, a) == a,
{
    if a > 0 {
        lemma_mod_self_0(a as int);
        assert(spec_gcd(a, a) == spec_gcd(a, 0));
    }
}

/// The gcd does not depend on the order of its arguments.
pub proof fn lemma_gcd_commutes(a: nat, b: nat)
    ensures
        spec_gcd(a, b) == spec_gcd(b, a),
{
    if a == b {
    } else if b == 0 {
        lemma_gcd_zero(a);
    } else if a == 0 {
        lemma_gcd_zero(b);
    } else if a < b {
        lemma_small_mod(a, b);
        assert(spec_gcd(a, b) == spec_gcd(b, a % b));
    } else {
        lemma_small_mod(b, a);
        assert(spec_gcd(b, a) == spec_gcd(a, b % a));
    }
}

} // verus!
