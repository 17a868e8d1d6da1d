//! Trusted surface over the arbitrary-precision integer type.
//!
//! `num_bigint::BigUint` is the only outside type the library's logic runs on.
//! It is declared opaque here, its numeric content is named by the
//! uninterpreted spec function [`big_val`], and each arithmetic operation the
//! library needs is wrapped in a function whose contract states, over
//! `big_val`, what the operation's documentation promises. Nothing else in the
//! crate is trusted.

use vstd::prelude::*;
use num_bigint::BigUint;

verus! {

#[verifier::external_type_specification]
#[verifier::external_body]
pub struct ExBigUint(BigUint);

/// The natural number that a `BigUint` holds.
pub uninterp spec fn big_val(n: BigUint) -> nat;

/// Relies on `BigUint: From<u64>`: the big integer takes exactly that value.
#[verifier::external_body]
pub(crate) fn big_from_u64(x: u64) -> (r: BigUint)
    ensures
        big_val(r) == x as nat,
{
    BigUint::from(x)
}

/// Relies on `BigUint: Clone`: the copy holds the same value.
#[verifier::external_body]
pub(crate) fn big_clone(a: &BigUint) -> (r: BigUint)
    ensures
        big_val(r) == big_val(*a),
{
    a.clone()
}

/// Relies on `BigUint: Add`: exact unbounded addition.
#[verifier::external_body]
pub(crate) fn big_add(a: &BigUint, b: &BigUint) -> (r: BigUint)
    ensures
        big_val(r) == big_val(*a) + big_val(*b),
{
    a + b
}

/// Relies on `BigUint: Sub`: exact subtraction; the operation panics on
/// underflow, so callers must keep the difference non-negative.
#[verifier::external_body]
pub(crate) fn big_sub(a: &BigUint, b: &BigUint) -> (r: BigUint)
    requires
        big_val(*b) <= big_val(*a),
    ensures
        big_val(r) == big_val(*a) - big_val(*b),
{
    a - b
}

/// Relies on `BigUint: Mul`: exact unbounded multiplication.
#[verifier::external_body]
pub(crate) fn big_mul(a: &BigUint, b: &BigUint) -> (r: BigUint)
    ensures
        big_val(r) == big_val(*a) * big_val(*b),
{
    a * b
}

/// Relies on `BigUint: Div`: truncating division; the operation panics on a
/// zero divisor, so callers must keep the divisor positive.
#[verifier::external_body]
pub(crate) fn big_div(a: &BigUint, b: &BigUint) -> (r: BigUint)
    requires
        big_val(*b) > 0,
    ensures
        big_val(r) == big_val(*a) / big_val(*b),
{
    a / b
}

/// Relies on `BigUint: Rem`: Euclidean remainder; the operation panics on a
/// zero divisor, so callers must keep the divisor positive.
#[verifier::external_body]
pub(crate) fn big_rem(a: &BigUint, b: &BigUint) -> (r: BigUint)
    requires
        big_val(*b) > 0,
    ensures
        big_val(r) == big_val(*a) % big_val(*b),
{
    a % b
}

/// Relies on `BigUint: Shr<u32>`: a right shift by one halves the value,
/// rounding down.
#[verifier::external_body]
pub(crate) fn big_half(a: &BigUint) -> (r: BigUint)
    ensures
        big_val(r) == big_val(*a) / 2,
{
    a >> 1u32
}

/// Relies on `BigUint::sqrt`: the truncated principal square root.
#[verifier::external_body]
pub(crate) fn big_sqrt(a: &BigUint) -> (r: BigUint)
    ensures
        big_val(r) * big_val(r) <= big_val(*a),
        big_val(*a) < (big_val(r) + 1) * (big_val(r) + 1),
{
    a.sqrt()
}

/// Relies on `BigUint: PartialEq`: equality of the numeric values.
#[verifier::external_body]
pub(crate) fn big_eq(a: &BigUint, b: &BigUint) -> (r: bool)
    ensures
        r == (big_val(*a) == big_val(*b)),
{
    a == b
}

/// Relies on `BigUint: PartialOrd`: the order is the numeric order.
#[verifier::external_body]
pub(crate) fn big_lt(a: &BigUint, b: &BigUint) -> (r: bool)
    ensures
        r == (big_val(*a) < big_val(*b)),
{
    a < b
}

/// Relies on `BigUint: PartialOrd`: the order is the numeric order.
#[verifier::external_body]
pub(crate) fn big_le(a: &BigUint, b: &BigUint) -> (r: bool)
    ensures
        r == (big_val(*a) <= big_val(*b)),
{
    a <= b
}

} // verus!
