//! Arbitrary-precision primality testing and supporting modular arithmetic.
//!
//! The numeric substrate is `num_bigint::BigUint`, taken as a given capability:
//! every operation on it stands behind a small trusted wrapper in [`big`] whose
//! contract speaks of the mathematical value of the number. Everything built on
//! top of that — exponentiation, gcd, the sieve and the four primality tests —
//! is verified against specifications in plain natural-number arithmetic.

pub mod action;
pub mod big;
pub mod generators;
pub mod number_theory;
pub mod operations;
pub mod primality;

pub use action::Action;
pub use generators::primes::get_max_primes;
pub use operations::gcd::gcd;
pub use operations::pow::pow;
pub use operations::pow::pow_mod;
pub use operations::utils::get_trailing_zeros;
pub use primality::fermat::fermat;
pub use primality::lucas_lehmer::lucas_lehmer_test;
pub use primality::miller_rabin::miller_rabin;
pub use primality::standard::standard;
