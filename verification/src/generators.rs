//! Prime generation.

pub mod primes;
