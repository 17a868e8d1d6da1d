//! Pure numeric primitives: exponentiation, gcd and trailing-zero analysis.

pub mod gcd;
pub mod pow;
pub mod utils;
