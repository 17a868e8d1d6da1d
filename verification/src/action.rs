//! The selector for what the engine is asked to do.

use vstd::prelude::*;

verus! {

/// One entry point of the engine: a primality test, the sieve, or plain
/// exponentiation. The surrounding command-line layer picks a variant and
/// dispatches on it; the engine itself is a set of pure functions.
#[derive(Clone, Debug, PartialEq, Eq)]
pub enum Action {
    Standard,
    Fermat,
    MillerRabin,
    Generate,
    Power,
    LucasLehmer,
}

} // verus!
