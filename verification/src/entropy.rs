//! Fresh randomness from the operating system.

use rand::Rng;
use vstd::prelude::*;

verus! {

/// Draws 128 bits with `rand::thread_rng().gen::<u128>()`.
///
/// Nothing is promised of the value: callers are verified for every outcome.
#[verifier::external_body]
pub(crate) fn random_u128() -> (v: u128) {
    rand::thread_rng().gen::<u128>()
}

} // verus!
