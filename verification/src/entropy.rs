//! The randomness source: a thin trusted boundary around the `rand` crate's
//! cryptographically secure generator.

use vstd::prelude::*;
use rand::RngCore;

verus! {

/// Relies on `rand::rng` and `RngCore::fill_bytes`: fills the whole buffer
/// with bytes from a cryptographically secure generator. Nothing can be
/// promised of the contents; only the length is stated.
#[verifier::external_body]
pub(crate) fn random_bytes(len: usize) -> (r: Vec<u8>)
    ensures
        r.len() == len,
{
    let mut buf = vec![0u8; len];
    rand::rng().fill_bytes(&mut buf);
    buf
}

/// Relies on `rand::rng` and `RngCore::next_u64`: a uniformly random value,
/// of which nothing can be promised.
#[verifier::external_body]
pub(crate) fn random_u64() -> u64 {
    rand::rng().next_u64()
}

} // verus!
