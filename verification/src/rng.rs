//! Trusted access to the process-wide random source.

use rand::RngCore;
use vstd::prelude::*;

verus! {

/// Relies on rand::rng and rand::RngCore::next_u64: one machine word drawn
/// from the thread-local generator. Nothing is promised of a random value.
#[verifier::external_body]
pub(crate) fn random_usize() -> usize {
    rand::rng().next_u64() as usize
}

/// Relies on rand::rng and rand::RngCore::fill_bytes: fills a fresh buffer of
/// the requested length with random bytes; the length is left unchanged.
#[verifier::external_body]
pub(crate) fn random_bytes(len: usize) -> (r: Vec<u8>)
    ensures
        r@.len() == len,
{
    let mut buf = vec![0u8; len];
    rand::rng().fill_bytes(&mut buf);
    buf
}

} // verus!
