//! Trusted access to the process's cryptographically seeded random source.
//! Nothing can be promised of a random value beyond its range, so the
//! contracts state only that.

use vstd::prelude::*;

use rand::Rng;

verus! {

/// Relies on rand::rngs::ThreadRng through Rng::fill: fills the buffer; the
/// contents are random, so only the length is promised.
#[verifier::external_body]
pub fn random_bytes_12() -> (r: [u8; 12])
    ensures
        r@.len() == 12,
{
    let mut buf = [0u8; 12];
    rand::thread_rng().fill(&mut buf[..]);
    buf
}

/// Relies on rand::Rng::gen_range over `0..bound`: a value below `bound`.
/// The range must be nonempty, or the call panics.
#[verifier::external_body]
pub fn random_below(bound: u32) -> (r: u32)
    requires
        bound > 0,
    ensures
        r < bound,
{
    rand::thread_rng().gen_range(0..bound)
}

} // verus!
