//! Random values for challenges and request nonces.  Nothing is assumed of
//! a drawn value beyond its range or length: randomness is environmental.

use vstd::prelude::*;

verus! {

/// Relies on rand's thread_rng and Rng::gen_range: a number drawn from the
/// half-open range.  Nothing is assumed beyond the bounds: the value is
/// random.
#[verifier::external_body]
pub(crate) fn rand_in_range(lo: u32, hi: u32) -> (r: u32)
    requires
        lo < hi,
    ensures
        lo <= r < hi,
{
    rand::Rng::gen_range(&mut rand::thread_rng(), lo..hi)
}

/// Relies on rand's thread_rng, Rng::sample_iter and the Alphanumeric
/// distribution: a string of exactly `len` characters, each drawn from the
/// letters and digits.  Nothing is assumed of which characters: the
/// content is random.
#[verifier::external_body]
pub(crate) fn rand_alphanumeric(len: usize) -> (r: String)
    ensures
        r@.len() == len,
{
    rand::Rng::sample_iter(rand::thread_rng(), &rand::distributions::Alphanumeric).take(len).map(
        char::from,
    ).collect()
}

} // verus!
