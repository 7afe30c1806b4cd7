//! Random draws, taken from the `rand` crate behind trusted wrappers. Nothing
//! is promised of a draw beyond its range, so every caller is verified for
//! every outcome.

use vstd::prelude::*;
use rand::RngExt;

verus! {

#[verifier::external_type_specification]
#[verifier::external_body]
pub struct ExThreadRng(rand::rngs::ThreadRng);

/// Relies on `rand::RngExt::random_range` over an inclusive range: the draw
/// lies in the range, which must be non-empty.
#[verifier::external_body]
pub(crate) fn random_in_u32(rng: &mut rand::rngs::ThreadRng, lo: u32, hi: u32) -> (r: u32)
    requires
        lo <= hi,
    ensures
        lo <= r <= hi,
{
    rng.random_range(lo..=hi)
}

/// Relies on `rand::RngExt::random_range` over an inclusive range: the draw
/// lies in the range, which must be non-empty.
#[verifier::external_body]
pub(crate) fn random_in_i64(rng: &mut rand::rngs::ThreadRng, lo: i64, hi: i64) -> (r: i64)
    requires
        lo <= hi,
    ensures
        lo <= r <= hi,
{
    rng.random_range(lo..=hi)
}

/// Relies on `rand::RngExt::random_ratio`: true with probability
/// `num / den`; certain for the two degenerate ratios, and the arguments must
/// form a ratio in `[0, 1]`.
#[verifier::external_body]
pub(crate) fn random_ratio(rng: &mut rand::rngs::ThreadRng, num: u32, den: u32) -> (r: bool)
    requires
        0 < den,
        num <= den,
    ensures
        num == den ==> r,
        num == 0 ==> !r,
{
    rng.random_ratio(num, den)
}

} // verus!
