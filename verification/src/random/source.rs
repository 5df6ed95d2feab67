//! The random draws the library makes, from a seedable generator.
use vstd::prelude::*;
use rand::rngs::StdRng;
use rand::Rng;

verus! {

/// The standard seedable random number generator of `rand`.
#[verifier::external_type_specification]
#[verifier::external_body]
pub struct ExStdRng(StdRng);

/// `rand::Rng::random_range` over `low..high`: some number of the range (rand panics when the
/// range is empty).
#[verifier::external_body]
pub(crate) fn random_in(rng: &mut StdRng, low: usize, high: usize) -> (r: usize)
    requires
        low < high,
    ensures
        low <= r < high,
{
    rng.random_range(low..high)
}

/// `rand::Rng::random_range` over `low..=high`: some number of the range, both ends included.
#[verifier::external_body]
pub(crate) fn random_in_inclusive(rng: &mut StdRng, low: usize, high: usize) -> (r: usize)
    requires
        low <= high,
    ensures
        low <= r <= high,
{
    rng.random_range(low..=high)
}

/// `rand::Rng::random_ratio`: true with a chance of `numerator` in `denominator`; always false
/// for a numerator of zero, always true when both are equal, as rand documents (it panics on a
/// zero denominator or a numerator above the denominator).
#[verifier::external_body]
pub(crate) fn random_ratio(rng: &mut StdRng, numerator: u32, denominator: u32) -> (r: bool)
    requires
        0 < denominator,
        numerator <= denominator,
    ensures
        numerator == 0 ==> !r,
        numerator == denominator ==> r,
{
    rng.random_ratio(numerator, denominator)
}

} // verus!
