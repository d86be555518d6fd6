//! Trusted interface to the `rand` crate: the random source driving question
//! generation and the weighted-index distribution driving quiz selection.
//! Nothing is promised of individual random outcomes beyond their range.

use vstd::prelude::*;
use rand::Rng;
use rand::distributions::Distribution;

verus! {

#[verifier::external_type_specification]
#[verifier::external_body]
pub struct ExStdRng(rand::rngs::StdRng);

/// A weighted-index distribution over item weights, kept opaque: Verus sees
/// it only through `dist_weights` and the two wrappers below.
#[verifier::external_body]
pub struct WeightedPicker {
    inner: rand::distributions::WeightedIndex<usize>,
}

/// The weights a weighted-index distribution was built over, one per item.
pub uninterp spec fn dist_weights(d: WeightedPicker) -> Seq<usize>;

/// Sum of a sequence of weights.
pub open spec fn sum_weights(ws: Seq<usize>) -> int
    decreases ws.len(),
{
    if ws.len() == 0 {
        0
    } else {
        sum_weights(ws.drop_last()) + ws.last()
    }
}

/// Relies on rand's `Rng::gen_range`: a draw from `0..n`, which panics only
/// on an empty range.
#[verifier::external_body]
pub(crate) fn rand_index(rng: &mut rand::rngs::StdRng, n: usize) -> (r: usize)
    requires
        n > 0,
    ensures
        r < n,
{
    rng.gen_range(0..n)
}

/// Relies on rand's `Rng::gen` at type `bool`: a fair coin. Nothing is
/// promised of the outcome.
#[verifier::external_body]
pub(crate) fn coin_flip(rng: &mut rand::rngs::StdRng) -> bool {
    rng.gen()
}

/// Relies on rand's `WeightedIndex::new`: over the given weights it fails
/// only when the list is empty or its total is zero, and an overflowing
/// total panics; all three are excluded here, so the distribution is built.
#[verifier::external_body]
pub(crate) fn weighted_new(weights: &Vec<usize>) -> (d: WeightedPicker)
    requires
        weights@.len() > 0,
        sum_weights(weights@) > 0,
        sum_weights(weights@) <= usize::MAX,
    ensures
        dist_weights(d) == weights@,
{
    WeightedPicker { inner: rand::distributions::WeightedIndex::new(weights.iter()).unwrap() }
}

/// Relies on rand's `WeightedIndex::sample`: it returns an in-range index,
/// drawn with probability proportional to its weight, so never one whose
/// weight is zero.
#[verifier::external_body]
pub(crate) fn weighted_sample(d: &WeightedPicker, rng: &mut rand::rngs::StdRng) -> (r: usize)
    ensures
        r < dist_weights(*d).len(),
        dist_weights(*d)[r as int] > 0,
{
    d.inner.sample(rng)
}

} // verus!
