//! The random source. Every draw of the library goes through the
//! functions below, in a fixed order, so a seeded generator reproduces a run.

use vstd::prelude::*;
use rand::Rng;
use rand::rngs::StdRng;
use rand::seq::SliceRandom;
use rand::distributions::WeightedError;

verus! {

#[verifier::external_type_specification]
#[verifier::external_body]
pub struct ExStdRng(StdRng);

/// Relies on `rand::Rng::gen_range` over an inclusive `u64` range: the value
/// lies between the bounds (it panics only on an empty range).
#[verifier::external_body]
pub(crate) fn draw_range(rng: &mut StdRng, lo: u64, hi: u64) -> (r: u64)
    requires
        lo <= hi,
    ensures
        lo <= r <= hi,
{
    rng.gen_range(lo..=hi)
}

/// Relies on `rand::Rng::gen_ratio`: `true` with chance `numerator / denominator`,
/// never when the numerator is zero, always when it equals the denominator (it
/// panics on a zero denominator or a numerator above it).
#[verifier::external_body]
pub(crate) fn draw_ratio(rng: &mut StdRng, numerator: u32, denominator: u32) -> (r: bool)
    requires
        0 < denominator,
        numerator <= denominator,
    ensures
        numerator == 0 ==> !r,
        numerator == denominator ==> r,
{
    rng.gen_ratio(numerator, denominator)
}

/// Sum of the weights of `slots`.
pub open spec fn weight_total(slots: Seq<(usize, u64)>) -> int
    decreases slots.len(),
{
    if slots.len() == 0 { 0 } else { weight_total(slots.drop_last()) + slots.last().1 }
}

#[verifier::external_type_specification]
#[verifier::external_body]
pub struct ExWeightedError(WeightedError);

/// Relies on `rand::seq::SliceRandom::choose_weighted`, each slot weighted by
/// its second field: with a non-empty slice of unsigned weights whose sum fits
/// the weight type, it fails only when every weight is zero, and otherwise
/// returns a slot whose weight is positive (the cumulative weights are
/// searched for the first one above a draw in `[0, total)`). The index in the
/// first field is handed back.
#[verifier::external_body]
pub(crate) fn choose_weighted_index(rng: &mut StdRng, slots: &[(usize, u64)]) -> (r: Result<usize, WeightedError>)
    requires
        slots@.len() > 0,
        weight_total(slots@) <= u64::MAX,
    ensures
        r is Ok <==> weight_total(slots@) > 0,
        r matches Ok(i) ==> exists|k: int| 0 <= k < slots@.len() && (#[trigger] slots@[k]).0 == i && slots@[k].1 > 0,
{
    slots.choose_weighted(rng, |s| s.1).map(|s| s.0)
}

} // verus!
