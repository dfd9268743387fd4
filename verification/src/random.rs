//! The random draws the game makes, taken from a seedable generator.
use vstd::prelude::*;
use rand::rngs::StdRng;
use rand::Rng;
use rand::seq::SliceRandom;
use crate::drops::DropKind;

verus! {

/// `rand::rngs::StdRng`, the generator that every draw is taken from. Nothing
/// is known of its state: it is only handed on to the calls below.
#[verifier::external_type_specification]
#[verifier::external_body]
pub struct ExStdRng(StdRng);

/// Calls `Rng::gen_range` on the inclusive range `lo..=hi`. The draw is uniform;
/// all that is claimed is that it lies in the range. The range must not be
/// empty, since `gen_range` panics on an empty one.
#[verifier::external_body]
pub(crate) fn draw_in_range(rng: &mut StdRng, lo: i64, hi: i64) -> (r: i64)
    requires
        lo <= hi,
    ensures
        lo <= r <= hi,
{
    rng.gen_range(lo..=hi)
}

/// Calls `Rng::gen_ratio(1, 2)`: a fair coin. Nothing is claimed of the outcome.
#[verifier::external_body]
pub(crate) fn draw_coin(rng: &mut StdRng) -> (heads: bool)
{
    rng.gen_ratio(1, 2)
}

/// Calls `SliceRandom::choose` on `kinds`: one of its elements, each as likely
/// as the others, or `None` for an empty list. Nothing is claimed of which
/// element it is.
#[verifier::external_body]
pub(crate) fn choose_kind(rng: &mut StdRng, kinds: &Vec<DropKind>) -> (kind: Option<DropKind>)
    ensures
        kinds@.len() == 0 ==> kind is None,
        kinds@.len() > 0 ==> kind is Some && kinds@.contains(kind->0),
{
    kinds.choose(rng).copied()
}

} // verus!
