//! Weighted choice: a position drawn with a likelihood in proportion to its
//! weight.

use crate::rng::{
    clamped_total, draw_weighted, has_negative, stream_of, weighted_draw, DrawError, WeightedPick,
};
use crate::table::{has_positive, lemma_bounded_total, weights_bounded};
use rand_pcg::Pcg64;
use vstd::pervasive::unreached;
use vstd::prelude::*;

verus! {

/// The clamped total of the first weights is at most that of all.
pub proof fn lemma_clamped_total_grows(weights: Seq<i32>, n: int)
    requires
        0 <= n <= weights.len(),
    ensures
        0 <= clamped_total(weights.take(n)) <= clamped_total(weights),
    decreases weights.len() - n,
{
    if n == weights.len() {
        assert(weights.take(n) =~= weights);
        lemma_clamped_total_nonnegative(weights);
    } else {
        lemma_clamped_total_grows(weights, n + 1);
        assert(weights.take(n + 1).drop_last() =~= weights.take(n));
        lemma_clamped_total_nonnegative(weights.take(n));
    }
}

/// A clamped total is never negative.
pub proof fn lemma_clamped_total_nonnegative(weights: Seq<i32>)
    ensures
        clamped_total(weights) >= 0,
    decreases weights.len(),
{
    if weights.len() > 0 {
        lemma_clamped_total_nonnegative(weights.drop_last());
    }
}

/// Whether the weights, each negative one counted as nothing, add up to a
/// number that an `i32` holds.
pub fn total_fits(weights: &Vec<i32>) -> (fits: bool)
    ensures
        fits == (clamped_total(weights@) <= i32::MAX),
{
    let mut total: i32 = 0;
    let mut i: usize = 0;
    while i < weights.len()
        invariant
            i <= weights@.len(),
            total == clamped_total(weights@.take(i as int)),
            0 <= total,
        decreases weights@.len() - i,
    {
        let weight = weights[i];
        proof {
            let next = weights@.take(i + 1);
            assert(next.drop_last() =~= weights@.take(i as int));
            assert(next.last() == weight);
            lemma_clamped_total_grows(weights@, i + 1);
        }
        if weight > 0 {
            if weight > i32::MAX - total {
                return false;
            }
            total = total + weight;
        }
        i = i + 1;
    }
    assert(weights@.take(i as int) =~= weights@);
    true
}

/// Draws a position with a likelihood in proportion to its weight. No
/// position is drawn, and the stream stays where it is, where the list is
/// empty, where a weight is negative and where no weight is positive. A
/// position of weight nothing is never drawn. Where the weights add up to
/// more than an `i32` holds, nothing is tried.
pub fn choose_weighted(rng: &mut Pcg64, weights: &Vec<i32>) -> (choice: Option<WeightedPick>)
    ensures
        choice is None <==> clamped_total(weights@) > i32::MAX,
        choice is None ==> stream_of(*final(rng)) == stream_of(*old(rng)),
        choice matches Some(pick) ==> {
            &&& pick == Err::<usize, DrawError>(DrawError::NoItem) <==> weights@.len() == 0
            &&& pick == Err::<usize, DrawError>(DrawError::InvalidWeight) <==> has_negative(
                weights@,
            )
            &&& pick == Err::<usize, DrawError>(DrawError::AllWeightsZero) <==> (weights@.len()
                != 0 && !has_negative(weights@) && clamped_total(weights@) == 0)
            &&& pick != Err::<usize, DrawError>(DrawError::TooMany)
            &&& pick is Err ==> stream_of(*final(rng)) == stream_of(*old(rng))
            &&& pick matches Ok(at) ==> at < weights@.len() && weights@[at as int] > 0 && (
                at,
                stream_of(*final(rng)),
            ) == weighted_draw(stream_of(*old(rng)), weights@)
        },
{
    if total_fits(weights) {
        Some(draw_weighted(rng, weights))
    } else {
        None
    }
}

/// Draws a position by weight where the weights are bounded, one of them is
/// positive and their sum fits an `i32`: such a draw is never refused.
pub fn draw_position(rng: &mut Pcg64, weights: &Vec<i32>) -> (at: usize)
    requires
        weights_bounded(weights@),
        has_positive(weights@),
        10 * weights@.len() <= i32::MAX,
    ensures
        (at, stream_of(*final(rng))) == weighted_draw(stream_of(*old(rng)), weights@),
        at < weights@.len(),
        weights@[at as int] > 0,
{
    proof {
        lemma_bounded_total(weights@);
    }
    match draw_weighted(rng, weights) {
        Ok(at) => at,
        Err(_) => unreached(),
    }
}

} // verus!
