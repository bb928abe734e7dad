//! The pseudo-random stream: a PCG generator of `rand_pcg`, and the draws that
//! `rand` makes from it. Nothing in this file is proved: each function states
//! what the outside code does, and each draw has a name, because a draw is a
//! function of the stream and of its arguments and of nothing else.

use rand::seq::SliceRandom;
use rand::Rng;
use rand::SeedableRng;
use rand_pcg::Pcg64;
use vstd::prelude::*;

verus! {

/// `rand_pcg::Pcg64`, the 128-bit linear congruential generator with the
/// XSL-RR output function. Its two fields are private to its crate.
#[verifier::external_type_specification]
#[verifier::external_body]
pub struct ExPcg64(rand_pcg::Pcg64);

/// Why a weighted draw was refused; the variants of
/// `rand::distributions::WeightedError`.
#[derive(Clone, Copy, Debug, PartialEq, Eq, Structural)]
pub enum DrawError {
    /// The list of weights is empty.
    NoItem,
    /// Some weight is negative.
    InvalidWeight,
    /// No weight is negative and none is positive.
    AllWeightsZero,
    /// More weights than the outside crate indexes.
    TooMany,
}

/// A position drawn by weight, or why none was drawn.
pub type WeightedPick = Result<usize, DrawError>;

/// What a generator holds: its state and its increment. Every draw is a
/// function of this pair and of the draw's arguments.
pub uninterp spec fn stream_of(rng: Pcg64) -> (u128, u128);

/// The stream at which `SeedableRng::seed_from_u64` starts a `Pcg64`.
pub uninterp spec fn seeded_stream(seed: u64) -> (u128, u128);

/// The number that `Rng::gen_range` draws from `[low, high)`, and the stream
/// after the draw.
pub uninterp spec fn range_draw(stream: (u128, u128), low: i32, high: i32) -> (i32, (u128, u128));

/// The positions that `SliceRandom::choose_multiple` takes from a slice of
/// `length` items when asked for `amount`, in the order in which it hands
/// them out, and the stream after the draw.
pub uninterp spec fn sample_draw(stream: (u128, u128), length: usize, amount: usize) -> (
    Seq<usize>,
    (u128, u128),
);

/// Where each item of a slice of `length` items comes from after
/// `SliceRandom::shuffle`: entry `k` is the old position of the item now at
/// `k`. With it the stream after the shuffle.
pub uninterp spec fn shuffle_draw(stream: (u128, u128), length: usize) -> (
    Seq<usize>,
    (u128, u128),
);

/// The position that `SliceRandom::choose` takes in a slice of `length`
/// items, and the stream after the draw.
pub uninterp spec fn choice_draw(stream: (u128, u128), length: usize) -> (usize, (u128, u128));

/// The position that `SliceRandom::choose_weighted` takes in a slice whose
/// items have these weights, and the stream after the draw.
pub uninterp spec fn weighted_draw(stream: (u128, u128), weights: Seq<i32>) -> (
    usize,
    (u128, u128),
);

/// The sum of the weights, each negative one counted as zero.
pub open spec fn clamped_total(weights: Seq<i32>) -> int
    decreases weights.len(),
{
    if weights.len() == 0 {
        0
    } else {
        clamped_total(weights.drop_last()) + if weights.last() > 0 {
            weights.last() as int
        } else {
            0
        }
    }
}

/// Some weight is negative.
pub open spec fn has_negative(weights: Seq<i32>) -> bool {
    exists|i: int| 0 <= i < weights.len() && #[trigger] weights[i] < 0
}

/// The positions are all different, and each lies below `length`.
pub open spec fn distinct_below(positions: Seq<usize>, length: usize) -> bool {
    &&& forall|i: int| 0 <= i < positions.len() ==> #[trigger] positions[i] < length
    &&& forall|i: int, j: int|
        0 <= i < j < positions.len() ==> #[trigger] positions[i] != #[trigger] positions[j]
}

/// `Pcg64::seed_from_u64`: a generator whose stream is fixed by the seed
/// alone.
#[verifier::external_body]
pub(crate) fn seed_rng(seed: u64) -> (rng: Pcg64)
    ensures
        stream_of(rng) == seeded_stream(seed),
{
    Pcg64::seed_from_u64(seed)
}

/// `Rng::gen_range` on `i32`: a number of `[low, high)`, fixed by the stream
/// and the bounds. It panics unless `low < high`.
#[verifier::external_body]
pub(crate) fn draw_range(rng: &mut Pcg64, low: i32, high: i32) -> (n: i32)
    requires
        low < high,
    ensures
        low <= n < high,
        (n, stream_of(*final(rng))) == range_draw(stream_of(*old(rng)), low, high),
{
    rng.gen_range(low, high)
}

/// `SliceRandom::choose_multiple` on the slice `0, 1, ..` of `length`
/// numbers: the lesser of `amount` and `length` different positions, fixed by
/// the stream and the two numbers. On a longer slice than a `u32` counts the
/// outside code takes another path, which asserts that fewer items are
/// asked for than there are; such a slice is left out.
#[verifier::external_body]
pub(crate) fn draw_sample(rng: &mut Pcg64, length: usize, amount: usize) -> (picks: Vec<usize>)
    requires
        length <= u32::MAX,
    ensures
        picks@.len() == if amount <= length { amount } else { length },
        distinct_below(picks@, length),
        (picks@, stream_of(*final(rng))) == sample_draw(stream_of(*old(rng)), length, amount),
{
    let positions: Vec<usize> = (0..length).collect();
    positions.choose_multiple(rng, amount).cloned().collect()
}

/// `SliceRandom::shuffle` on the slice `0, 1, ..` of `length` numbers: every
/// position once, in an order fixed by the stream and the length.
#[verifier::external_body]
pub(crate) fn draw_shuffle(rng: &mut Pcg64, length: usize) -> (order: Vec<usize>)
    ensures
        order@.len() == length,
        distinct_below(order@, length),
        (order@, stream_of(*final(rng))) == shuffle_draw(stream_of(*old(rng)), length),
{
    let mut positions: Vec<usize> = (0..length).collect();
    positions.shuffle(rng);
    positions
}

/// `SliceRandom::choose` on the slice `0, 1, ..` of `length` numbers: a
/// position below `length`, fixed by the stream and the length; none where
/// the slice is empty, and then nothing is drawn.
#[verifier::external_body]
pub(crate) fn draw_choice(rng: &mut Pcg64, length: usize) -> (pick: Option<usize>)
    ensures
        length == 0 ==> pick is None && stream_of(*final(rng)) == stream_of(*old(rng)),
        length > 0 ==> pick is Some && pick->0 < length && (pick->0, stream_of(*final(rng)))
            == choice_draw(stream_of(*old(rng)), length),
{
    let positions: Vec<usize> = (0..length).collect();
    positions.choose(rng).cloned()
}

/// `SliceRandom::choose_weighted` with `i32` weights: the position of an item
/// of positive weight, fixed by the stream and the weights. It refuses an
/// empty list, a negative weight and a list without a positive weight, in
/// that order, and for no other reason, and then draws nothing. The outside
/// code adds the weights up in an `i32`, so their sum has to fit.
#[verifier::external_body]
pub(crate) fn draw_weighted(rng: &mut Pcg64, weights: &Vec<i32>) -> (pick: WeightedPick)
    requires
        clamped_total(weights@) <= i32::MAX,
    ensures
        (pick is Err && pick->Err_0 == DrawError::NoItem) <==> weights@.len() == 0,
        (pick is Err && pick->Err_0 == DrawError::InvalidWeight) <==> has_negative(weights@),
        (pick is Err && pick->Err_0 == DrawError::AllWeightsZero) <==> (weights@.len() != 0
            && !has_negative(weights@) && clamped_total(weights@) == 0),
        pick is Err ==> pick->Err_0 != DrawError::TooMany,
        pick is Err ==> stream_of(*final(rng)) == stream_of(*old(rng)),
        pick is Ok ==> weights@.len() > pick->Ok_0,
        pick is Ok ==> weights@[pick->Ok_0 as int] > 0,
        pick is Ok ==> (pick->Ok_0, stream_of(*final(rng))) == weighted_draw(
            stream_of(*old(rng)),
            weights@,
        ),
{
    let items: Vec<(usize, i32)> = weights.iter().cloned().enumerate().collect();
    match items.choose_weighted(rng, |item| item.1) {
        Ok(item) => Ok(item.0),
        Err(rand::distributions::WeightedError::NoItem) => Err(DrawError::NoItem),
        Err(rand::distributions::WeightedError::InvalidWeight) => Err(DrawError::InvalidWeight),
        Err(rand::distributions::WeightedError::AllWeightsZero) => Err(DrawError::AllWeightsZero),
        Err(rand::distributions::WeightedError::TooMany) => Err(DrawError::TooMany),
    }
}

} // verus!
