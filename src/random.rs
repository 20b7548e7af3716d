//! The randomness source and the draws the library makes from it, plus the
//! wrap-around of a value into an interval.

use rand::seq::SliceRandom;
use rand::{Rng, RngCore};
use rand_chacha::ChaCha8Rng;
use crate::fixed::ONE;
use vstd::prelude::*;

verus! {

/// The seedable random number generator threaded through every random choice.
#[verifier::external_type_specification]
#[verifier::external_body]
pub struct ExChaCha8Rng(ChaCha8Rng);

/// Relies on `rand::RngCore::next_u32`: the next 32 random bits of the
/// stream. Nothing is known of them.
#[verifier::external_body]
pub(crate) fn next_u32(rng: &mut ChaCha8Rng) -> (r: u32) {
    rng.next_u32()
}

/// A fraction of one drawn uniformly from `[0, 1)`, in fixed point: the top
/// twenty bits of the next random word.
pub(crate) fn unit_fraction(rng: &mut ChaCha8Rng) -> (r: i64)
    ensures
        0 <= r < ONE,
{
    let bits = next_u32(rng);
    assert(bits >> 12u32 <= 0xfffff) by (bit_vector);
    (bits >> 12u32) as i64
}

/// Relies on `rand::Rng::gen_ratio`: `true` with chance `numerator /
/// denominator`, always `false` for a zero numerator and always `true` when
/// the two are equal (it panics for a zero denominator or a numerator above
/// it).
#[verifier::external_body]
pub(crate) fn gen_ratio(rng: &mut ChaCha8Rng, numerator: u32, denominator: u32) -> (r: bool)
    requires
        0 < denominator,
        numerator <= denominator,
    ensures
        numerator == 0 ==> !r,
        numerator == denominator ==> r,
{
    rng.gen_ratio(numerator, denominator)
}

/// Relies on `rand::seq::SliceRandom::choose_weighted` (through
/// `WeightedIndex`): picks one item with chance proportional to its weight
/// and hands back its index. It fails exactly when
/// there is no item or every weight is zero; an item of weight zero is never
/// picked. The running total of the weights must fit in `u32`.
#[verifier::external_body]
pub(crate) fn choose_weighted(rng: &mut ChaCha8Rng, items: &Vec<Weighted>) -> (r: Option<usize>)
    requires
        weight_total(items@) <= u32::MAX,
    ensures
        r.is_some() == has_weight(items@),
        r.is_some() ==> exists|k: int| picks(items@, k, r.unwrap()),
{
    items.choose_weighted(rng, |item| item.weight).ok().map(|item| item.index)
}

/// An index into a collection, with the weight of its chance to be picked.
#[derive(Clone, Copy, Debug)]
pub struct Weighted {
    pub index: usize,
    pub weight: u32,
}

/// Some item has a weight above zero.
pub open spec fn has_weight(items: Seq<Weighted>) -> bool {
    exists|k: int| 0 <= k < items.len() && items[k].weight > 0
}

/// Item `k` exists, is `i` and has a weight above zero.
pub open spec fn picks(items: Seq<Weighted>, k: int, i: usize) -> bool {
    0 <= k < items.len() && items[k].index == i && items[k].weight > 0
}

/// Sum of the weights of weighted items.
pub open spec fn weight_total(items: Seq<Weighted>) -> int
    decreases items.len(),
{
    if items.len() == 0 {
        0
    } else {
        weight_total(items.drop_last()) + items.last().weight
    }
}

/// `v` moved by whole multiples of `max - min` into `[min, max]`: below the
/// interval it lands in `[min, max)`, above it in `(min, max]`, inside it stays.
pub open spec fn wrap_spec(v: int, min: int, max: int) -> int {
    let w = max - min;
    if v < min {
        min + (v - min) % w
    } else if v > max {
        max - (max - v) % w
    } else {
        v
    }
}

/// Relies on `nalgebra::wrap`: adds or subtracts `max - min` until the value
/// lies in `[min, max]` (it panics unless `min < max`). The value is kept
/// within one width of the interval, so that the loop turns at most twice.
#[verifier::external_body]
pub(crate) fn wrap(v: i64, min: i64, max: i64) -> (r: i64)
    requires
        min < max,
        max - min <= i64::MAX,
        min - (max - min) <= v <= max + (max - min),
    ensures
        r == wrap_spec(v as int, min as int, max as int),
{
    nalgebra::wrap(v, min, max)
}

} // verus!
