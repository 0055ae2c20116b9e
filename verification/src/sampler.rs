//! The weighted variant sampler: one draw from the seeded source is reduced
//! modulo the table's total weight and mapped to the first variant index
//! whose accumulated weight exceeds it (an inverse-CDF linear scan).
use crate::rng::{stream_u64, Prng};
use vstd::prelude::*;

verus! {

/// The total of a weight table, as an unbounded integer.
pub open spec fn weight_sum(w: Seq<u16>) -> int
    decreases w.len(),
{
    if w.len() == 0 {
        0
    } else {
        weight_sum(w.drop_last()) + w.last()
    }
}

/// The total of the first `i` entries of a weight table.
pub open spec fn partial_sum(w: Seq<u16>, i: int) -> int {
    weight_sum(w.take(i))
}

/// Holds when `i` is the variant index that a winning number `n` selects:
/// the first index whose accumulated weight exceeds `n`.
pub open spec fn is_pick(w: Seq<u16>, n: int, i: int) -> bool {
    &&& 0 <= i < w.len()
    &&& partial_sum(w, i) <= n
    &&& n < partial_sum(w, i + 1)
}

pub proof fn lemma_weight_sum_bounds(w: Seq<u16>)
    ensures
        0 <= weight_sum(w) <= w.len() * 0xffff,
    decreases w.len(),
{
    if w.len() > 0 {
        lemma_weight_sum_bounds(w.drop_last());
        assert(w.drop_last().len() == w.len() - 1);
    }
}

pub proof fn lemma_partial_step(w: Seq<u16>, i: int)
    requires
        0 <= i < w.len(),
    ensures
        partial_sum(w, i + 1) == partial_sum(w, i) + w[i],
{
    assert(w.take(i + 1).drop_last() =~= w.take(i));
    assert(w.take(i + 1).last() == w[i]);
}

pub proof fn lemma_partial_mono(w: Seq<u16>, i: int, j: int)
    requires
        0 <= i <= j <= w.len(),
    ensures
        partial_sum(w, i) <= partial_sum(w, j),
    decreases j - i,
{
    if i < j {
        lemma_partial_step(w, j - 1);
        lemma_partial_mono(w, i, j - 1);
    }
}

pub proof fn lemma_partial_full(w: Seq<u16>)
    ensures
        partial_sum(w, w.len() as int) == weight_sum(w),
{
    assert(w.take(w.len() as int) =~= w);
}

/// The winning number picks exactly one index: the sampler is a function of
/// the weight table and the draw.
pub proof fn lemma_pick_unique(w: Seq<u16>, n: int, i: int, j: int)
    requires
        is_pick(w, n, i),
        is_pick(w, n, j),
    ensures
        i == j,
{
    if i < j {
        lemma_partial_mono(w, i + 1, j);
    }
    if j < i {
        lemma_partial_mono(w, j + 1, i);
    }
}

/// The index a winning number picks, as a function: well defined whenever
/// the table's total is positive, by `lemma_pick_unique`.
pub open spec fn pick_of(w: Seq<u16>, n: int) -> int {
    choose|i: int| is_pick(w, n, i)
}

/// The variant index one draw of the stream selects from a weight table.
pub open spec fn spec_draw_at(w: Seq<u16>, key: Seq<u8>, pos: nat) -> int {
    pick_of(w, stream_u64(key, pos) % weight_sum(w))
}

/// A witness of `is_pick` is the pick.
pub proof fn lemma_pick_is(w: Seq<u16>, n: int, i: int)
    requires
        is_pick(w, n, i),
    ensures
        pick_of(w, n) == i,
{
    assert(is_pick(w, n, pick_of(w, n)));
    lemma_pick_unique(w, n, pick_of(w, n), i);
}

/// Determinism of one draw: for a fixed seed key, draw position and weight
/// table, the winning number picks exactly one variant index, so repeated
/// execution from identical inputs settles identical variants.
pub proof fn lemma_draw_deterministic(key: Seq<u8>, pos: nat, w: Seq<u16>, i1: int, i2: int)
    requires
        weight_sum(w) > 0,
        is_pick(w, stream_u64(key, pos) % weight_sum(w), i1),
        is_pick(w, stream_u64(key, pos) % weight_sum(w), i2),
    ensures
        i1 == i2,
{
    lemma_pick_unique(w, stream_u64(key, pos) % weight_sum(w), i1, i2);
}

/// Sums a weight table in a 64-bit accumulator, which a table of at most
/// 255 entries cannot overflow.
#[verifier::loop_isolation(false)]
pub fn sum_weights(weights: &[u16]) -> (total: u64)
    requires
        weights@.len() <= 255,
    ensures
        total == weight_sum(weights@),
{
    let mut total: u64 = 0;
    let mut i: usize = 0;
    while i < weights.len()
        invariant
            i <= weights@.len() <= 255,
            total == partial_sum(weights@, i as int),
            total <= i * 0xffff,
        decreases weights@.len() - i,
    {
        proof {
            lemma_partial_step(weights@, i as int);
        }
        total = total + (weights[i] as u64);
        i = i + 1;
    }
    proof {
        lemma_partial_full(weights@);
    }
    total
}

/// Picks a random variant index from a weight table: one draw from the
/// source, reduced modulo the total weight, then a linear scan for the
/// first index whose accumulated weight exceeds the winning number.
///
/// A table that sums to zero is a configuration fault, kept out by the
/// precondition, never a random outcome.
#[verifier::loop_isolation(false)]
pub fn draw_variant(prng: &mut Prng, weights: &[u16]) -> (winner: u8)
    requires
        1 <= weights@.len() <= 255,
        weight_sum(weights@) > 0,
    ensures
        is_pick(
            weights@,
            stream_u64(old(prng)@.key, old(prng)@.pos) % weight_sum(weights@),
            winner as int,
        ),
        final(prng)@.key == old(prng)@.key,
        final(prng)@.pos == old(prng)@.pos + 8,
{
    let ghost k0 = prng@.key;
    let ghost p0 = prng@.pos;
    let total = sum_weights(weights);
    let rdm = prng.next_u64();
    let winning: u64 = rdm % total;
    let ghost n = stream_u64(k0, p0) % weight_sum(weights@);
    proof {
        lemma_weight_sum_bounds(weights@);
        assert(winning as int == n);
    }
    let mut tally: u64 = 0;
    let mut i: usize = 0;
    while i < weights.len()
        invariant
            i <= weights@.len() <= 255,
            tally == partial_sum(weights@, i as int),
            tally <= winning,
            winning < weight_sum(weights@) <= 255 * 0xffff,
            winning as int == n,
        decreases weights@.len() - i,
    {
        proof {
            lemma_partial_step(weights@, i as int);
        }
        if tally + (weights[i] as u64) > winning {
            return i as u8;
        }
        tally = tally + (weights[i] as u64);
        i = i + 1;
    }
    proof {
        lemma_partial_full(weights@);
        assert(false);
    }
    0
}

} // verus!
