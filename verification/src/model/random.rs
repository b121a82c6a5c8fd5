//! The draw of a customer from a seed.

use vstd::prelude::*;

verus! {

/// The number that the generator seeded with `seed` draws first from the
/// numbers from `low` up to, but without, `high`.
pub uninterp spec fn seeded_pick(seed: u64, low: u64, high: u64) -> u64;

/// Draws a number from `low` up to, but without, `high`.
///
/// Calls `rand::SeedableRng::seed_from_u64` for `rand::rngs::StdRng` and then
/// `rand::Rng::gen_range` with the range `low..high`. The generator is built
/// from the seed alone and steps by a fixed rule, so the number drawn is the
/// same for the same seed and range; `gen_range` stays within its range, and
/// asks that the range is not empty.
#[verifier::external_body]
pub(crate) fn pick_in_range(seed: u64, low: u64, high: u64) -> (picked: u64)
    requires
        low < high,
    ensures
        picked == seeded_pick(seed, low, high),
        low <= picked < high,
{
    let mut generator = <rand::rngs::StdRng as rand::SeedableRng>::seed_from_u64(seed);
    rand::Rng::gen_range(&mut generator, low..high)
}

/// Draws a customer of an instance with `node_count` nodes, which must hold
/// a customer.
pub fn pick_customer(seed: u64, node_count: usize) -> (customer: usize)
    requires
        2 <= node_count,
    ensures
        customer == seeded_customer(seed, node_count),
        1 <= customer < node_count,
{
    pick_in_range(seed, 1, node_count as u64) as usize
}

/// The customer that is drawn for `seed` in an instance with `node_count`
/// nodes.
pub open spec fn seeded_customer(seed: u64, node_count: usize) -> usize {
    seeded_pick(seed, 1, node_count as u64) as usize
}

} // verus!
