//! The simulation's only randomness during a tick: one stream per entity per
//! tick, derived from the id and the tick rather than stored.

use vstd::prelude::*;

use rand::rngs::SmallRng;
use rand::{RngExt, SeedableRng};

use crate::uid::Uid;

verus! {

#[verifier::external_type_specification]
#[verifier::external_body]
pub struct ExSmallRng(SmallRng);

/// SplitMix64's finaliser.
pub open spec fn spec_mix(x: u64) -> u64 {
    let a = vstd::wrapping::u64_specs::wrapping_add(x, 0x9e37_79b9_7f4a_7c15u64);
    let b = vstd::wrapping::u64_specs::wrapping_mul(a ^ (a >> 30u64), 0xbf58_476d_1ce4_e5b9u64);
    let c = vstd::wrapping::u64_specs::wrapping_mul(b ^ (b >> 27u64), 0x94d0_49bb_1331_11ebu64);
    c ^ (c >> 31u64)
}

/// SplitMix64's finaliser: cheap, and good enough to decorrelate a counter.
pub fn mix(x: u64) -> (m: u64)
    ensures
        m == spec_mix(x),
{
    let a = x.wrapping_add(0x9e37_79b9_7f4a_7c15);
    let b = (a ^ (a >> 30)).wrapping_mul(0xbf58_476d_1ce4_e5b9);
    let c = (b ^ (b >> 27)).wrapping_mul(0x94d0_49bb_1331_11eb);
    c ^ (c >> 31)
}

/// The seed of one entity's stream on one tick: mixed rather than added, so
/// neighbouring ids on the same tick do not get correlated streams.
pub open spec fn spec_tick_seed(uid: Uid, tick: u64) -> u64 {
    spec_mix(uid@ ^ spec_mix(tick))
}

pub fn tick_seed(uid: Uid, tick: u64) -> (seed: u64)
    ensures
        seed == spec_tick_seed(uid, tick),
{
    mix(uid.raw() ^ mix(tick))
}

/// `SmallRng::seed_from_u64`: a generator started from `seed`. What it then
/// produces is the generator's own business, and nothing is claimed of it.
#[verifier::external_body]
fn small_rng_from_seed(seed: u64) -> SmallRng {
    SmallRng::seed_from_u64(seed)
}

/// `rng.random::<u64>()`: a word from the generator. Which word is the
/// generator's business, and nothing is claimed of it.
#[verifier::external_body]
pub(crate) fn roll_word(rng: &mut SmallRng) -> u64 {
    rng.random()
}

/// `rng.random_range(0..n)`: a number below `n` from the generator, which
/// the documentation promises lies in the range (and which panics on an
/// empty one). Which number is the generator's business.
#[verifier::external_body]
pub(crate) fn roll_index(rng: &mut SmallRng, n: usize) -> (i: usize)
    requires
        n > 0,
    ensures
        i < n,
{
    rng.random_range(0..n)
}

/// `rng.random_range(-radius..=radius)`: a number no further than `radius`
/// from zero, which the documentation promises lies in the range (and which
/// panics on an empty one). Which number is the generator's business.
#[verifier::external_body]
pub(crate) fn roll_offset(rng: &mut SmallRng, radius: i32) -> (r: i32)
    requires
        radius >= 0,
    ensures
        -radius <= r <= radius,
{
    rng.random_range(-radius..=radius)
}

/// A deterministic generator for one entity on one tick, seeded from
/// [`tick_seed`].
pub fn tick_rng(uid: Uid, tick: u64) -> SmallRng {
    small_rng_from_seed(tick_seed(uid, tick))
}

} // verus!
