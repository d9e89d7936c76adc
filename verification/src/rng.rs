//! The seeded random stream owned by a grid.
//!
//! The stream wraps `rand`'s `StdRng` (ChaCha with 12 rounds): for a fixed
//! seed, the values drawn are a function of the seed and of the sequence of
//! draws already made, on every machine.  The ghost state records that seed
//! and that sequence, so the draws can be named in contracts.

use vstd::prelude::*;

verus! {

#[verifier::external_type_specification]
#[verifier::external_body]
pub struct ExStdRng(rand::rngs::StdRng);

/// The value that the `bound`-limited draw yields from the stream seeded with
/// `seed` after the draws recorded in `log`.
pub uninterp spec fn rng_draw(seed: u64, log: Seq<u64>, bound: u64) -> u64;

/// The outcome of the one-in-three draw from the stream seeded with `seed`
/// after the draws recorded in `log`.
pub uninterp spec fn rng_chance(seed: u64, log: Seq<u64>) -> bool;

/// Relies on rand's `StdRng::seed_from_u64`: builds the underlying stream
/// for `seed`.  Seeding is deterministic: equal seeds give equal streams.
#[verifier::external_body]
fn stdrng_from_seed(seed: u64) -> (r: rand::rngs::StdRng) {
    <rand::rngs::StdRng as rand::SeedableRng>::seed_from_u64(seed)
}

/// A seeded pseudorandom stream.  All randomness used by grid generation and
/// analysis is drawn from one such stream, in the fixed order the algorithms
/// dictate, which makes a whole generation replayable from the seed.
///
/// The ghost fields record the seed and the draw history; the private
/// `inner` stream is always the one that `stdrng_from_seed(seed)` yields
/// after exactly the recorded draws, which is what lets the draw methods
/// name their results over the seed and the history.
pub struct MazeRng {
    inner: rand::rngs::StdRng,
    gseed: Ghost<u64>,
    glog: Ghost<Seq<u64>>,
}

impl MazeRng {
    /// The seed this stream was created from.
    pub closed spec fn seed(self) -> u64 {
        self.gseed@
    }

    /// The draws made on this stream so far, each recorded as the bound it
    /// was limited to (`0` records the one-in-three draw).
    pub closed spec fn log(self) -> Seq<u64> {
        self.glog@
    }

    /// Builds the stream for `seed` with no draws made yet.
    pub fn from_seed(seed: u64) -> (r: MazeRng)
        ensures
            r.seed() == seed,
            r.log() == Seq::<u64>::empty(),
    {
        MazeRng { inner: stdrng_from_seed(seed), gseed: Ghost(seed), glog: Ghost(Seq::empty()) }
    }

    /// Relies on rand's `Rng::gen_range` over `0..bound`: a uniform value
    /// below `bound`, determined by the seed and the draws made before
    /// (`gen_range` panics only on an empty range, which the bound excludes).
    #[verifier::external_body]
    pub(crate) fn draw_below(&mut self, bound: u64) -> (r: u64)
        requires
            bound >= 1,
        ensures
            r < bound,
            r == rng_draw(old(self).seed(), old(self).log(), bound),
            final(self).seed() == old(self).seed(),
            final(self).log() == old(self).log().push(bound),
    {
        rand::Rng::gen_range(&mut self.inner, 0..bound)
    }

    /// Relies on rand's `Rng::gen_ratio` with ratio 1/3: a boolean that is
    /// true with probability one in three, determined by the seed and the
    /// draws made before.
    #[verifier::external_body]
    pub(crate) fn chance_one_in_three(&mut self) -> (r: bool)
        ensures
            r == rng_chance(old(self).seed(), old(self).log()),
            final(self).seed() == old(self).seed(),
            final(self).log() == old(self).log().push(0),
    {
        rand::Rng::gen_ratio(&mut self.inner, 1, 3)
    }
}

} // verus!
