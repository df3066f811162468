//! The shop's source of chance: a seeded generator that keeps, as ghost
//! state, every value it has handed out.
use rand::rngs::StdRng;
use rand::Rng;
use rand::SeedableRng;
use vstd::prelude::*;

verus! {

#[verifier::external_type_specification]
#[verifier::external_body]
pub struct ExStdRng(StdRng);

/// Relies on rand's `SeedableRng::seed_from_u64` for `StdRng`: a generator
/// whose stream depends on the seed alone.
#[verifier::external_body]
fn std_rng_from_seed(seed: u64) -> StdRng {
    StdRng::seed_from_u64(seed)
}

/// Relies on rand's `Rng::gen_range` on a half-open integer range: a value
/// in `0..bound` (it panics only on an empty range).
#[verifier::external_body]
fn draw_below(rng: &mut StdRng, bound: u32) -> (r: u32)
    requires
        bound > 0,
    ensures
        r < bound,
{
    rng.gen_range(0..bound)
}

/// Relies on rand's `Rng::gen_range` on an inclusive integer range: a value
/// in `lo..=hi` (it panics only on an empty range).
#[verifier::external_body]
fn draw_between(rng: &mut StdRng, lo: u16, hi: u16) -> (r: u16)
    requires
        lo <= hi,
    ensures
        lo <= r <= hi,
{
    rng.gen_range(lo..=hi)
}

/// A seeded random source. Two dice made from one seed hand out the same
/// values in the same order.
pub struct Dice {
    rng: StdRng,
    drawn: Ghost<Seq<nat>>,
}

impl Dice {
    /// Every value handed out so far, oldest first.
    pub closed spec fn drawn(&self) -> Seq<nat> {
        self.drawn@
    }

    pub fn from_seed(seed: u64) -> (d: Dice)
        ensures
            d.drawn() == Seq::<nat>::empty(),
    {
        Dice { rng: std_rng_from_seed(seed), drawn: Ghost(Seq::empty()) }
    }

    /// A value in `0..bound`.
    pub fn roll_below(&mut self, bound: u32) -> (r: u32)
        requires
            bound > 0,
        ensures
            r < bound,
            final(self).drawn() == old(self).drawn().push(r as nat),
    {
        let r = draw_below(&mut self.rng, bound);
        self.drawn = Ghost(self.drawn@.push(r as nat));
        r
    }

    /// A value in `lo..=hi`.
    pub fn roll_between(&mut self, lo: u16, hi: u16) -> (r: u16)
        requires
            lo <= hi,
        ensures
            lo <= r <= hi,
            final(self).drawn() == old(self).drawn().push(r as nat),
    {
        let r = draw_between(&mut self.rng, lo, hi);
        self.drawn = Ghost(self.drawn@.push(r as nat));
        r
    }
}

} // verus!
