//! Where the random samples of the generators come from.
//!
//! The library draws no random numbers itself. A generator that needs them
//! is handed a source, which it seeds from its blueprint. A source is
//! reproducible: what it was seeded with fixes every sample that it gives.

use vstd::prelude::*;

verus! {

/// A reproducible stream of samples around a mean.
///
/// The unit of the mean, of the deviation and of the samples is that of the
/// generator: bits per second for bandwidths, nanoseconds for delays.
///
/// What a source gives is a function of its state: `head` tells what the
/// next draw gives and `tail` what state it leaves behind. These two, with
/// `state` and `seeded_state`, are for proofs: nothing calls them when the
/// program runs. A source that is not verified has to keep the contract by
/// its own means: the same seed must give the same samples.
pub trait SampleSource: Sized {
    /// What fixes every sample still to come.
    type State;

    /// The state that the source is in.
    spec fn state(&self) -> Self::State;

    /// The state of a source that was just seeded.
    spec fn seeded_state(mean: u128, std_dev: u128, seed: u64) -> Self::State;

    /// The sample that the next draw gives.
    spec fn head(s: Self::State) -> i128;

    /// The state that the next draw leaves behind.
    spec fn tail(s: Self::State) -> Self::State;

    /// Makes the source for a distribution with this mean and this standard
    /// deviation, started from `seed`.
    fn seeded(mean: u128, std_dev: u128, seed: u64) -> (s: Self)
        ensures
            s.state() == Self::seeded_state(mean, std_dev, seed),
    ;

    /// Draws the next sample.
    fn next_sample(&mut self) -> (r: i128)
        ensures
            r == Self::head(old(self).state()),
            final(self).state() == Self::tail(old(self).state()),
    ;
}

/// Calls `rand::random` for a `u64`: a number that the generator which `rand`
/// keeps for the running thread picks. Nothing is promised of the number.
#[verifier::external_body]
pub(crate) fn random_u64() -> (seed: u64) {
    rand::random()
}

/// The source of a distribution without spread: every sample is the mean,
/// whatever the deviation and the seed are.
#[derive(Clone, Copy, Debug, PartialEq, Eq)]
pub struct Noiseless {
    pub mean: u128,
}

impl SampleSource for Noiseless {
    type State = u128;

    open spec fn state(&self) -> u128 {
        self.mean
    }

    open spec fn seeded_state(mean: u128, std_dev: u128, seed: u64) -> u128 {
        mean
    }

    open spec fn head(s: u128) -> i128 {
        if s <= i128::MAX {
            s as i128
        } else {
            i128::MAX
        }
    }

    open spec fn tail(s: u128) -> u128 {
        s
    }

    fn seeded(mean: u128, std_dev: u128, seed: u64) -> (s: Noiseless) {
        Noiseless { mean }
    }

    fn next_sample(&mut self) -> (r: i128) {
        if self.mean <= i128::MAX as u128 {
            self.mean as i128
        } else {
            i128::MAX
        }
    }
}

/// A value held within bounds: raised to the lower bound where it is below
/// it, then cut to the upper bound where it is above it. A bound that is not
/// set does not hold the value.
pub open spec fn clamped(value: nat, lower: Option<nat>, upper: Option<nat>) -> nat {
    let raised = match lower {
        Some(l) => if value < l {
            l
        } else {
            value
        },
        None => value,
    };
    match upper {
        Some(u) => if raised > u {
            u
        } else {
            raised
        },
        None => raised,
    }
}

/// A clamped value lies within the bounds, where both are set and the lower
/// one is not above the upper one.
pub proof fn lemma_clamped_within(value: nat, lower: nat, upper: nat)
    requires
        lower <= upper,
    ensures
        lower <= clamped(value, Some(lower), Some(upper)) <= upper,
{
}

/// The shorter of the step and of what is left of a whole span: the span of
/// the next segment.
pub open spec fn next_span(step: nat, left: nat) -> nat {
    if step <= left {
        step
    } else {
        left
    }
}

} // verus!
