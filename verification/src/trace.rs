//! The pull contract that every generator of this library keeps, and the
//! blueprint contract of the configurations that generators are made from.

use crate::bandwidth::Bandwidth;
use crate::duration::{Delay, Duration};
use crate::ratio::Ratio;
use vstd::prelude::*;

verus! {

/// Chances of a loss, one for each number of packets lost in a row before.
pub type LossPattern = Vec<Ratio>;

/// Chances of a duplication, one for each number of packets duplicated in a
/// row before.
pub type DuplicatePattern = Vec<Ratio>;

/// What one pull on the generator `T` hands out, as a mathematical value:
/// rates in bits per second, spans in nanoseconds, shares in parts per
/// billion.
pub type Emission<T> = <<T as Trace>::Segment as DeepView>::V;

/// A generator that is pulled for one segment at a time.
///
/// Its behaviour is a function of its state: `head` tells what the next pull
/// hands out and `tail` what state it leaves behind, so the whole stream to
/// come is fixed by the state. `state`, `head`, `tail` and the lemma are for
/// proofs: nothing calls them when the program runs.
pub trait Trace: Sized {
    /// What one pull hands out.
    type Segment: DeepView;

    /// What fixes every segment still to come.
    type State;

    /// The state that the generator is in.
    spec fn state(&self) -> Self::State;

    /// The segment that the next pull hands out, `None` once the generator has
    /// ended.
    spec fn head(s: Self::State) -> Option<Emission<Self>>;

    /// The state that the next pull leaves behind.
    spec fn tail(s: Self::State) -> Self::State;

    /// A generator that has ended stays ended.
    proof fn lemma_stays_ended(s: Self::State)
        requires
            Self::head(s) is None,
        ensures
            Self::head(Self::tail(s)) is None,
    ;

    /// Pulls the next segment.
    fn next_segment(&mut self) -> (r: Option<Self::Segment>)
        ensures
            r.deep_view() == Self::head(old(self).state()),
            final(self).state() == Self::tail(old(self).state()),
    ;
}

/// A blueprint from which any number of fresh generators can be made, each
/// starting in the same state. `state` and `fresh` are for proofs: nothing
/// calls them when the program runs.
pub trait TraceConfig: Sized {
    /// The generator that this blueprint describes.
    type Model: Trace;

    /// What the blueprint holds, as a mathematical value.
    type State;

    /// What this blueprint holds.
    spec fn state(&self) -> Self::State;

    /// The state in which a generator made from the blueprint starts.
    spec fn fresh(c: Self::State) -> <Self::Model as Trace>::State;

    /// Makes a fresh generator and leaves the blueprint as it is.
    fn model(&self) -> (m: Self::Model)
        ensures
            m.state() == Self::fresh(self.state()),
    ;

    /// Makes a second blueprint that holds the same.
    fn duplicate(&self) -> (c: Self)
        ensures
            c.state() == self.state(),
    ;
}

/// The state of a generator `n` pulls from now.
pub open spec fn state_after<T: Trace>(s: T::State, n: nat) -> T::State
    decreases n,
{
    if n == 0 {
        s
    } else {
        state_after::<T>(T::tail(s), (n - 1) as nat)
    }
}

/// The segment that the pull after `n` others hands out.
pub open spec fn nth_segment<T: Trace>(s: T::State, n: nat) -> Option<Emission<T>> {
    T::head(state_after::<T>(s, n))
}

/// Whether a generator in state `s` hands out exactly the segments of `out`,
/// in that order, and has then ended.
pub open spec fn emits<T: Trace>(s: T::State, out: Seq<Emission<T>>) -> bool
    decreases out.len(),
{
    if out.len() == 0 {
        T::head(s) is None
    } else {
        T::head(s) == Some(out[0]) && emits::<T>(T::tail(s), out.skip(1))
    }
}

/// Whether a generator in state `s` hands out the segments of `out` first,
/// in that order, whatever it does behind them.
pub open spec fn starts_with<T: Trace>(s: T::State, out: Seq<Emission<T>>) -> bool
    decreases out.len(),
{
    if out.len() == 0 {
        true
    } else {
        T::head(s) == Some(out[0]) && starts_with::<T>(T::tail(s), out.skip(1))
    }
}

/// A generator that hands out one list of segments and then another first
/// hands out the one first.
pub proof fn lemma_starts_with_front<T: Trace>(
    s: T::State,
    front: Seq<Emission<T>>,
    behind: Seq<Emission<T>>,
)
    requires
        starts_with::<T>(s, front + behind),
    ensures
        starts_with::<T>(s, front),
    decreases front.len(),
{
    if front.len() > 0 {
        assert((front + behind)[0] == front[0]);
        assert((front + behind).skip(1) =~= front.skip(1) + behind);
        lemma_starts_with_front::<T>(T::tail(s), front.skip(1), behind);
    }
}

/// Once a pull has handed out nothing, no later pull hands out anything:
/// the end of a generator is final.
pub proof fn lemma_ended_for_good<T: Trace>(s: T::State, n: nat)
    requires
        T::head(s) is None,
    ensures
        nth_segment::<T>(s, n) is None,
    decreases n,
{
    if n > 0 {
        T::lemma_stays_ended(s);
        lemma_ended_for_good::<T>(T::tail(s), (n - 1) as nat);
    }
}

/// Two generators of one kind that are in the same state hand out the same
/// segments, pull after pull. So do a generator made from a blueprint and one
/// made from a copy of it: both start in the state that the blueprint fixes.
pub proof fn lemma_same_blueprint_same_trace<C: TraceConfig>(
    blueprint: C::State,
    copy: C::State,
    first: <C::Model as Trace>::State,
    second: <C::Model as Trace>::State,
    n: nat,
)
    requires
        copy == blueprint,
        first == C::fresh(blueprint),
        second == C::fresh(copy),
    ensures
        nth_segment::<C::Model>(first, n) == nth_segment::<C::Model>(second, n),
        state_after::<C::Model>(first, n) == state_after::<C::Model>(second, n),
{
}

/// The time that the next `n` segments of a generator last together, where
/// `span` tells how long one segment lasts.
pub open spec fn total_span<T: Trace>(
    s: T::State,
    n: nat,
    span: spec_fn(Emission<T>) -> nat,
) -> nat
    decreases n,
{
    if n == 0 {
        0
    } else {
        match T::head(s) {
            None => 0,
            Some(segment) => span(segment) + total_span::<T>(T::tail(s), (n - 1) as nat, span),
        }
    }
}

/// A generator of bandwidth segments: a rate and how long it lasts.
pub trait BwTrace: Trace<Segment = (Bandwidth, Duration)> {
    /// Pulls the next rate and how long it lasts.
    fn next_bw(&mut self) -> (r: Option<(Bandwidth, Duration)>)
        ensures
            r.deep_view() == Self::head(old(self).state()),
            final(self).state() == Self::tail(old(self).state()),
    {
        self.next_segment()
    }
}

impl<T: Trace<Segment = (Bandwidth, Duration)>> BwTrace for T {
}

/// A generator of delay segments: a delay and how long it lasts.
pub trait DelayTrace: Trace<Segment = (Delay, Duration)> {
    /// Pulls the next delay and how long it lasts.
    fn next_delay(&mut self) -> (r: Option<(Delay, Duration)>)
        ensures
            r.deep_view() == Self::head(old(self).state()),
            final(self).state() == Self::tail(old(self).state()),
    {
        self.next_segment()
    }
}

impl<T: Trace<Segment = (Delay, Duration)>> DelayTrace for T {
}

/// A generator of delays, one for each packet.
pub trait DelayPerPacketTrace: Trace<Segment = Delay> {
    /// Pulls the delay of the next packet.
    fn next_delay(&mut self) -> (r: Option<Delay>)
        ensures
            r.deep_view() == Self::head(old(self).state()),
            final(self).state() == Self::tail(old(self).state()),
    {
        self.next_segment()
    }
}

impl<T: Trace<Segment = Delay>> DelayPerPacketTrace for T {
}

/// A generator of loss segments: a loss pattern and how long it lasts.
pub trait LossTrace: Trace<Segment = (LossPattern, Duration)> {
    /// Pulls the next loss pattern and how long it lasts.
    fn next_loss(&mut self) -> (r: Option<(LossPattern, Duration)>)
        ensures
            r.deep_view() == Self::head(old(self).state()),
            final(self).state() == Self::tail(old(self).state()),
    {
        self.next_segment()
    }
}

impl<T: Trace<Segment = (LossPattern, Duration)>> LossTrace for T {
}

/// A generator of duplication segments: a duplication pattern and how long it
/// lasts.
pub trait DuplicateTrace: Trace<Segment = (DuplicatePattern, Duration)> {
    /// Pulls the next duplication pattern and how long it lasts.
    fn next_duplicate(&mut self) -> (r: Option<(DuplicatePattern, Duration)>)
        ensures
            r.deep_view() == Self::head(old(self).state()),
            final(self).state() == Self::tail(old(self).state()),
    {
        self.next_segment()
    }
}

impl<T: Trace<Segment = (DuplicatePattern, Duration)>> DuplicateTrace for T {
}

} // verus!
