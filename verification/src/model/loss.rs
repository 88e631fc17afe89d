//! Generators of loss segments: a static loss pattern, and a repeated
//! pattern of other loss generators.

use crate::duration::{span_of, Duration};
use crate::ratio::{copy_ratios, Ratio};
use crate::repeat::{
    duplicate_all, lemma_step_stays_ended, pattern_states, pull, start, state_of, step, Cursor,
    Emitted, RepeatedState,
};
use crate::trace::{
    nth_segment, state_after, total_span, LossPattern, LossTrace, Trace, TraceConfig,
};
use vstd::prelude::*;

verus! {

/// A blueprint of loss generators.
pub trait LossTraceConfig: TraceConfig {
    /// Makes the generator that the blueprint describes.
    fn into_model(self) -> (m: Self::Model)
        ensures
            m.state() == Self::fresh(self.state()),
    {
        self.model()
    }
}

impl<C: TraceConfig> LossTraceConfig for C where C::Model: LossTrace {
}

/// What fixes every segment that a static loss pattern still hands out.
pub struct StaticLossState {
    /// The chances of the pattern, in parts per billion.
    pub loss: Seq<nat>,
    /// The span that is left, in nanoseconds, if any is.
    pub duration: Option<nat>,
}

/// One loss pattern that lasts for one span of time.
///
/// It hands out its pattern with the whole span once, unless the span is
/// empty, and has then ended.
#[derive(Debug)]
pub struct StaticLoss {
    pub loss: LossPattern,
    pub duration: Option<Duration>,
}

/// The blueprint of a [`StaticLoss`]. A pattern that is not set is one chance
/// in ten, and two in ten after a loss; a span that is not set is 1 s.
#[derive(Debug)]
pub struct StaticLossConfig {
    pub loss: Option<LossPattern>,
    pub duration: Option<Duration>,
}

/// The chances of an optional pattern.
pub open spec fn chances_of(pattern: Option<LossPattern>) -> Option<Seq<nat>> {
    match pattern {
        Some(p) => Some(p.deep_view()),
        None => None,
    }
}

impl Trace for StaticLoss {
    type Segment = (LossPattern, Duration);

    type State = StaticLossState;

    open spec fn state(&self) -> StaticLossState {
        StaticLossState {
            loss: self.loss.deep_view(),
            duration: span_of(self.duration),
        }
    }

    open spec fn head(s: StaticLossState) -> Option<(Seq<nat>, nat)> {
        match s.duration {
            Some(d) => if d == 0 {
                None
            } else {
                Some((s.loss, d))
            },
            None => None,
        }
    }

    open spec fn tail(s: StaticLossState) -> StaticLossState {
        StaticLossState { duration: None, ..s }
    }

    proof fn lemma_stays_ended(s: StaticLossState) {
    }

    fn next_segment(&mut self) -> (r: Option<(LossPattern, Duration)>) {
        let duration = self.duration.take();
        match duration {
            Some(d) => if d.is_zero() {
                None
            } else {
                Some((copy_ratios(&self.loss), d))
            },
            None => None,
        }
    }
}

impl StaticLossConfig {
    /// A blueprint with nothing set.
    pub fn new() -> (c: Self)
        ensures
            c.loss is None,
            c.duration is None,
    {
        Self { loss: None, duration: None }
    }

    /// Sets the pattern.
    pub fn loss(self, loss: LossPattern) -> (c: Self)
        ensures
            c.loss == Some(loss),
            c.duration == self.duration,
    {
        Self { loss: Some(loss), duration: self.duration }
    }

    /// Sets the span that the pattern lasts.
    pub fn duration(self, duration: Duration) -> (c: Self)
        ensures
            c.loss == self.loss,
            c.duration == Some(duration),
    {
        Self { loss: self.loss, duration: Some(duration) }
    }

    /// The state in which a generator made from a blueprint that holds this
    /// starts.
    pub open spec fn started(
        loss: Option<Seq<nat>>,
        duration: Option<nat>,
    ) -> StaticLossState {
        StaticLossState {
            loss: match loss {
                Some(p) => p,
                None => seq![100_000_000nat, 200_000_000nat],
            },
            duration: Some(
                match duration {
                    Some(d) => d,
                    None => 1_000_000_000,
                },
            ),
        }
    }

    /// Makes the generator.
    pub fn build(self) -> (m: StaticLoss)
        ensures
            m.state() == Self::started(chances_of(self.loss), span_of(self.duration)),
    {
        let loss = match self.loss {
            Some(p) => p,
            None => {
                let p = vec![Ratio { ppb: 100_000_000 }, Ratio { ppb: 200_000_000 }];
                assert(p.deep_view() =~= seq![100_000_000nat, 200_000_000nat]);
                p
            },
        };
        StaticLoss {
            loss,
            duration: Some(
                match self.duration {
                    Some(d) => d,
                    None => Duration::from_secs(1),
                },
            ),
        }
    }
}

impl TraceConfig for StaticLossConfig {
    type Model = StaticLoss;

    type State = (Option<Seq<nat>>, Option<nat>);

    open spec fn state(&self) -> (Option<Seq<nat>>, Option<nat>) {
        (chances_of(self.loss), span_of(self.duration))
    }

    open spec fn fresh(c: (Option<Seq<nat>>, Option<nat>)) -> StaticLossState {
        StaticLossConfig::started(c.0, c.1)
    }

    fn model(&self) -> (m: StaticLoss) {
        self.duplicate().build()
    }

    fn duplicate(&self) -> (c: StaticLossConfig) {
        StaticLossConfig {
            loss: match &self.loss {
                Some(p) => Some(copy_ratios(p)),
                None => None,
            },
            duration: self.duration,
        }
    }
}

/// A list of loss blueprints that is walked `count` times, or without end
/// where `count` is 0.
pub struct RepeatedLossPattern<C: TraceConfig> {
    pub pattern: Vec<C>,
    pub count: usize,
    cursor: Cursor<C::Model>,
}

/// The blueprint of a [`RepeatedLossPattern`].
pub struct RepeatedLossPatternConfig<C: TraceConfig> {
    pub pattern: Vec<C>,
    pub count: usize,
}

impl<C: TraceConfig> Trace for RepeatedLossPattern<C> {
    type Segment = <C::Model as Trace>::Segment;

    type State = RepeatedState<C>;

    closed spec fn state(&self) -> RepeatedState<C> {
        state_of(self.pattern@, self.count, self.cursor)
    }

    open spec fn head(s: RepeatedState<C>) -> Option<Emitted<C>> {
        step(s).1
    }

    open spec fn tail(s: RepeatedState<C>) -> RepeatedState<C> {
        step(s).0
    }

    proof fn lemma_stays_ended(s: RepeatedState<C>) {
        lemma_step_stays_ended(s);
    }

    fn next_segment(&mut self) -> (r: Option<Self::Segment>) {
        pull(&self.pattern, self.count, &mut self.cursor)
    }
}

impl<C: TraceConfig> RepeatedLossPatternConfig<C> {
    /// A blueprint with an empty list, walked without end.
    pub fn new() -> (c: Self)
        ensures
            c.pattern@ == Seq::<C>::empty(),
            c.count == 0,
    {
        Self { pattern: Vec::new(), count: 0 }
    }

    /// Sets the list.
    pub fn pattern(self, pattern: Vec<C>) -> (c: Self)
        ensures
            c.pattern == pattern,
            c.count == self.count,
    {
        Self { pattern, count: self.count }
    }

    /// Sets how often the list is walked; 0 stands for without end.
    pub fn count(self, count: usize) -> (c: Self)
        ensures
            c.pattern == self.pattern,
            c.count == count,
    {
        Self { pattern: self.pattern, count }
    }

    /// Makes the generator: it starts before the first blueprint of the first
    /// cycle.
    pub fn build(self) -> (m: RepeatedLossPattern<C>)
        ensures
            m.state() == start::<C>(pattern_states(self.pattern@), self.count as nat),
    {
        RepeatedLossPattern {
            pattern: self.pattern,
            count: self.count,
            cursor: Cursor { cycle: 0, index: 0, live: None },
        }
    }
}

impl<C: TraceConfig> TraceConfig for RepeatedLossPatternConfig<C> {
    type Model = RepeatedLossPattern<C>;

    type State = (Seq<C::State>, nat);

    open spec fn state(&self) -> (Seq<C::State>, nat) {
        (pattern_states(self.pattern@), self.count as nat)
    }

    open spec fn fresh(c: (Seq<C::State>, nat)) -> RepeatedState<C> {
        start::<C>(c.0, c.1)
    }

    fn model(&self) -> (m: RepeatedLossPattern<C>) {
        self.duplicate().build()
    }

    fn duplicate(&self) -> (c: RepeatedLossPatternConfig<C>) {
        RepeatedLossPatternConfig { pattern: duplicate_all(&self.pattern), count: self.count }
    }
}

/// How long a segment lasts, in nanoseconds.
pub open spec fn segment_span(segment: (Seq<nat>, nat)) -> nat {
    segment.1
}

/// A static pattern whose span is set and not empty hands out one segment
/// that lasts the whole span, and has then ended.
pub proof fn lemma_static_spans(s: StaticLossState)
    requires
        s.duration is Some,
        s.duration->0 > 0,
    ensures
        total_span::<StaticLoss>(s, 1, |x: (Seq<nat>, nat)| segment_span(x)) == s.duration->0,
        nth_segment::<StaticLoss>(s, 1) is None,
{
    let span = |x: (Seq<nat>, nat)| segment_span(x);
    assert(total_span::<StaticLoss>(StaticLoss::tail(s), 0, span) == 0);
    assert(state_after::<StaticLoss>(s, 1) == state_after::<StaticLoss>(
        StaticLoss::tail(s),
        0,
    ));
}

} // verus!
