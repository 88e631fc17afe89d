//! Generators of duplication segments: a static duplication pattern, and a repeated
//! pattern of other duplication generators.

use crate::duration::{span_of, Duration};
use crate::ratio::{copy_ratios, Ratio};
use crate::repeat::{
    duplicate_all, lemma_step_stays_ended, pattern_states, pull, start, state_of, step, Cursor,
    Emitted, RepeatedState,
};
use crate::trace::{
    nth_segment, state_after, total_span, DuplicatePattern, DuplicateTrace, Trace, TraceConfig,
};
use vstd::prelude::*;

verus! {

/// A blueprint of duplication generators.
pub trait DuplicateTraceConfig: TraceConfig {
    /// Makes the generator that the blueprint describes.
    fn into_model(self) -> (m: Self::Model)
        ensures
            m.state() == Self::fresh(self.state()),
    {
        self.model()
    }
}

impl<C: TraceConfig> DuplicateTraceConfig for C where C::Model: DuplicateTrace {
}

/// What fixes every segment that a static duplication pattern still hands out.
pub struct StaticDuplicateState {
    /// The chances of the pattern, in parts per billion.
    pub duplicate: Seq<nat>,
    /// The span that is left, in nanoseconds, if any is.
    pub duration: Option<nat>,
}

/// One duplication pattern that lasts for one span of time.
///
/// It hands out its pattern with the whole span once, unless the span is
/// empty, and has then ended.
#[derive(Debug)]
pub struct StaticDuplicate {
    pub duplicate: DuplicatePattern,
    pub duration: Option<Duration>,
}

/// The blueprint of a [`StaticDuplicate`]. A pattern that is not set is one chance
/// in ten, and two in ten after a duplication; a span that is not set is 1 s.
#[derive(Debug)]
pub struct StaticDuplicateConfig {
    pub duplicate: Option<DuplicatePattern>,
    pub duration: Option<Duration>,
}

/// The chances of an optional pattern.
pub open spec fn chances_of(pattern: Option<DuplicatePattern>) -> Option<Seq<nat>> {
    match pattern {
        Some(p) => Some(p.deep_view()),
        None => None,
    }
}

impl Trace for StaticDuplicate {
    type Segment = (DuplicatePattern, Duration);

    type State = StaticDuplicateState;

    open spec fn state(&self) -> StaticDuplicateState {
        StaticDuplicateState {
            duplicate: self.duplicate.deep_view(),
            duration: span_of(self.duration),
        }
    }

    open spec fn head(s: StaticDuplicateState) -> Option<(Seq<nat>, nat)> {
        match s.duration {
            Some(d) => if d == 0 {
                None
            } else {
                Some((s.duplicate, d))
            },
            None => None,
        }
    }

    open spec fn tail(s: StaticDuplicateState) -> StaticDuplicateState {
        StaticDuplicateState { duration: None, ..s }
    }

    proof fn lemma_stays_ended(s: StaticDuplicateState) {
    }

    fn next_segment(&mut self) -> (r: Option<(DuplicatePattern, Duration)>) {
        let duration = self.duration.take();
        match duration {
            Some(d) => if d.is_zero() {
                None
            } else {
                Some((copy_ratios(&self.duplicate), d))
            },
            None => None,
        }
    }
}

impl StaticDuplicateConfig {
    /// A blueprint with nothing set.
    pub fn new() -> (c: Self)
        ensures
            c.duplicate is None,
            c.duration is None,
    {
        Self { duplicate: None, duration: None }
    }

    /// Sets the pattern.
    pub fn duplicate(self, duplicate: DuplicatePattern) -> (c: Self)
        ensures
            c.duplicate == Some(duplicate),
            c.duration == self.duration,
    {
        Self { duplicate: Some(duplicate), duration: self.duration }
    }

    /// Sets the span that the pattern lasts.
    pub fn duration(self, duration: Duration) -> (c: Self)
        ensures
            c.duplicate == self.duplicate,
            c.duration == Some(duration),
    {
        Self { duplicate: self.duplicate, duration: Some(duration) }
    }

    /// The state in which a generator made from a blueprint that holds this
    /// starts.
    pub open spec fn started(
        duplicate: Option<Seq<nat>>,
        duration: Option<nat>,
    ) -> StaticDuplicateState {
        StaticDuplicateState {
            duplicate: match duplicate {
                Some(p) => p,
                None => seq![100_000_000nat, 200_000_000nat],
            },
            duration: Some(
                match duration {
                    Some(d) => d,
                    None => 1_000_000_000,
                },
            ),
        }
    }

    /// Makes the generator.
    pub fn build(self) -> (m: StaticDuplicate)
        ensures
            m.state() == Self::started(chances_of(self.duplicate), span_of(self.duration)),
    {
        let duplicate = match self.duplicate {
            Some(p) => p,
            None => {
                let p = vec![Ratio { ppb: 100_000_000 }, Ratio { ppb: 200_000_000 }];
                assert(p.deep_view() =~= seq![100_000_000nat, 200_000_000nat]);
                p
            },
        };
        StaticDuplicate {
            duplicate,
            duration: Some(
                match self.duration {
                    Some(d) => d,
                    None => Duration::from_secs(1),
                },
            ),
        }
    }
}

impl TraceConfig for StaticDuplicateConfig {
    type Model = StaticDuplicate;

    type State = (Option<Seq<nat>>, Option<nat>);

    open spec fn state(&self) -> (Option<Seq<nat>>, Option<nat>) {
        (chances_of(self.duplicate), span_of(self.duration))
    }

    open spec fn fresh(c: (Option<Seq<nat>>, Option<nat>)) -> StaticDuplicateState {
        StaticDuplicateConfig::started(c.0, c.1)
    }

    fn model(&self) -> (m: StaticDuplicate) {
        self.duplicate().build()
    }

    fn duplicate(&self) -> (c: StaticDuplicateConfig) {
        StaticDuplicateConfig {
            duplicate: match &self.duplicate {
                Some(p) => Some(copy_ratios(p)),
                None => None,
            },
            duration: self.duration,
        }
    }
}

/// A list of duplication blueprints that is walked `count` times, or without end
/// where `count` is 0.
pub struct RepeatedDuplicatePattern<C: TraceConfig> {
    pub pattern: Vec<C>,
    pub count: usize,
    cursor: Cursor<C::Model>,
}

/// The blueprint of a [`RepeatedDuplicatePattern`].
pub struct RepeatedDuplicatePatternConfig<C: TraceConfig> {
    pub pattern: Vec<C>,
    pub count: usize,
}

impl<C: TraceConfig> Trace for RepeatedDuplicatePattern<C> {
    type Segment = <C::Model as Trace>::Segment;

    type State = RepeatedState<C>;

    closed spec fn state(&self) -> RepeatedState<C> {
        state_of(self.pattern@, self.count, self.cursor)
    }

    open spec fn head(s: RepeatedState<C>) -> Option<Emitted<C>> {
        step(s).1
    }

    open spec fn tail(s: RepeatedState<C>) -> RepeatedState<C> {
        step(s).0
    }

    proof fn lemma_stays_ended(s: RepeatedState<C>) {
        lemma_step_stays_ended(s);
    }

    fn next_segment(&mut self) -> (r: Option<Self::Segment>) {
        pull(&self.pattern, self.count, &mut self.cursor)
    }
}

impl<C: TraceConfig> RepeatedDuplicatePatternConfig<C> {
    /// A blueprint with an empty list, walked without end.
    pub fn new() -> (c: Self)
        ensures
            c.pattern@ == Seq::<C>::empty(),
            c.count == 0,
    {
        Self { pattern: Vec::new(), count: 0 }
    }

    /// Sets the list.
    pub fn pattern(self, pattern: Vec<C>) -> (c: Self)
        ensures
            c.pattern == pattern,
            c.count == self.count,
    {
        Self { pattern, count: self.count }
    }

    /// Sets how often the list is walked; 0 stands for without end.
    pub fn count(self, count: usize) -> (c: Self)
        ensures
            c.pattern == self.pattern,
            c.count == count,
    {
        Self { pattern: self.pattern, count }
    }

    /// Makes the generator: it starts before the first blueprint of the first
    /// cycle.
    pub fn build(self) -> (m: RepeatedDuplicatePattern<C>)
        ensures
            m.state() == start::<C>(pattern_states(self.pattern@), self.count as nat),
    {
        RepeatedDuplicatePattern {
            pattern: self.pattern,
            count: self.count,
            cursor: Cursor { cycle: 0, index: 0, live: None },
        }
    }
}

impl<C: TraceConfig> TraceConfig for RepeatedDuplicatePatternConfig<C> {
    type Model = RepeatedDuplicatePattern<C>;

    type State = (Seq<C::State>, nat);

    open spec fn state(&self) -> (Seq<C::State>, nat) {
        (pattern_states(self.pattern@), self.count as nat)
    }

    open spec fn fresh(c: (Seq<C::State>, nat)) -> RepeatedState<C> {
        start::<C>(c.0, c.1)
    }

    fn model(&self) -> (m: RepeatedDuplicatePattern<C>) {
        self.duplicate().build()
    }

    fn duplicate(&self) -> (c: RepeatedDuplicatePatternConfig<C>) {
        RepeatedDuplicatePatternConfig { pattern: duplicate_all(&self.pattern), count: self.count }
    }
}

/// How long a segment lasts, in nanoseconds.
pub open spec fn segment_span(segment: (Seq<nat>, nat)) -> nat {
    segment.1
}

/// A static pattern whose span is set and not empty hands out one segment
/// that lasts the whole span, and has then ended.
pub proof fn lemma_static_spans(s: StaticDuplicateState)
    requires
        s.duration is Some,
        s.duration->0 > 0,
    ensures
        total_span::<StaticDuplicate>(s, 1, |x: (Seq<nat>, nat)| segment_span(x)) == s.duration->0,
        nth_segment::<StaticDuplicate>(s, 1) is None,
{
    let span = |x: (Seq<nat>, nat)| segment_span(x);
    assert(total_span::<StaticDuplicate>(StaticDuplicate::tail(s), 0, span) == 0);
    assert(state_after::<StaticDuplicate>(s, 1) == state_after::<StaticDuplicate>(
        StaticDuplicate::tail(s),
        0,
    ));
}

} // verus!
