//! Generators of delay segments: a static delay, and a repeated pattern of
//! other delay generators.

use crate::duration::{Delay, Duration};
use crate::repeat::{
    duplicate_all, lemma_step_stays_ended, pattern_states, pull, start, state_of, step, Cursor,
    Emitted, RepeatedState,
};
use crate::trace::{nth_segment, state_after, total_span, DelayTrace, Trace, TraceConfig};
use vstd::prelude::*;

verus! {

/// A blueprint of delay generators.
pub trait DelayTraceConfig: TraceConfig {
    /// Makes the generator that the blueprint describes.
    fn into_model(self) -> (m: Self::Model)
        ensures
            m.state() == Self::fresh(self.state()),
    {
        self.model()
    }
}

impl<C: TraceConfig> DelayTraceConfig for C where C::Model: DelayTrace {
}

/// One delay that lasts for one span of time.
///
/// It hands out its delay with the whole span once, unless the span is
/// empty, and has then ended.
#[derive(Clone, Copy, Debug, PartialEq, Eq)]
pub struct StaticDelay {
    pub delay: Delay,
    pub duration: Option<Duration>,
}

/// The blueprint of a [`StaticDelay`]. A delay that is not set is 10 ms, a
/// span that is not set is 1 s.
#[derive(Clone, Copy, Debug, PartialEq, Eq)]
pub struct StaticDelayConfig {
    pub delay: Option<Delay>,
    pub duration: Option<Duration>,
}

impl Trace for StaticDelay {
    type Segment = (Delay, Duration);

    type State = StaticDelay;

    open spec fn state(&self) -> StaticDelay {
        *self
    }

    open spec fn head(s: StaticDelay) -> Option<(nat, nat)> {
        match s.duration {
            Some(d) => if d@ == 0 {
                None
            } else {
                Some((s.delay@, d@))
            },
            None => None,
        }
    }

    open spec fn tail(s: StaticDelay) -> StaticDelay {
        StaticDelay { duration: None, ..s }
    }

    proof fn lemma_stays_ended(s: StaticDelay) {
    }

    fn next_segment(&mut self) -> (r: Option<(Delay, Duration)>) {
        let duration = self.duration.take();
        match duration {
            Some(d) => if d.is_zero() {
                None
            } else {
                Some((self.delay, d))
            },
            None => None,
        }
    }
}

impl StaticDelayConfig {
    /// A blueprint with nothing set.
    pub fn new() -> (c: Self)
        ensures
            c == (StaticDelayConfig { delay: None, duration: None }),
    {
        Self { delay: None, duration: None }
    }

    /// Sets the delay.
    pub fn delay(self, delay: Delay) -> (c: Self)
        ensures
            c == (StaticDelayConfig { delay: Some(delay), ..self }),
    {
        Self { delay: Some(delay), duration: self.duration }
    }

    /// Sets the span that the delay lasts.
    pub fn duration(self, duration: Duration) -> (c: Self)
        ensures
            c == (StaticDelayConfig { duration: Some(duration), ..self }),
    {
        Self { delay: self.delay, duration: Some(duration) }
    }

    /// The generator that the blueprint describes.
    pub open(crate) spec fn built(self) -> StaticDelay {
        StaticDelay {
            delay: match self.delay {
                Some(d) => d,
                None => Duration::from_millis(10),
            },
            duration: Some(
                match self.duration {
                    Some(d) => d,
                    None => Duration::from_secs(1),
                },
            ),
        }
    }

    /// Makes the generator.
    pub fn build(self) -> (m: StaticDelay)
        ensures
            m == self.built(),
    {
        StaticDelay {
            delay: match self.delay {
                Some(d) => d,
                None => Duration::from_millis(10),
            },
            duration: Some(
                match self.duration {
                    Some(d) => d,
                    None => Duration::from_secs(1),
                },
            ),
        }
    }
}

impl TraceConfig for StaticDelayConfig {
    type Model = StaticDelay;

    type State = StaticDelayConfig;

    open spec fn state(&self) -> StaticDelayConfig {
        *self
    }

    open spec fn fresh(c: StaticDelayConfig) -> StaticDelay {
        c.built()
    }

    fn model(&self) -> (m: StaticDelay) {
        StaticDelayConfig { delay: self.delay, duration: self.duration }.build()
    }

    fn duplicate(&self) -> (c: StaticDelayConfig) {
        StaticDelayConfig { delay: self.delay, duration: self.duration }
    }
}

/// A list of delay blueprints that is walked `count` times, or without end
/// where `count` is 0.
pub struct RepeatedDelayPattern<C: TraceConfig> {
    pub pattern: Vec<C>,
    pub count: usize,
    cursor: Cursor<C::Model>,
}

/// The blueprint of a [`RepeatedDelayPattern`].
pub struct RepeatedDelayPatternConfig<C: TraceConfig> {
    pub pattern: Vec<C>,
    pub count: usize,
}

impl<C: TraceConfig> Trace for RepeatedDelayPattern<C> {
    type Segment = <C::Model as Trace>::Segment;

    type State = RepeatedState<C>;

    closed spec fn state(&self) -> RepeatedState<C> {
        state_of(self.pattern@, self.count, self.cursor)
    }

    open spec fn head(s: RepeatedState<C>) -> Option<Emitted<C>> {
        step(s).1
    }

    open spec fn tail(s: RepeatedState<C>) -> RepeatedState<C> {
        step(s).0
    }

    proof fn lemma_stays_ended(s: RepeatedState<C>) {
        lemma_step_stays_ended(s);
    }

    fn next_segment(&mut self) -> (r: Option<Self::Segment>) {
        pull(&self.pattern, self.count, &mut self.cursor)
    }
}

impl<C: TraceConfig> RepeatedDelayPatternConfig<C> {
    /// A blueprint with an empty list, walked without end.
    pub fn new() -> (c: Self)
        ensures
            c.pattern@ == Seq::<C>::empty(),
            c.count == 0,
    {
        Self { pattern: Vec::new(), count: 0 }
    }

    /// Sets the list.
    pub fn pattern(self, pattern: Vec<C>) -> (c: Self)
        ensures
            c.pattern == pattern,
            c.count == self.count,
    {
        Self { pattern, count: self.count }
    }

    /// Sets how often the list is walked; 0 stands for without end.
    pub fn count(self, count: usize) -> (c: Self)
        ensures
            c.pattern == self.pattern,
            c.count == count,
    {
        Self { pattern: self.pattern, count }
    }

    /// Makes the generator: it starts before the first blueprint of the first
    /// cycle.
    pub fn build(self) -> (m: RepeatedDelayPattern<C>)
        ensures
            m.state() == start::<C>(pattern_states(self.pattern@), self.count as nat),
    {
        RepeatedDelayPattern {
            pattern: self.pattern,
            count: self.count,
            cursor: Cursor { cycle: 0, index: 0, live: None },
        }
    }
}

impl<C: TraceConfig> TraceConfig for RepeatedDelayPatternConfig<C> {
    type Model = RepeatedDelayPattern<C>;

    type State = (Seq<C::State>, nat);

    open spec fn state(&self) -> (Seq<C::State>, nat) {
        (pattern_states(self.pattern@), self.count as nat)
    }

    open spec fn fresh(c: (Seq<C::State>, nat)) -> RepeatedState<C> {
        start::<C>(c.0, c.1)
    }

    fn model(&self) -> (m: RepeatedDelayPattern<C>) {
        self.duplicate().build()
    }

    fn duplicate(&self) -> (c: RepeatedDelayPatternConfig<C>) {
        RepeatedDelayPatternConfig { pattern: duplicate_all(&self.pattern), count: self.count }
    }
}

/// How long a delay segment lasts, in nanoseconds.
pub open spec fn segment_span(segment: (nat, nat)) -> nat {
    segment.1
}

/// A static delay whose span is set and not empty hands out one segment that
/// lasts the whole span, and has then ended.
pub proof fn lemma_static_spans(s: StaticDelay)
    requires
        s.duration is Some,
        s.duration->0@ > 0,
    ensures
        total_span::<StaticDelay>(s, 1, |x: (nat, nat)| segment_span(x)) == s.duration->0@,
        nth_segment::<StaticDelay>(s, 1) is None,
{
    let span = |x: (nat, nat)| segment_span(x);
    assert(total_span::<StaticDelay>(StaticDelay::tail(s), 0, span) == 0);
    assert(state_after::<StaticDelay>(s, 1) == state_after::<StaticDelay>(StaticDelay::tail(s), 0));
}

} // verus!
