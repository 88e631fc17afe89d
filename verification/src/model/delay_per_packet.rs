//! Generators of delays, one for each packet: a static delay, delays drawn
//! around a mean, and a repeated pattern of other per-packet generators.

use crate::duration::{span_of, Delay, Duration, MAX_NANOS};
use crate::repeat::{
    duplicate_all, lemma_step_stays_ended, pattern_states, pull, start, state_of, step, Cursor,
    Emitted, RepeatedState,
};
use crate::sample::{clamped, random_u64, SampleSource};
use crate::trace::{
    lemma_ended_for_good, nth_segment, DelayPerPacketTrace, Trace, TraceConfig,
};
use std::marker::PhantomData;
use vstd::prelude::*;

verus! {

/// The seed of a generator whose blueprint sets none.
pub const DEFAULT_RNG_SEED: u64 = 42;

/// A blueprint of per-packet delay generators.
pub trait DelayPerPacketTraceConfig: TraceConfig {
    /// Makes the generator that the blueprint describes.
    fn into_model(self) -> (m: Self::Model)
        ensures
            m.state() == Self::fresh(self.state()),
    {
        self.model()
    }
}

impl<C: TraceConfig> DelayPerPacketTraceConfig for C where C::Model: DelayPerPacketTrace {
}

/// Whether a generator that is to hand out `count` delays, or delays without
/// end where `count` is 0, has handed out all of them after `handed` ones.
pub open spec fn all_handed(count: nat, handed: nat) -> bool {
    count != 0 && handed >= count
}

/// The number of delays handed out after one more. A generator without end
/// does not count.
pub open spec fn one_more(count: nat, handed: nat) -> nat {
    if count == 0 {
        handed
    } else {
        handed + 1
    }
}

/// What fixes every delay that a static per-packet delay still hands out.
pub struct StaticDelayPerPacketState {
    /// The delay, in nanoseconds.
    pub delay: nat,
    /// How many delays are handed out; 0 stands for without end.
    pub count: nat,
    /// How many delays have been handed out.
    pub current_count: nat,
}

/// One delay, handed out for `count` packets, or without end where `count`
/// is 0.
#[derive(Clone, Copy, Debug)]
pub struct StaticDelayPerPacket {
    pub delay: Delay,
    pub count: usize,
    current_count: usize,
}

/// The blueprint of a [`StaticDelayPerPacket`]. A delay that is not set is
/// 10 ms.
#[derive(Clone, Copy, Debug, PartialEq, Eq)]
pub struct StaticDelayPerPacketConfig {
    pub delay: Option<Delay>,
    pub count: usize,
}

impl Trace for StaticDelayPerPacket {
    type Segment = Delay;

    type State = StaticDelayPerPacketState;

    closed spec fn state(&self) -> StaticDelayPerPacketState {
        StaticDelayPerPacketState {
            delay: self.delay@,
            count: self.count as nat,
            current_count: self.current_count as nat,
        }
    }

    open spec fn head(s: StaticDelayPerPacketState) -> Option<nat> {
        if all_handed(s.count, s.current_count) {
            None
        } else {
            Some(s.delay)
        }
    }

    open spec fn tail(s: StaticDelayPerPacketState) -> StaticDelayPerPacketState {
        if all_handed(s.count, s.current_count) {
            s
        } else {
            StaticDelayPerPacketState { current_count: one_more(s.count, s.current_count), ..s }
        }
    }

    proof fn lemma_stays_ended(s: StaticDelayPerPacketState) {
    }

    fn next_segment(&mut self) -> (r: Option<Delay>) {
        if self.count != 0 && self.current_count >= self.count {
            None
        } else {
            if self.count != 0 {
                self.current_count = self.current_count + 1;
            }
            Some(self.delay)
        }
    }
}

impl StaticDelayPerPacketConfig {
    /// A blueprint with no delay set, for delays without end.
    pub fn new() -> (c: Self)
        ensures
            c == (StaticDelayPerPacketConfig { delay: None, count: 0 }),
    {
        Self { delay: None, count: 0 }
    }

    /// Sets the delay.
    pub fn delay(self, delay: Delay) -> (c: Self)
        ensures
            c == (StaticDelayPerPacketConfig { delay: Some(delay), ..self }),
    {
        Self { delay: Some(delay), count: self.count }
    }

    /// Sets how many delays are handed out; 0 stands for without end.
    pub fn count(self, count: usize) -> (c: Self)
        ensures
            c == (StaticDelayPerPacketConfig { count, ..self }),
    {
        Self { delay: self.delay, count }
    }

    /// The state in which a generator made from the blueprint starts.
    pub open(crate) spec fn started(self) -> StaticDelayPerPacketState {
        StaticDelayPerPacketState {
            delay: match self.delay {
                Some(d) => d@,
                None => 10_000_000,
            },
            count: self.count as nat,
            current_count: 0,
        }
    }

    /// Makes the generator.
    pub fn build(self) -> (m: StaticDelayPerPacket)
        ensures
            m.state() == self.started(),
    {
        StaticDelayPerPacket {
            delay: match self.delay {
                Some(d) => d,
                None => Duration::from_millis(10),
            },
            count: self.count,
            current_count: 0,
        }
    }
}

impl TraceConfig for StaticDelayPerPacketConfig {
    type Model = StaticDelayPerPacket;

    type State = StaticDelayPerPacketConfig;

    open spec fn state(&self) -> StaticDelayPerPacketConfig {
        *self
    }

    open spec fn fresh(c: StaticDelayPerPacketConfig) -> StaticDelayPerPacketState {
        c.started()
    }

    fn model(&self) -> (m: StaticDelayPerPacket) {
        StaticDelayPerPacketConfig { delay: self.delay, count: self.count }.build()
    }

    fn duplicate(&self) -> (c: StaticDelayPerPacketConfig) {
        StaticDelayPerPacketConfig { delay: self.delay, count: self.count }
    }
}

/// A list of per-packet delay blueprints that is walked `count` times, or
/// without end where `count` is 0.
pub struct RepeatedDelayPerPacketPattern<C: TraceConfig> {
    pub pattern: Vec<C>,
    pub count: usize,
    cursor: Cursor<C::Model>,
}

/// The blueprint of a [`RepeatedDelayPerPacketPattern`].
pub struct RepeatedDelayPerPacketPatternConfig<C: TraceConfig> {
    pub pattern: Vec<C>,
    pub count: usize,
}

impl<C: TraceConfig> Trace for RepeatedDelayPerPacketPattern<C> {
    type Segment = <C::Model as Trace>::Segment;

    type State = RepeatedState<C>;

    closed spec fn state(&self) -> RepeatedState<C> {
        state_of(self.pattern@, self.count, self.cursor)
    }

    open spec fn head(s: RepeatedState<C>) -> Option<Emitted<C>> {
        step(s).1
    }

    open spec fn tail(s: RepeatedState<C>) -> RepeatedState<C> {
        step(s).0
    }

    proof fn lemma_stays_ended(s: RepeatedState<C>) {
        lemma_step_stays_ended(s);
    }

    fn next_segment(&mut self) -> (r: Option<Self::Segment>) {
        pull(&self.pattern, self.count, &mut self.cursor)
    }
}

impl<C: TraceConfig> RepeatedDelayPerPacketPatternConfig<C> {
    /// A blueprint with an empty list, walked without end.
    pub fn new() -> (c: Self)
        ensures
            c.pattern@ == Seq::<C>::empty(),
            c.count == 0,
    {
        Self { pattern: Vec::new(), count: 0 }
    }

    /// Sets the list.
    pub fn pattern(self, pattern: Vec<C>) -> (c: Self)
        ensures
            c.pattern == pattern,
            c.count == self.count,
    {
        Self { pattern, count: self.count }
    }

    /// Sets how often the list is walked; 0 stands for without end.
    pub fn count(self, count: usize) -> (c: Self)
        ensures
            c.pattern == self.pattern,
            c.count == count,
    {
        Self { pattern: self.pattern, count }
    }

    /// Makes the generator: it starts before the first blueprint of the first
    /// cycle.
    pub fn build(self) -> (m: RepeatedDelayPerPacketPattern<C>)
        ensures
            m.state() == start::<C>(pattern_states(self.pattern@), self.count as nat),
    {
        RepeatedDelayPerPacketPattern {
            pattern: self.pattern,
            count: self.count,
            cursor: Cursor { cycle: 0, index: 0, live: None },
        }
    }
}

impl<C: TraceConfig> TraceConfig for RepeatedDelayPerPacketPatternConfig<C> {
    type Model = RepeatedDelayPerPacketPattern<C>;

    type State = (Seq<C::State>, nat);

    open spec fn state(&self) -> (Seq<C::State>, nat) {
        (pattern_states(self.pattern@), self.count as nat)
    }

    open spec fn fresh(c: (Seq<C::State>, nat)) -> RepeatedState<C> {
        start::<C>(c.0, c.1)
    }

    fn model(&self) -> (m: RepeatedDelayPerPacketPattern<C>) {
        RepeatedDelayPerPacketPatternConfig {
            pattern: duplicate_all(&self.pattern),
            count: self.count,
        }.build()
    }

    fn duplicate(&self) -> (c: RepeatedDelayPerPacketPatternConfig<C>) {
        RepeatedDelayPerPacketPatternConfig {
            pattern: duplicate_all(&self.pattern),
            count: self.count,
        }
    }
}

/// The delay in nanoseconds that a sample stands for: nothing below zero, and
/// nothing above the longest span.
pub open spec fn sample_delay(sample: i128) -> nat {
    if sample <= 0 {
        0
    } else if sample >= MAX_NANOS {
        MAX_NANOS as nat
    } else {
        sample as nat
    }
}

/// The delay that a sample stands for, held within the bounds.
pub fn clamp_sample(sample: i128, lower: Delay, upper: Option<Delay>) -> (delay: Delay)
    ensures
        delay@ == clamped(sample_delay(sample), Some(lower@), span_of(upper)),
{
    let nanos: u128 = if sample <= 0 {
        0
    } else if sample >= MAX_NANOS as i128 {
        MAX_NANOS
    } else {
        sample as u128
    };
    let mut delay = Duration { nanos };
    if delay.nanos < lower.nanos {
        delay = lower;
    }
    if let Some(u) = upper {
        if delay.nanos > u.nanos {
            delay = u;
        }
    }
    delay
}

/// What fixes every delay that a generator of drawn delays still hands out.
pub struct DrawnDelayState<S: SampleSource> {
    /// The bound that no delay is above, in nanoseconds.
    pub upper_bound: Option<nat>,
    /// The bound that no delay is below, in nanoseconds.
    pub lower_bound: nat,
    /// How many delays are handed out; 0 stands for without end.
    pub count: nat,
    /// How many delays have been handed out.
    pub current_count: nat,
    /// The source of the samples.
    pub source: S::State,
}

/// The delay that a generator of drawn delays hands out next.
pub open spec fn drawn_head<S: SampleSource>(s: DrawnDelayState<S>) -> Option<nat> {
    if all_handed(s.count, s.current_count) {
        None
    } else {
        Some(clamped(sample_delay(S::head(s.source)), Some(s.lower_bound), s.upper_bound))
    }
}

/// The state that the next pull leaves a generator of drawn delays in.
pub open spec fn drawn_tail<S: SampleSource>(s: DrawnDelayState<S>) -> DrawnDelayState<S> {
    if all_handed(s.count, s.current_count) {
        s
    } else {
        DrawnDelayState {
            current_count: one_more(s.count, s.current_count),
            source: S::tail(s.source),
            ..s
        }
    }
}

/// Delays drawn around a mean, each held within the bounds, for `count`
/// packets, or without end where `count` is 0.
pub struct NormalizedDelayPerPacket<S: SampleSource> {
    pub mean: Delay,
    pub std_dev: Delay,
    pub upper_bound: Option<Delay>,
    pub lower_bound: Delay,
    pub seed: u64,
    pub count: usize,
    current_count: usize,
    source: S,
}

/// The blueprint of a [`NormalizedDelayPerPacket`] that draws from the source `S`.
///
/// Where they are not set, the mean is 10 ms, the standard deviation 0, the
/// lower bound 0 and the seed 42, and there is no upper bound.
pub struct NormalizedDelayPerPacketConfig<S: SampleSource> {
    pub mean: Option<Delay>,
    pub std_dev: Option<Delay>,
    pub upper_bound: Option<Delay>,
    pub lower_bound: Option<Delay>,
    pub count: usize,
    pub seed: Option<u64>,
    pub source: PhantomData<S>,
}

impl<S: SampleSource> Trace for NormalizedDelayPerPacket<S> {
    type Segment = Delay;

    type State = DrawnDelayState<S>;

    closed spec fn state(&self) -> DrawnDelayState<S> {
        DrawnDelayState {
            upper_bound: span_of(self.upper_bound),
            lower_bound: self.lower_bound@,
            count: self.count as nat,
            current_count: self.current_count as nat,
            source: self.source.state(),
        }
    }

    open spec fn head(s: DrawnDelayState<S>) -> Option<nat> {
        drawn_head(s)
    }

    open spec fn tail(s: DrawnDelayState<S>) -> DrawnDelayState<S> {
        drawn_tail(s)
    }

    proof fn lemma_stays_ended(s: DrawnDelayState<S>) {
    }

    fn next_segment(&mut self) -> (r: Option<Delay>) {
        if self.count != 0 && self.current_count >= self.count {
            None
        } else {
            if self.count != 0 {
                self.current_count = self.current_count + 1;
            }
            let sample = self.source.next_sample();
            Some(clamp_sample(sample, self.lower_bound, self.upper_bound))
        }
    }
}

impl<S: SampleSource> NormalizedDelayPerPacketConfig<S> {
    /// A blueprint with nothing set, for delays without end.
    pub fn new() -> (c: Self)
        ensures
            c == (NormalizedDelayPerPacketConfig::<S> {
                mean: None,
                std_dev: None,
                upper_bound: None,
                lower_bound: None,
                count: 0,
                seed: None,
                source: PhantomData,
            }),
    {
        Self {
            mean: None,
            std_dev: None,
            upper_bound: None,
            lower_bound: None,
            count: 0,
            seed: None,
            source: PhantomData,
        }
    }

    /// Sets the mean.
    pub fn mean(self, mean: Delay) -> (c: Self)
        ensures
            c == (NormalizedDelayPerPacketConfig { mean: Some(mean), ..self }),
    {
        Self { mean: Some(mean), ..self }
    }

    /// Sets the standard deviation.
    pub fn std_dev(self, std_dev: Delay) -> (c: Self)
        ensures
            c == (NormalizedDelayPerPacketConfig { std_dev: Some(std_dev), ..self }),
    {
        Self { std_dev: Some(std_dev), ..self }
    }

    /// Sets the bound that no delay is above.
    pub fn upper_bound(self, upper_bound: Delay) -> (c: Self)
        ensures
            c == (NormalizedDelayPerPacketConfig { upper_bound: Some(upper_bound), ..self }),
    {
        Self { upper_bound: Some(upper_bound), ..self }
    }

    /// Sets the bound that no delay is below.
    pub fn lower_bound(self, lower_bound: Delay) -> (c: Self)
        ensures
            c == (NormalizedDelayPerPacketConfig { lower_bound: Some(lower_bound), ..self }),
    {
        Self { lower_bound: Some(lower_bound), ..self }
    }

    /// Sets how many delays are handed out; 0 stands for without end.
    pub fn count(self, count: usize) -> (c: Self)
        ensures
            c == (NormalizedDelayPerPacketConfig { count, ..self }),
    {
        Self { count, ..self }
    }

    /// Sets the seed of the source.
    pub fn seed(self, seed: u64) -> (c: Self)
        ensures
            c == (NormalizedDelayPerPacketConfig { seed: Some(seed), ..self }),
    {
        Self { seed: Some(seed), ..self }
    }

    /// Sets a seed that is picked at random.
    pub fn random_seed(self) -> (c: Self)
        ensures
            c.seed is Some,
            c == (NormalizedDelayPerPacketConfig { seed: c.seed, ..self }),
    {
        let seed = random_u64();
        Self { seed: Some(seed), ..self }
    }

    /// The state in which a generator made from the blueprint with the
    /// source `R` starts. The source is seeded in nanoseconds.
    pub open(crate) spec fn started<R: SampleSource>(self) -> DrawnDelayState<R> {
        DrawnDelayState {
            upper_bound: span_of(self.upper_bound),
            lower_bound: match self.lower_bound {
                Some(d) => d@,
                None => 0,
            },
            count: self.count as nat,
            current_count: 0,
            source: R::seeded_state(
                match self.mean {
                    Some(d) => d.nanos,
                    None => 10_000_000,
                },
                match self.std_dev {
                    Some(d) => d.nanos,
                    None => 0,
                },
                match self.seed {
                    Some(seed) => seed,
                    None => DEFAULT_RNG_SEED,
                },
            ),
        }
    }

    /// Makes the generator, with the source of the blueprint.
    pub fn build(self) -> (m: NormalizedDelayPerPacket<S>)
        ensures
            m.state() == self.started::<S>(),
    {
        self.build_with_rng::<S>()
    }

    /// Makes the generator, with the source `R`.
    pub fn build_with_rng<R: SampleSource>(self) -> (m: NormalizedDelayPerPacket<R>)
        ensures
            m.state() == self.started::<R>(),
    {
        let mean = match self.mean {
            Some(d) => d,
            None => Duration::from_millis(10),
        };
        let std_dev = match self.std_dev {
            Some(d) => d,
            None => Duration::zero(),
        };
        let seed = match self.seed {
            Some(seed) => seed,
            None => DEFAULT_RNG_SEED,
        };
        let source = R::seeded(mean.as_nanos(), std_dev.as_nanos(), seed);
        NormalizedDelayPerPacket {
            mean,
            std_dev,
            upper_bound: self.upper_bound,
            lower_bound: match self.lower_bound {
                Some(d) => d,
                None => Duration::zero(),
            },
            seed,
            count: self.count,
            current_count: 0,
            source,
        }
    }
}

impl<S: SampleSource> TraceConfig for NormalizedDelayPerPacketConfig<S> {
    type Model = NormalizedDelayPerPacket<S>;

    type State = NormalizedDelayPerPacketConfig<S>;

    open spec fn state(&self) -> NormalizedDelayPerPacketConfig<S> {
        *self
    }

    open spec fn fresh(c: NormalizedDelayPerPacketConfig<S>) -> DrawnDelayState<S> {
        c.started::<S>()
    }

    fn model(&self) -> (m: NormalizedDelayPerPacket<S>) {
        self.duplicate().build()
    }

    fn duplicate(&self) -> (c: NormalizedDelayPerPacketConfig<S>) {
        NormalizedDelayPerPacketConfig {
            mean: self.mean,
            std_dev: self.std_dev,
            upper_bound: self.upper_bound,
            lower_bound: self.lower_bound,
            count: self.count,
            seed: self.seed,
            source: PhantomData,
        }
    }
}

/// Delays drawn from a distribution with a long tail, each held within the
/// bounds, for `count` packets, or without end where `count` is 0.
///
/// It works as a [`NormalizedDelayPerPacket`] does. What sets the two apart is
/// the source that they are meant for: this one is seeded with the mean and
/// the standard deviation of the delays themselves, and its source draws
/// from the log-normal distribution that has them.
pub struct LogNormalizedDelayPerPacket<S: SampleSource> {
    pub mean: Delay,
    pub std_dev: Delay,
    pub upper_bound: Option<Delay>,
    pub lower_bound: Delay,
    pub seed: u64,
    pub count: usize,
    current_count: usize,
    source: S,
}

/// The blueprint of a [`LogNormalizedDelayPerPacket`] that draws from the source `S`.
///
/// Where they are not set, the mean is 10 ms, the standard deviation 0, the
/// lower bound 0 and the seed 42, and there is no upper bound.
pub struct LogNormalizedDelayPerPacketConfig<S: SampleSource> {
    pub mean: Option<Delay>,
    pub std_dev: Option<Delay>,
    pub upper_bound: Option<Delay>,
    pub lower_bound: Option<Delay>,
    pub count: usize,
    pub seed: Option<u64>,
    pub source: PhantomData<S>,
}

impl<S: SampleSource> Trace for LogNormalizedDelayPerPacket<S> {
    type Segment = Delay;

    type State = DrawnDelayState<S>;

    closed spec fn state(&self) -> DrawnDelayState<S> {
        DrawnDelayState {
            upper_bound: span_of(self.upper_bound),
            lower_bound: self.lower_bound@,
            count: self.count as nat,
            current_count: self.current_count as nat,
            source: self.source.state(),
        }
    }

    open spec fn head(s: DrawnDelayState<S>) -> Option<nat> {
        drawn_head(s)
    }

    open spec fn tail(s: DrawnDelayState<S>) -> DrawnDelayState<S> {
        drawn_tail(s)
    }

    proof fn lemma_stays_ended(s: DrawnDelayState<S>) {
    }

    fn next_segment(&mut self) -> (r: Option<Delay>) {
        if self.count != 0 && self.current_count >= self.count {
            None
        } else {
            if self.count != 0 {
                self.current_count = self.current_count + 1;
            }
            let sample = self.source.next_sample();
            Some(clamp_sample(sample, self.lower_bound, self.upper_bound))
        }
    }
}

impl<S: SampleSource> LogNormalizedDelayPerPacketConfig<S> {
    /// A blueprint with nothing set, for delays without end.
    pub fn new() -> (c: Self)
        ensures
            c == (LogNormalizedDelayPerPacketConfig::<S> {
                mean: None,
                std_dev: None,
                upper_bound: None,
                lower_bound: None,
                count: 0,
                seed: None,
                source: PhantomData,
            }),
    {
        Self {
            mean: None,
            std_dev: None,
            upper_bound: None,
            lower_bound: None,
            count: 0,
            seed: None,
            source: PhantomData,
        }
    }

    /// Sets the mean.
    pub fn mean(self, mean: Delay) -> (c: Self)
        ensures
            c == (LogNormalizedDelayPerPacketConfig { mean: Some(mean), ..self }),
    {
        Self { mean: Some(mean), ..self }
    }

    /// Sets the standard deviation.
    pub fn std_dev(self, std_dev: Delay) -> (c: Self)
        ensures
            c == (LogNormalizedDelayPerPacketConfig { std_dev: Some(std_dev), ..self }),
    {
        Self { std_dev: Some(std_dev), ..self }
    }

    /// Sets the bound that no delay is above.
    pub fn upper_bound(self, upper_bound: Delay) -> (c: Self)
        ensures
            c == (LogNormalizedDelayPerPacketConfig { upper_bound: Some(upper_bound), ..self }),
    {
        Self { upper_bound: Some(upper_bound), ..self }
    }

    /// Sets the bound that no delay is below.
    pub fn lower_bound(self, lower_bound: Delay) -> (c: Self)
        ensures
            c == (LogNormalizedDelayPerPacketConfig { lower_bound: Some(lower_bound), ..self }),
    {
        Self { lower_bound: Some(lower_bound), ..self }
    }

    /// Sets how many delays are handed out; 0 stands for without end.
    pub fn count(self, count: usize) -> (c: Self)
        ensures
            c == (LogNormalizedDelayPerPacketConfig { count, ..self }),
    {
        Self { count, ..self }
    }

    /// Sets the seed of the source.
    pub fn seed(self, seed: u64) -> (c: Self)
        ensures
            c == (LogNormalizedDelayPerPacketConfig { seed: Some(seed), ..self }),
    {
        Self { seed: Some(seed), ..self }
    }

    /// Sets a seed that is picked at random.
    pub fn random_seed(self) -> (c: Self)
        ensures
            c.seed is Some,
            c == (LogNormalizedDelayPerPacketConfig { seed: c.seed, ..self }),
    {
        let seed = random_u64();
        Self { seed: Some(seed), ..self }
    }

    /// The state in which a generator made from the blueprint with the
    /// source `R` starts. The source is seeded in nanoseconds.
    pub open(crate) spec fn started<R: SampleSource>(self) -> DrawnDelayState<R> {
        DrawnDelayState {
            upper_bound: span_of(self.upper_bound),
            lower_bound: match self.lower_bound {
                Some(d) => d@,
                None => 0,
            },
            count: self.count as nat,
            current_count: 0,
            source: R::seeded_state(
                match self.mean {
                    Some(d) => d.nanos,
                    None => 10_000_000,
                },
                match self.std_dev {
                    Some(d) => d.nanos,
                    None => 0,
                },
                match self.seed {
                    Some(seed) => seed,
                    None => DEFAULT_RNG_SEED,
                },
            ),
        }
    }

    /// Makes the generator, with the source of the blueprint.
    pub fn build(self) -> (m: LogNormalizedDelayPerPacket<S>)
        ensures
            m.state() == self.started::<S>(),
    {
        self.build_with_rng::<S>()
    }

    /// Makes the generator, with the source `R`.
    pub fn build_with_rng<R: SampleSource>(self) -> (m: LogNormalizedDelayPerPacket<R>)
        ensures
            m.state() == self.started::<R>(),
    {
        let mean = match self.mean {
            Some(d) => d,
            None => Duration::from_millis(10),
        };
        let std_dev = match self.std_dev {
            Some(d) => d,
            None => Duration::zero(),
        };
        let seed = match self.seed {
            Some(seed) => seed,
            None => DEFAULT_RNG_SEED,
        };
        let source = R::seeded(mean.as_nanos(), std_dev.as_nanos(), seed);
        LogNormalizedDelayPerPacket {
            mean,
            std_dev,
            upper_bound: self.upper_bound,
            lower_bound: match self.lower_bound {
                Some(d) => d,
                None => Duration::zero(),
            },
            seed,
            count: self.count,
            current_count: 0,
            source,
        }
    }
}

impl<S: SampleSource> TraceConfig for LogNormalizedDelayPerPacketConfig<S> {
    type Model = LogNormalizedDelayPerPacket<S>;

    type State = LogNormalizedDelayPerPacketConfig<S>;

    open spec fn state(&self) -> LogNormalizedDelayPerPacketConfig<S> {
        *self
    }

    open spec fn fresh(c: LogNormalizedDelayPerPacketConfig<S>) -> DrawnDelayState<S> {
        c.started::<S>()
    }

    fn model(&self) -> (m: LogNormalizedDelayPerPacket<S>) {
        self.duplicate().build()
    }

    fn duplicate(&self) -> (c: LogNormalizedDelayPerPacketConfig<S>) {
        LogNormalizedDelayPerPacketConfig {
            mean: self.mean,
            std_dev: self.std_dev,
            upper_bound: self.upper_bound,
            lower_bound: self.lower_bound,
            count: self.count,
            seed: self.seed,
            source: PhantomData,
        }
    }
}

/// Turns a per-packet delay blueprint into one that repeats it without end.
pub trait Forever: TraceConfig {
    /// The blueprints of the list that is repeated.
    type Child: TraceConfig;

    /// The list that is repeated.
    spec fn repeated(c: Self::State) -> Seq<<Self::Child as TraceConfig>::State>;

    fn forever(self) -> (c: RepeatedDelayPerPacketPatternConfig<Self::Child>)
        ensures
            c.state() == (Self::repeated(self.state()), 0nat),
    ;
}

impl<C: TraceConfig> Forever for RepeatedDelayPerPacketPatternConfig<C> {
    type Child = C;

    open spec fn repeated(c: (Seq<C::State>, nat)) -> Seq<C::State> {
        c.0
    }

    fn forever(self) -> (c: RepeatedDelayPerPacketPatternConfig<C>) {
        self.count(0)
    }
}

impl Forever for StaticDelayPerPacketConfig {
    type Child = StaticDelayPerPacketConfig;

    open spec fn repeated(c: StaticDelayPerPacketConfig) -> Seq<StaticDelayPerPacketConfig> {
        seq![c]
    }

    fn forever(self) -> (c: RepeatedDelayPerPacketPatternConfig<StaticDelayPerPacketConfig>) {
        let c = RepeatedDelayPerPacketPatternConfig::new().pattern(vec![self]).count(0);
        assert(pattern_states(c.pattern@) =~= seq![self]);
        c
    }
}

impl<S: SampleSource> Forever for NormalizedDelayPerPacketConfig<S> {
    type Child = NormalizedDelayPerPacketConfig<S>;

    open spec fn repeated(c: NormalizedDelayPerPacketConfig<S>) -> Seq<
        NormalizedDelayPerPacketConfig<S>,
    > {
        seq![c]
    }

    fn forever(self) -> (c: RepeatedDelayPerPacketPatternConfig<
        NormalizedDelayPerPacketConfig<S>,
    >) {
        let c = RepeatedDelayPerPacketPatternConfig::new().pattern(vec![self]).count(0);
        assert(pattern_states(c.pattern@) =~= seq![self]);
        c
    }
}

/// Every delay that a generator of normally drawn delays hands out lies
/// within its bounds, where the lower one is not above the upper one.
pub proof fn lemma_drawn_within_bounds<S: SampleSource>(s: DrawnDelayState<S>, n: nat)
    requires
        s.upper_bound is Some,
        s.lower_bound <= s.upper_bound->0,
    ensures
        nth_segment::<NormalizedDelayPerPacket<S>>(s, n) matches Some(delay) ==> s.lower_bound
            <= delay <= s.upper_bound->0,
    decreases n,
{
    if n > 0 {
        lemma_drawn_within_bounds::<S>(drawn_tail(s), (n - 1) as nat);
    }
}

/// A generator of drawn delays that is to hand out `count` delays hands out
/// as many as are left of them, and has then ended.
pub proof fn lemma_drawn_count<S: SampleSource>(s: DrawnDelayState<S>, n: nat)
    requires
        s.count != 0,
        s.current_count <= s.count,
    ensures
        n < s.count - s.current_count ==> nth_segment::<NormalizedDelayPerPacket<S>>(s, n) is Some,
        n >= s.count - s.current_count ==> nth_segment::<NormalizedDelayPerPacket<S>>(s, n) is None,
    decreases n,
{
    if n > 0 {
        if s.current_count < s.count {
            lemma_drawn_count::<S>(drawn_tail(s), (n - 1) as nat);
        } else {
            lemma_ended_for_good::<NormalizedDelayPerPacket<S>>(s, n);
        }
    }
}

/// A static per-packet delay that is to hand out `count` delays hands out as
/// many as are left of them, and has then ended.
pub proof fn lemma_static_count(s: StaticDelayPerPacketState, n: nat)
    requires
        s.count != 0,
        s.current_count <= s.count,
    ensures
        n < s.count - s.current_count ==> nth_segment::<StaticDelayPerPacket>(s, n) == Some(
            s.delay,
        ),
        n >= s.count - s.current_count ==> nth_segment::<StaticDelayPerPacket>(s, n) is None,
    decreases n,
{
    if n > 0 {
        if s.current_count < s.count {
            lemma_static_count(StaticDelayPerPacket::tail(s), (n - 1) as nat);
        } else {
            lemma_ended_for_good::<StaticDelayPerPacket>(s, n);
        }
    }
}

} // verus!
