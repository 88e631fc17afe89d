//! Generators of bandwidth segments: a static rate, a rate drawn around a
//! mean, a sawtooth, the replay of a recorded trace, and a repeated pattern
//! of other bandwidth generators.

use crate::bandwidth::{rate_of, Bandwidth};
use crate::duration::{Duration, MAX_NANOS};
use crate::ratio::Ratio;
use crate::repeat::{
    cycles, duplicate_all, lemma_cycles_len, lemma_repeats_count_times,
    lemma_repeats_without_end, lemma_step_stays_ended, pattern_states, produces, pull, start,
    state_of, step, traced, walked, Cursor, Emitted, RepeatedState,
};
use crate::sample::{clamped, next_span, random_u64, SampleSource};
use crate::trace::{
    emits, nth_segment, starts_with, state_after, total_span, BwTrace, Trace, TraceConfig,
};
use std::marker::PhantomData;
use vstd::prelude::*;

verus! {

/// The seed of a generator whose blueprint sets none.
pub const DEFAULT_RNG_SEED: u64 = 42;

/// A blueprint of bandwidth generators.
pub trait BwTraceConfig: TraceConfig {
    /// Makes the generator that the blueprint describes.
    fn into_model(self) -> (m: Self::Model)
        ensures
            m.state() == Self::fresh(self.state()),
    {
        self.model()
    }
}

impl<C: TraceConfig> BwTraceConfig for C where C::Model: BwTrace {
}

/// One rate that lasts for one span of time.
///
/// It hands out its rate with the whole span once, unless the span is empty,
/// and has then ended.
#[derive(Clone, Copy, Debug, PartialEq, Eq)]
pub struct StaticBw {
    pub bw: Bandwidth,
    pub duration: Option<Duration>,
}

/// The blueprint of a [`StaticBw`]. A rate that is not set is 12 Mbps, a span
/// that is not set is 1 s.
#[derive(Clone, Copy, Debug, PartialEq, Eq)]
pub struct StaticBwConfig {
    pub bw: Option<Bandwidth>,
    pub duration: Option<Duration>,
}

impl Trace for StaticBw {
    type Segment = (Bandwidth, Duration);

    type State = StaticBw;

    open spec fn state(&self) -> StaticBw {
        *self
    }

    open spec fn head(s: StaticBw) -> Option<(nat, nat)> {
        match s.duration {
            Some(d) => if d@ == 0 {
                None
            } else {
                Some((s.bw@, d@))
            },
            None => None,
        }
    }

    open spec fn tail(s: StaticBw) -> StaticBw {
        StaticBw { duration: None, ..s }
    }

    proof fn lemma_stays_ended(s: StaticBw) {
    }

    fn next_segment(&mut self) -> (r: Option<(Bandwidth, Duration)>) {
        let duration = self.duration.take();
        match duration {
            Some(d) => if d.is_zero() {
                None
            } else {
                Some((self.bw, d))
            },
            None => None,
        }
    }
}

impl StaticBwConfig {
    /// A blueprint with nothing set.
    pub fn new() -> (c: Self)
        ensures
            c == (StaticBwConfig { bw: None, duration: None }),
    {
        Self { bw: None, duration: None }
    }

    /// Sets the rate.
    pub fn bw(self, bw: Bandwidth) -> (c: Self)
        ensures
            c == (StaticBwConfig { bw: Some(bw), ..self }),
    {
        Self { bw: Some(bw), duration: self.duration }
    }

    /// Sets the span that the rate lasts.
    pub fn duration(self, duration: Duration) -> (c: Self)
        ensures
            c == (StaticBwConfig { duration: Some(duration), ..self }),
    {
        Self { bw: self.bw, duration: Some(duration) }
    }

    /// The generator that the blueprint describes.
    pub open(crate) spec fn built(self) -> StaticBw {
        StaticBw {
            bw: match self.bw {
                Some(b) => b,
                None => Bandwidth::from_mbps(12),
            },
            duration: Some(
                match self.duration {
                    Some(d) => d,
                    None => Duration::from_secs(1),
                },
            ),
        }
    }

    /// Makes the generator.
    pub fn build(self) -> (m: StaticBw)
        ensures
            m == self.built(),
    {
        StaticBw {
            bw: match self.bw {
                Some(b) => b,
                None => Bandwidth::from_mbps(12),
            },
            duration: Some(
                match self.duration {
                    Some(d) => d,
                    None => Duration::from_secs(1),
                },
            ),
        }
    }
}

impl TraceConfig for StaticBwConfig {
    type Model = StaticBw;

    type State = StaticBwConfig;

    open spec fn state(&self) -> StaticBwConfig {
        *self
    }

    open spec fn fresh(c: StaticBwConfig) -> StaticBw {
        c.built()
    }

    fn model(&self) -> (m: StaticBw) {
        StaticBwConfig { bw: self.bw, duration: self.duration }.build()
    }

    fn duplicate(&self) -> (c: StaticBwConfig) {
        StaticBwConfig { bw: self.bw, duration: self.duration }
    }
}

/// A list of bandwidth blueprints that is walked `count` times, or without
/// end where `count` is 0.
pub struct RepeatedBwPattern<C: TraceConfig> {
    pub pattern: Vec<C>,
    pub count: usize,
    cursor: Cursor<C::Model>,
}

/// The blueprint of a [`RepeatedBwPattern`].
pub struct RepeatedBwPatternConfig<C: TraceConfig> {
    pub pattern: Vec<C>,
    pub count: usize,
}

impl<C: TraceConfig> Trace for RepeatedBwPattern<C> {
    type Segment = <C::Model as Trace>::Segment;

    type State = RepeatedState<C>;

    closed spec fn state(&self) -> RepeatedState<C> {
        state_of(self.pattern@, self.count, self.cursor)
    }

    open spec fn head(s: RepeatedState<C>) -> Option<Emitted<C>> {
        step(s).1
    }

    open spec fn tail(s: RepeatedState<C>) -> RepeatedState<C> {
        step(s).0
    }

    proof fn lemma_stays_ended(s: RepeatedState<C>) {
        lemma_step_stays_ended(s);
    }

    fn next_segment(&mut self) -> (r: Option<Self::Segment>) {
        pull(&self.pattern, self.count, &mut self.cursor)
    }
}

impl<C: TraceConfig> RepeatedBwPatternConfig<C> {
    /// A blueprint with an empty list, walked without end.
    pub fn new() -> (c: Self)
        ensures
            c.pattern@ == Seq::<C>::empty(),
            c.count == 0,
    {
        Self { pattern: Vec::new(), count: 0 }
    }

    /// Sets the list.
    pub fn pattern(self, pattern: Vec<C>) -> (c: Self)
        ensures
            c.pattern == pattern,
            c.count == self.count,
    {
        Self { pattern, count: self.count }
    }

    /// Sets how often the list is walked; 0 stands for without end.
    pub fn count(self, count: usize) -> (c: Self)
        ensures
            c.pattern == self.pattern,
            c.count == count,
    {
        Self { pattern: self.pattern, count }
    }

    /// Makes the generator: it starts before the first blueprint of the first
    /// cycle.
    pub fn build(self) -> (m: RepeatedBwPattern<C>)
        ensures
            m.state() == start::<C>(pattern_states(self.pattern@), self.count as nat),
    {
        RepeatedBwPattern {
            pattern: self.pattern,
            count: self.count,
            cursor: Cursor { cycle: 0, index: 0, live: None },
        }
    }
}

impl<C: TraceConfig> TraceConfig for RepeatedBwPatternConfig<C> {
    type Model = RepeatedBwPattern<C>;

    type State = (Seq<C::State>, nat);

    open spec fn state(&self) -> (Seq<C::State>, nat) {
        (pattern_states(self.pattern@), self.count as nat)
    }

    open spec fn fresh(c: (Seq<C::State>, nat)) -> RepeatedState<C> {
        start::<C>(c.0, c.1)
    }

    fn model(&self) -> (m: RepeatedBwPattern<C>) {
        self.duplicate().build()
    }

    fn duplicate(&self) -> (c: RepeatedBwPatternConfig<C>) {
        RepeatedBwPatternConfig { pattern: duplicate_all(&self.pattern), count: self.count }
    }
}

/// Turns a bandwidth blueprint into one that repeats it without end.
pub trait Forever: TraceConfig {
    /// The blueprints of the list that is repeated.
    type Child: TraceConfig;

    /// The list that is repeated.
    spec fn repeated(c: Self::State) -> Seq<<Self::Child as TraceConfig>::State>;

    fn forever(self) -> (c: RepeatedBwPatternConfig<Self::Child>)
        ensures
            c.state() == (Self::repeated(self.state()), 0nat),
    ;
}

impl<C: TraceConfig> Forever for RepeatedBwPatternConfig<C> {
    type Child = C;

    open spec fn repeated(c: (Seq<C::State>, nat)) -> Seq<C::State> {
        c.0
    }

    fn forever(self) -> (c: RepeatedBwPatternConfig<C>) {
        self.count(0)
    }
}

impl Forever for StaticBwConfig {
    type Child = StaticBwConfig;

    open spec fn repeated(c: StaticBwConfig) -> Seq<StaticBwConfig> {
        seq![c]
    }

    fn forever(self) -> (c: RepeatedBwPatternConfig<StaticBwConfig>) {
        let c = RepeatedBwPatternConfig::new().pattern(vec![self]).count(0);
        assert(pattern_states(c.pattern@) =~= seq![self]);
        c
    }
}

/// A recorded trace: groups of rates, each group with the span that every one
/// of its rates lasts.
pub type TracePattern = Vec<(Duration, Vec<Bandwidth>)>;

/// The groups of `groups` that hold at least one rate, in their order.
pub open spec fn filled_groups(groups: Seq<(nat, Seq<nat>)>) -> Seq<(nat, Seq<nat>)>
    decreases groups.len(),
{
    if groups.len() == 0 {
        Seq::empty()
    } else if groups.last().1.len() > 0 {
        filled_groups(groups.drop_last()).push(groups.last())
    } else {
        filled_groups(groups.drop_last())
    }
}

/// What fixes every segment that the replay of a trace still hands out.
pub struct TraceBwState {
    /// The groups: a span in nanoseconds and rates in bits per second.
    pub pattern: Seq<(nat, Seq<nat>)>,
    /// The group that the replay is in.
    pub outer: nat,
    /// The place of the replay in that group.
    pub inner: nat,
}

/// The replay of a recorded trace.
///
/// It hands out the rates of the first group one by one, each with the span
/// of the group, then those of the second group, and so on, and has ended
/// behind the last group.
#[derive(Debug)]
pub struct TraceBw {
    pub pattern: TracePattern,
    pub outer_index: usize,
    pub inner_index: usize,
}

/// The blueprint of a [`TraceBw`]. Groups without a rate are left out of the
/// replay.
#[derive(Debug)]
pub struct TraceBwConfig {
    pub pattern: TracePattern,
}

impl Trace for TraceBw {
    type Segment = (Bandwidth, Duration);

    type State = TraceBwState;

    open spec fn state(&self) -> TraceBwState {
        TraceBwState {
            pattern: self.pattern.deep_view(),
            outer: self.outer_index as nat,
            inner: self.inner_index as nat,
        }
    }

    open spec fn head(s: TraceBwState) -> Option<(nat, nat)> {
        if s.outer < s.pattern.len() && s.inner < s.pattern[s.outer as int].1.len() {
            Some((s.pattern[s.outer as int].1[s.inner as int], s.pattern[s.outer as int].0))
        } else {
            None
        }
    }

    open spec fn tail(s: TraceBwState) -> TraceBwState {
        if Self::head(s) is None {
            s
        } else if s.inner + 1 < s.pattern[s.outer as int].1.len() {
            TraceBwState { inner: s.inner + 1, ..s }
        } else {
            TraceBwState { outer: s.outer + 1, inner: 0, ..s }
        }
    }

    proof fn lemma_stays_ended(s: TraceBwState) {
    }

    fn next_segment(&mut self) -> (r: Option<(Bandwidth, Duration)>) {
        if self.outer_index < self.pattern.len() {
            let group = &self.pattern[self.outer_index];
            if self.inner_index < group.1.len() {
                let r = (group.1[self.inner_index], group.0);
                if self.inner_index + 1 < group.1.len() {
                    self.inner_index = self.inner_index + 1;
                } else {
                    self.outer_index = self.outer_index + 1;
                    self.inner_index = 0;
                }
                return Some(r);
            }
        }
        None
    }
}

/// Copies the rates of a group.
fn copy_rates(rates: &Vec<Bandwidth>) -> (r: Vec<Bandwidth>)
    ensures
        r@ == rates@,
{
    let mut r: Vec<Bandwidth> = Vec::new();
    let mut i: usize = 0;
    while i < rates.len()
        invariant
            i <= rates.len(),
            r@ == rates@.take(i as int),
        decreases rates.len() - i,
    {
        r.push(rates[i]);
        assert(rates@.take(i + 1) =~= rates@.take(i as int).push(rates@[i as int]));
        i = i + 1;
    }
    assert(rates@.take(rates.len() as int) =~= rates@);
    r
}

/// Copies a recorded trace, all groups or only those that hold a rate.
fn copy_groups(pattern: &TracePattern, all: bool) -> (r: TracePattern)
    ensures
        all ==> r.deep_view() == pattern.deep_view(),
        !all ==> r.deep_view() == filled_groups(pattern.deep_view()),
{
    let mut r: TracePattern = Vec::new();
    let mut i: usize = 0;
    assert(pattern.deep_view().take(0) =~= Seq::empty());
    assert(r.deep_view() =~= Seq::empty());
    while i < pattern.len()
        invariant
            i <= pattern.len(),
            all ==> r.deep_view() == pattern.deep_view().take(i as int),
            !all ==> r.deep_view() == filled_groups(pattern.deep_view().take(i as int)),
        decreases pattern.len() - i,
    {
        let ghost before = r.deep_view();
        let ghost groups = pattern.deep_view();
        assert(groups.take(i + 1).drop_last() =~= groups.take(i as int));
        assert(groups.take(i + 1).last() == groups[i as int]);
        assert(groups[i as int] == pattern@[i as int].deep_view());
        assert(pattern@[i as int].deep_view().1.len() == pattern@[i as int].1@.len());
        if all || pattern[i].1.len() > 0 {
            let group = (pattern[i].0, copy_rates(&pattern[i].1));
            assert(group.deep_view() == groups[i as int]) by {
                assert(group.1.deep_view() =~= pattern@[i as int].1.deep_view());
            }
            r.push(group);
            assert(r.deep_view() =~= before.push(groups[i as int]));
            assert(groups.take(i + 1) =~= groups.take(i as int).push(groups[i as int]));
        }
        i = i + 1;
    }
    assert(pattern.deep_view().take(pattern.len() as int) =~= pattern.deep_view());
    r
}

impl TraceBwConfig {
    /// A blueprint with an empty trace.
    pub fn new() -> (c: Self)
        ensures
            c.pattern@ == Seq::<(Duration, Vec<Bandwidth>)>::empty(),
    {
        Self { pattern: Vec::new() }
    }

    /// Sets the trace.
    pub fn pattern(self, pattern: TracePattern) -> (c: Self)
        ensures
            c.pattern == pattern,
    {
        Self { pattern }
    }

    /// Makes the generator: the replay of the groups that hold a rate, from
    /// the first rate of the first of them.
    pub fn build(self) -> (m: TraceBw)
        ensures
            m.state() == (TraceBwState {
                pattern: filled_groups(self.pattern.deep_view()),
                outer: 0,
                inner: 0,
            }),
    {
        TraceBw { pattern: copy_groups(&self.pattern, false), outer_index: 0, inner_index: 0 }
    }
}

impl TraceConfig for TraceBwConfig {
    type Model = TraceBw;

    type State = Seq<(nat, Seq<nat>)>;

    open spec fn state(&self) -> Seq<(nat, Seq<nat>)> {
        self.pattern.deep_view()
    }

    open spec fn fresh(c: Seq<(nat, Seq<nat>)>) -> TraceBwState {
        TraceBwState { pattern: filled_groups(c), outer: 0, inner: 0 }
    }

    fn model(&self) -> (m: TraceBw) {
        TraceBw { pattern: copy_groups(&self.pattern, false), outer_index: 0, inner_index: 0 }
    }

    fn duplicate(&self) -> (c: TraceBwConfig) {
        TraceBwConfig { pattern: copy_groups(&self.pattern, true) }
    }
}

impl Forever for TraceBwConfig {
    type Child = TraceBwConfig;

    open spec fn repeated(c: Seq<(nat, Seq<nat>)>) -> Seq<Seq<(nat, Seq<nat>)>> {
        seq![c]
    }

    fn forever(self) -> (c: RepeatedBwPatternConfig<TraceBwConfig>) {
        let ghost held = self.state();
        let c = RepeatedBwPatternConfig::new().pattern(vec![self]).count(0);
        assert(pattern_states(c.pattern@) =~= seq![held]);
        c
    }
}

/// The rate in bits per second that a sample stands for: nothing below
/// zero, and nothing above `u64::MAX`.
pub open spec fn sample_rate(sample: i128) -> nat {
    if sample <= 0 {
        0
    } else if sample >= u64::MAX {
        u64::MAX as nat
    } else {
        sample as nat
    }
}

/// The bandwidth that a sample stands for, held within the bounds.
pub fn clamp_sample(sample: i128, lower: Option<Bandwidth>, upper: Option<Bandwidth>) -> (bw:
    Bandwidth)
    ensures
        bw@ == clamped(sample_rate(sample), rate_of(lower), rate_of(upper)),
{
    let rate: u128 = if sample <= 0 {
        0
    } else if sample >= u64::MAX as i128 {
        u64::MAX as u128
    } else {
        sample as u128
    };
    let mut bw = Bandwidth { bps: rate };
    if let Some(l) = lower {
        if bw.bps < l.bps {
            bw = l;
        }
    }
    if let Some(u) = upper {
        if bw.bps > u.bps {
            bw = u;
        }
    }
    bw
}

/// What fixes every segment that a normalized bandwidth still hands out.
pub struct NormalizedBwState<S: SampleSource> {
    /// The bound that no rate is above, in bits per second.
    pub upper_bound: Option<nat>,
    /// The bound that no rate is below, in bits per second.
    pub lower_bound: Option<nat>,
    /// What is left of the whole span, in nanoseconds.
    pub duration: nat,
    /// The span of one segment, in nanoseconds.
    pub step: nat,
    /// The source of the samples.
    pub source: S::State,
}

/// Rates drawn around a mean, each held within the bounds and lasting one
/// step, until a whole span is used up.
///
/// The last segment lasts what is left of the span. With an empty step no
/// segment could last, and the generator has ended from the start.
pub struct NormalizedBw<S: SampleSource> {
    pub mean: Bandwidth,
    pub std_dev: Bandwidth,
    pub upper_bound: Option<Bandwidth>,
    pub lower_bound: Option<Bandwidth>,
    pub duration: Duration,
    pub step: Duration,
    pub seed: u64,
    source: S,
}

/// The blueprint of a [`NormalizedBw`] that draws from the source `S`.
///
/// Where they are not set, the mean is 12 Mbps, the standard deviation 0,
/// the whole span 1 s, the step 1 ms and the seed 42, and there are no bounds.
pub struct NormalizedBwConfig<S: SampleSource> {
    pub mean: Option<Bandwidth>,
    pub std_dev: Option<Bandwidth>,
    pub upper_bound: Option<Bandwidth>,
    pub lower_bound: Option<Bandwidth>,
    pub duration: Option<Duration>,
    pub step: Option<Duration>,
    pub seed: Option<u64>,
    pub source: PhantomData<S>,
}

impl<S: SampleSource> NormalizedBw<S> {
    /// Whether no segment is left: the span is used up, or the step is empty.
    pub open spec fn ended(s: NormalizedBwState<S>) -> bool {
        s.duration == 0 || s.step == 0
    }

    /// Draws the next sample from the source, in bits per second. The span
    /// that is left stays as it is.
    pub fn sample(&mut self) -> (r: i128)
        ensures
            r == S::head(old(self).state().source),
            final(self).state() == (NormalizedBwState::<S> {
                source: S::tail(old(self).state().source),
                ..old(self).state()
            }),
    {
        self.source.next_sample()
    }
}

impl<S: SampleSource> Trace for NormalizedBw<S> {
    type Segment = (Bandwidth, Duration);

    type State = NormalizedBwState<S>;

    closed spec fn state(&self) -> NormalizedBwState<S> {
        NormalizedBwState {
            upper_bound: rate_of(self.upper_bound),
            lower_bound: rate_of(self.lower_bound),
            duration: self.duration@,
            step: self.step@,
            source: self.source.state(),
        }
    }

    open spec fn head(s: NormalizedBwState<S>) -> Option<(nat, nat)> {
        if Self::ended(s) {
            None
        } else {
            Some(
                (
                    clamped(sample_rate(S::head(s.source)), s.lower_bound, s.upper_bound),
                    next_span(s.step, s.duration),
                ),
            )
        }
    }

    open spec fn tail(s: NormalizedBwState<S>) -> NormalizedBwState<S> {
        if Self::ended(s) {
            s
        } else {
            NormalizedBwState {
                duration: (s.duration - next_span(s.step, s.duration)) as nat,
                source: S::tail(s.source),
                ..s
            }
        }
    }

    proof fn lemma_stays_ended(s: NormalizedBwState<S>) {
    }

    fn next_segment(&mut self) -> (r: Option<(Bandwidth, Duration)>) {
        if self.duration.is_zero() || self.step.is_zero() {
            None
        } else {
            let sample = self.source.next_sample();
            let bw = clamp_sample(sample, self.lower_bound, self.upper_bound);
            let span = self.step.min(self.duration);
            proof {
                use_type_invariant(self.duration);
            }
            self.duration = Duration { nanos: self.duration.nanos - span.nanos };
            Some((bw, span))
        }
    }
}

/// The rate of a bandwidth in bits per second, cut off at `u64::MAX`: what a
/// source is seeded with.
pub open spec fn seed_rate(bw: Bandwidth) -> u128 {
    if bw@ <= u64::MAX {
        bw@ as u128
    } else {
        u64::MAX as u128
    }
}

impl<S: SampleSource> NormalizedBwConfig<S> {
    /// A blueprint with nothing set.
    pub fn new() -> (c: Self)
        ensures
            c == (NormalizedBwConfig::<S> {
                mean: None,
                std_dev: None,
                upper_bound: None,
                lower_bound: None,
                duration: None,
                step: None,
                seed: None,
                source: PhantomData,
            }),
    {
        Self {
            mean: None,
            std_dev: None,
            upper_bound: None,
            lower_bound: None,
            duration: None,
            step: None,
            seed: None,
            source: PhantomData,
        }
    }

    /// Sets the mean.
    pub fn mean(self, mean: Bandwidth) -> (c: Self)
        ensures
            c == (NormalizedBwConfig { mean: Some(mean), ..self }),
    {
        Self { mean: Some(mean), ..self }
    }

    /// Sets the standard deviation.
    pub fn std_dev(self, std_dev: Bandwidth) -> (c: Self)
        ensures
            c == (NormalizedBwConfig { std_dev: Some(std_dev), ..self }),
    {
        Self { std_dev: Some(std_dev), ..self }
    }

    /// Sets the bound that no rate is above.
    pub fn upper_bound(self, upper_bound: Bandwidth) -> (c: Self)
        ensures
            c == (NormalizedBwConfig { upper_bound: Some(upper_bound), ..self }),
    {
        Self { upper_bound: Some(upper_bound), ..self }
    }

    /// Sets the bound that no rate is below.
    pub fn lower_bound(self, lower_bound: Bandwidth) -> (c: Self)
        ensures
            c == (NormalizedBwConfig { lower_bound: Some(lower_bound), ..self }),
    {
        Self { lower_bound: Some(lower_bound), ..self }
    }

    /// Sets the whole span of the trace.
    pub fn duration(self, duration: Duration) -> (c: Self)
        ensures
            c == (NormalizedBwConfig { duration: Some(duration), ..self }),
    {
        Self { duration: Some(duration), ..self }
    }

    /// Sets the span of one segment.
    pub fn step(self, step: Duration) -> (c: Self)
        ensures
            c == (NormalizedBwConfig { step: Some(step), ..self }),
    {
        Self { step: Some(step), ..self }
    }

    /// Sets the seed of the source.
    pub fn seed(self, seed: u64) -> (c: Self)
        ensures
            c == (NormalizedBwConfig { seed: Some(seed), ..self }),
    {
        Self { seed: Some(seed), ..self }
    }

    /// Sets a seed that is picked at random.
    pub fn random_seed(self) -> (c: Self)
        ensures
            c.seed is Some,
            c == (NormalizedBwConfig { seed: c.seed, ..self }),
    {
        let seed = random_u64();
        Self { seed: Some(seed), ..self }
    }

    /// The state in which a generator made from the blueprint with the
    /// source `R` starts.
    pub open(crate) spec fn started<R: SampleSource>(self) -> NormalizedBwState<R> {
        NormalizedBwState {
            upper_bound: rate_of(self.upper_bound),
            lower_bound: rate_of(self.lower_bound),
            duration: match self.duration {
                Some(d) => d@,
                None => 1_000_000_000,
            },
            step: match self.step {
                Some(d) => d@,
                None => 1_000_000,
            },
            source: R::seeded_state(
                seed_rate(
                    match self.mean {
                        Some(b) => b,
                        None => Bandwidth::from_mbps(12),
                    },
                ),
                seed_rate(
                    match self.std_dev {
                        Some(b) => b,
                        None => Bandwidth::zero(),
                    },
                ),
                match self.seed {
                    Some(seed) => seed,
                    None => DEFAULT_RNG_SEED,
                },
            ),
        }
    }

    /// Makes the generator, with the source of the blueprint.
    pub fn build(self) -> (m: NormalizedBw<S>)
        ensures
            m.state() == self.started::<S>(),
    {
        self.build_with_rng::<S>()
    }

    /// Makes the generator, with the source `R`.
    pub fn build_with_rng<R: SampleSource>(self) -> (m: NormalizedBw<R>)
        ensures
            m.state() == self.started::<R>(),
    {
        let mean = match self.mean {
            Some(b) => b,
            None => Bandwidth::from_mbps(12),
        };
        let std_dev = match self.std_dev {
            Some(b) => b,
            None => Bandwidth::from_mbps(0),
        };
        let duration = match self.duration {
            Some(d) => d,
            None => Duration::from_secs(1),
        };
        let step = match self.step {
            Some(d) => d,
            None => Duration::from_millis(1),
        };
        let seed = match self.seed {
            Some(seed) => seed,
            None => DEFAULT_RNG_SEED,
        };
        let source = R::seeded(
            mean.saturating_as_bps_u64() as u128,
            std_dev.saturating_as_bps_u64() as u128,
            seed,
        );
        NormalizedBw {
            mean,
            std_dev,
            upper_bound: self.upper_bound,
            lower_bound: self.lower_bound,
            duration,
            step,
            seed,
            source,
        }
    }
}

impl<S: SampleSource> TraceConfig for NormalizedBwConfig<S> {
    type Model = NormalizedBw<S>;

    type State = NormalizedBwConfig<S>;

    open spec fn state(&self) -> NormalizedBwConfig<S> {
        *self
    }

    open spec fn fresh(c: NormalizedBwConfig<S>) -> NormalizedBwState<S> {
        c.started::<S>()
    }

    fn model(&self) -> (m: NormalizedBw<S>) {
        self.duplicate().build()
    }

    fn duplicate(&self) -> (c: NormalizedBwConfig<S>) {
        NormalizedBwConfig {
            mean: self.mean,
            std_dev: self.std_dev,
            upper_bound: self.upper_bound,
            lower_bound: self.lower_bound,
            duration: self.duration,
            step: self.step,
            seed: self.seed,
            source: PhantomData,
        }
    }
}

impl<S: SampleSource> Forever for NormalizedBwConfig<S> {
    type Child = NormalizedBwConfig<S>;

    open spec fn repeated(c: NormalizedBwConfig<S>) -> Seq<NormalizedBwConfig<S>> {
        seq![c]
    }

    fn forever(self) -> (c: RepeatedBwPatternConfig<NormalizedBwConfig<S>>) {
        let c = RepeatedBwPatternConfig::new().pattern(vec![self]).count(0);
        assert(pattern_states(c.pattern@) =~= seq![self]);
        c
    }
}

/// What fixes every segment that a sawtooth still hands out.
pub struct SawtoothBwState<S: SampleSource> {
    /// The lowest rate of the waveform, in bits per second.
    pub bottom: nat,
    /// The highest rate of the waveform, in bits per second.
    pub top: nat,
    /// The span of one tooth, in nanoseconds.
    pub interval: nat,
    /// The share of a tooth in which the rate rises, in parts per billion.
    pub duty_ratio: nat,
    /// What is left of the whole span, in nanoseconds.
    pub duration: nat,
    /// The span of one segment, in nanoseconds.
    pub step: nat,
    /// The bound that no noise is above, in bits per second.
    pub upper_noise_bound: Option<nat>,
    /// The bound that no noise is below, in bits per second under zero.
    pub lower_noise_bound: Option<nat>,
    /// The place within the tooth, in nanoseconds.
    pub current: nat,
    /// The source of the noise.
    pub source: S::State,
}

/// The place within a tooth at which the rate stops rising and starts to
/// fall, rounded down to whole nanoseconds.
pub open spec fn change_point(interval: nat, duty_ratio: nat) -> nat {
    interval * duty_ratio / 1_000_000_000
}

/// The rate of the waveform at one place within a tooth, rounded to whole
/// bits per second in favour of the bottom while the rate rises and in favour
/// of the top while it falls.
///
/// Before the change point the rate rises in a straight line from the bottom
/// at the start of the tooth towards the top at the change point. From the
/// change point on it falls in a straight line from the top towards the
/// bottom at the end of the tooth.
pub open spec fn waveform(
    bottom: nat,
    top: nat,
    interval: nat,
    duty_ratio: nat,
    current: nat,
) -> nat {
    let turn = change_point(interval, duty_ratio);
    if current < turn {
        (bottom + (top - bottom) * current / (turn as int)) as nat
    } else {
        (top - (top - bottom) * (current - turn) / (interval - turn)) as nat
    }
}

/// A sample of noise held within its bounds: cut to the upper bound where it
/// is above it, then raised to the lower bound, which lies under zero, where
/// it is below it. A bound that is not set does not hold the noise.
pub open spec fn clamped_noise(sample: i128, upper: Option<nat>, lower: Option<nat>) -> int {
    let cut = match upper {
        Some(u) => if sample > u {
            u as int
        } else {
            sample as int
        },
        None => sample as int,
    };
    match lower {
        Some(l) => if cut < -l {
            -l
        } else {
            cut
        },
        None => cut,
    }
}

/// The rate with noise on it: nothing below zero, and nothing above
/// `u64::MAX`.
pub open spec fn noisy_rate(rate: nat, noise: int) -> nat {
    if rate + noise <= 0 {
        0
    } else if rate + noise >= u64::MAX {
        u64::MAX as nat
    } else {
        (rate + noise) as nat
    }
}

/// A share of a whole is never more than the whole.
proof fn lemma_share_within(whole: nat, part: nat, of: nat)
    requires
        part <= of,
        of > 0,
    ensures
        whole * part / of <= whole,
        whole * part <= whole * of,
{
    assert(whole * part <= whole * of) by (nonlinear_arith)
        requires
            part <= of,
    ;
    vstd::arithmetic::div_mod::lemma_div_is_ordered(
        (whole * part) as int,
        (whole * of) as int,
        of as int,
    );
    vstd::arithmetic::div_mod::lemma_div_multiples_vanish(whole as int, of as int);
    assert(whole * of == of * whole) by (nonlinear_arith);
}

/// The waveform stays between the bottom and the top.
pub proof fn lemma_waveform_within(
    bottom: nat,
    top: nat,
    interval: nat,
    duty_ratio: nat,
    current: nat,
)
    requires
        bottom <= top,
        current < interval,
    ensures
        bottom <= waveform(bottom, top, interval, duty_ratio, current) <= top,
{
    let turn = change_point(interval, duty_ratio);
    let span = (top - bottom) as nat;
    if current < turn {
        lemma_share_within(span, current, turn);
        assert(span * current / turn >= 0) by (nonlinear_arith)
            requires
                turn > 0,
        ;
    } else {
        lemma_share_within(span, (current - turn) as nat, (interval - turn) as nat);
        assert(span * ((current - turn) as nat) / ((interval - turn) as nat) >= 0)
            by (nonlinear_arith)
            requires
                interval - turn > 0,
        ;
    }
}

/// Rates along a sawtooth, with noise on them, each lasting one step, until a
/// whole span is used up.
///
/// The place within the tooth moves on by the span of each segment and wraps
/// at the end of the tooth. A sawtooth without a shape has ended from the
/// start: one whose bottom is above its top, whose tooth is empty, or whose
/// rise times its tooth is beyond `u128::MAX`. So has one with an empty step.
pub struct SawtoothBw<S: SampleSource> {
    pub bottom: Bandwidth,
    pub top: Bandwidth,
    pub interval: Duration,
    pub duty_ratio: Ratio,
    pub duration: Duration,
    pub step: Duration,
    pub seed: u64,
    pub std_dev: Bandwidth,
    pub upper_noise_bound: Option<Bandwidth>,
    pub lower_noise_bound: Option<Bandwidth>,
    current: Duration,
    source: S,
}

/// The blueprint of a [`SawtoothBw`] that draws its noise from the source
/// `S`.
///
/// Where they are not set, the bottom is 0, the top 12 Mbps, the tooth 1 s,
/// the share of the rise one half, the whole span 1 s, the step 1 ms, the
/// seed 42 and the standard deviation of the noise 0, and the noise has no
/// bounds.
pub struct SawtoothBwConfig<S: SampleSource> {
    pub bottom: Option<Bandwidth>,
    pub top: Option<Bandwidth>,
    pub interval: Option<Duration>,
    pub duty_ratio: Option<Ratio>,
    pub duration: Option<Duration>,
    pub step: Option<Duration>,
    pub seed: Option<u64>,
    pub std_dev: Option<Bandwidth>,
    pub upper_noise_bound: Option<Bandwidth>,
    pub lower_noise_bound: Option<Bandwidth>,
    pub source: PhantomData<S>,
}

impl<S: SampleSource> SawtoothBw<S> {
    /// Whether the waveform has a shape at the place where the sawtooth
    /// stands.
    pub open spec fn shaped(s: SawtoothBwState<S>) -> bool {
        &&& s.bottom <= s.top
        &&& s.current < s.interval
        &&& (s.top - s.bottom) * s.interval <= u128::MAX
    }

    /// Whether no segment is left.
    pub open spec fn ended(s: SawtoothBwState<S>) -> bool {
        s.duration == 0 || s.step == 0 || !Self::shaped(s)
    }

    /// The rate of the waveform where the sawtooth stands.
    fn base_rate(&self) -> (r: u128)
        requires
            Self::shaped(self.state()),
        ensures
            r == waveform(
                self.bottom@,
                self.top@,
                self.interval@,
                self.duty_ratio@,
                self.current@,
            ),
            self.bottom@ <= r <= self.top@,
    {
        proof {
            use_type_invariant(self.interval);
            use_type_invariant(self.duty_ratio);
            use_type_invariant(self.top);
            lemma_waveform_within(
                self.bottom@,
                self.top@,
                self.interval@,
                self.duty_ratio@,
                self.current@,
            );
        }
        let span: u128 = self.top.bps - self.bottom.bps;
        let interval: u128 = self.interval.nanos;
        let current: u128 = self.current.nanos;
        assert(interval * self.duty_ratio.ppb <= MAX_NANOS * 1_000_000_000) by (nonlinear_arith)
            requires
                interval <= MAX_NANOS,
                self.duty_ratio.ppb <= 1_000_000_000,
        ;
        let turn: u128 = interval * (self.duty_ratio.ppb as u128) / 1_000_000_000;
        if current < turn {
            proof {
                lemma_share_within(span as nat, current as nat, interval as nat);
                lemma_share_within(span as nat, current as nat, turn as nat);
            }
            self.bottom.bps + span * current / turn
        } else {
            proof {
                lemma_share_within(span as nat, (current - turn) as nat, interval as nat);
                lemma_share_within(span as nat, (current - turn) as nat, (interval - turn) as nat);
            }
            self.top.bps - span * (current - turn) / (interval - turn)
        }
    }
}

/// The bandwidth of a rate of the waveform with a sample of noise on it.
pub fn add_noise(
    rate: Bandwidth,
    sample: i128,
    upper: Option<Bandwidth>,
    lower: Option<Bandwidth>,
) -> (bw: Bandwidth)
    ensures
        bw@ == noisy_rate(rate@, clamped_noise(sample, rate_of(upper), rate_of(lower))),
{
    proof {
        use_type_invariant(rate);
    }
    let mut noise: i128 = sample;
    if let Some(u) = upper {
        proof {
            use_type_invariant(u);
        }
        if noise > u.bps as i128 {
            noise = u.bps as i128;
        }
    }
    if let Some(l) = lower {
        proof {
            use_type_invariant(l);
        }
        if noise < -(l.bps as i128) {
            noise = -(l.bps as i128);
        }
    }
    let base: i128 = rate.bps as i128;
    if noise <= -base {
        Bandwidth { bps: 0 }
    } else if noise >= u64::MAX as i128 - base {
        Bandwidth { bps: u64::MAX as u128 }
    } else {
        Bandwidth { bps: (base + noise) as u128 }
    }
}

impl<S: SampleSource> Trace for SawtoothBw<S> {
    type Segment = (Bandwidth, Duration);

    type State = SawtoothBwState<S>;

    closed spec fn state(&self) -> SawtoothBwState<S> {
        SawtoothBwState {
            bottom: self.bottom@,
            top: self.top@,
            interval: self.interval@,
            duty_ratio: self.duty_ratio@,
            duration: self.duration@,
            step: self.step@,
            upper_noise_bound: rate_of(self.upper_noise_bound),
            lower_noise_bound: rate_of(self.lower_noise_bound),
            current: self.current@,
            source: self.source.state(),
        }
    }

    open spec fn head(s: SawtoothBwState<S>) -> Option<(nat, nat)> {
        if Self::ended(s) {
            None
        } else {
            Some(
                (
                    noisy_rate(
                        waveform(s.bottom, s.top, s.interval, s.duty_ratio, s.current),
                        clamped_noise(
                            S::head(s.source),
                            s.upper_noise_bound,
                            s.lower_noise_bound,
                        ),
                    ),
                    next_span(s.step, s.duration),
                ),
            )
        }
    }

    open spec fn tail(s: SawtoothBwState<S>) -> SawtoothBwState<S> {
        if Self::ended(s) {
            s
        } else {
            SawtoothBwState {
                duration: (s.duration - next_span(s.step, s.duration)) as nat,
                current: (s.current + next_span(s.step, s.duration)) % s.interval,
                source: S::tail(s.source),
                ..s
            }
        }
    }

    proof fn lemma_stays_ended(s: SawtoothBwState<S>) {
    }

    fn next_segment(&mut self) -> (r: Option<(Bandwidth, Duration)>) {
        proof {
            use_type_invariant(self.interval);
            use_type_invariant(self.duration);
            use_type_invariant(self.top);
        }
        if self.duration.is_zero() || self.step.is_zero() || self.bottom.bps > self.top.bps
            || self.current.nanos >= self.interval.nanos {
            return None;
        }
        if (self.top.bps - self.bottom.bps).checked_mul(self.interval.nanos).is_none() {
            return None;
        }
        let base = Bandwidth { bps: self.base_rate() };
        let sample = self.source.next_sample();
        let bw = add_noise(base, sample, self.upper_noise_bound, self.lower_noise_bound);
        let span = self.step.min(self.duration);
        self.duration = Duration { nanos: self.duration.nanos - span.nanos };
        self.current = Duration { nanos: (self.current.nanos + span.nanos) % self.interval.nanos };
        Some((bw, span))
    }
}

impl<S: SampleSource> SawtoothBwConfig<S> {
    /// A blueprint with nothing set.
    pub fn new() -> (c: Self)
        ensures
            c == (SawtoothBwConfig::<S> {
                bottom: None,
                top: None,
                interval: None,
                duty_ratio: None,
                duration: None,
                step: None,
                seed: None,
                std_dev: None,
                upper_noise_bound: None,
                lower_noise_bound: None,
                source: PhantomData,
            }),
    {
        Self {
            bottom: None,
            top: None,
            interval: None,
            duty_ratio: None,
            duration: None,
            step: None,
            seed: None,
            std_dev: None,
            upper_noise_bound: None,
            lower_noise_bound: None,
            source: PhantomData,
        }
    }

    /// Sets the lowest rate of the waveform.
    pub fn bottom(self, bottom: Bandwidth) -> (c: Self)
        ensures
            c == (SawtoothBwConfig { bottom: Some(bottom), ..self }),
    {
        Self { bottom: Some(bottom), ..self }
    }

    /// Sets the highest rate of the waveform.
    pub fn top(self, top: Bandwidth) -> (c: Self)
        ensures
            c == (SawtoothBwConfig { top: Some(top), ..self }),
    {
        Self { top: Some(top), ..self }
    }

    /// Sets the span of one tooth.
    pub fn interval(self, interval: Duration) -> (c: Self)
        ensures
            c == (SawtoothBwConfig { interval: Some(interval), ..self }),
    {
        Self { interval: Some(interval), ..self }
    }

    /// Sets the share of a tooth in which the rate rises.
    pub fn duty_ratio(self, duty_ratio: Ratio) -> (c: Self)
        ensures
            c == (SawtoothBwConfig { duty_ratio: Some(duty_ratio), ..self }),
    {
        Self { duty_ratio: Some(duty_ratio), ..self }
    }

    /// Sets the whole span of the trace.
    pub fn duration(self, duration: Duration) -> (c: Self)
        ensures
            c == (SawtoothBwConfig { duration: Some(duration), ..self }),
    {
        Self { duration: Some(duration), ..self }
    }

    /// Sets the span of one segment.
    pub fn step(self, step: Duration) -> (c: Self)
        ensures
            c == (SawtoothBwConfig { step: Some(step), ..self }),
    {
        Self { step: Some(step), ..self }
    }

    /// Sets the seed of the source of the noise.
    pub fn seed(self, seed: u64) -> (c: Self)
        ensures
            c == (SawtoothBwConfig { seed: Some(seed), ..self }),
    {
        Self { seed: Some(seed), ..self }
    }

    /// Sets a seed that is picked at random.
    pub fn random_seed(self) -> (c: Self)
        ensures
            c.seed is Some,
            c == (SawtoothBwConfig { seed: c.seed, ..self }),
    {
        let seed = random_u64();
        Self { seed: Some(seed), ..self }
    }

    /// Sets the standard deviation of the noise.
    pub fn std_dev(self, std_dev: Bandwidth) -> (c: Self)
        ensures
            c == (SawtoothBwConfig { std_dev: Some(std_dev), ..self }),
    {
        Self { std_dev: Some(std_dev), ..self }
    }

    /// Sets the bound that no noise is above.
    pub fn upper_noise_bound(self, upper_noise_bound: Bandwidth) -> (c: Self)
        ensures
            c == (SawtoothBwConfig { upper_noise_bound: Some(upper_noise_bound), ..self }),
    {
        Self { upper_noise_bound: Some(upper_noise_bound), ..self }
    }

    /// Sets how far under zero the noise may go.
    pub fn lower_noise_bound(self, lower_noise_bound: Bandwidth) -> (c: Self)
        ensures
            c == (SawtoothBwConfig { lower_noise_bound: Some(lower_noise_bound), ..self }),
    {
        Self { lower_noise_bound: Some(lower_noise_bound), ..self }
    }

    /// Whether the bottom of the waveform is not above its top.
    pub open(crate) spec fn upright(self) -> bool {
        (match self.bottom {
            Some(b) => b@,
            None => 0,
        }) <= (match self.top {
            Some(b) => b@,
            None => 12_000_000,
        })
    }

    /// The state in which a generator made from the blueprint with the
    /// source `R` starts: at the start of a tooth.
    pub open(crate) spec fn started<R: SampleSource>(self) -> SawtoothBwState<R> {
        SawtoothBwState {
            bottom: match self.bottom {
                Some(b) => b@,
                None => 0,
            },
            top: match self.top {
                Some(b) => b@,
                None => 12_000_000,
            },
            interval: match self.interval {
                Some(d) => d@,
                None => 1_000_000_000,
            },
            duty_ratio: match self.duty_ratio {
                Some(r) => r@,
                None => 500_000_000,
            },
            duration: match self.duration {
                Some(d) => d@,
                None => 1_000_000_000,
            },
            step: match self.step {
                Some(d) => d@,
                None => 1_000_000,
            },
            upper_noise_bound: rate_of(self.upper_noise_bound),
            lower_noise_bound: rate_of(self.lower_noise_bound),
            current: 0,
            source: R::seeded_state(
                0,
                seed_rate(
                    match self.std_dev {
                        Some(b) => b,
                        None => Bandwidth::zero(),
                    },
                ),
                match self.seed {
                    Some(seed) => seed,
                    None => DEFAULT_RNG_SEED,
                },
            ),
        }
    }

    /// Makes the generator, with the source of the blueprint. The bottom of
    /// the waveform must not be above its top.
    pub fn build(self) -> (m: SawtoothBw<S>)
        requires
            self.upright(),
        ensures
            m.state() == self.started::<S>(),
    {
        self.assemble::<S>()
    }

    /// Makes the generator, with the source `R`. The bottom of the waveform
    /// must not be above its top.
    pub fn build_with_rng<R: SampleSource>(self) -> (m: SawtoothBw<R>)
        requires
            self.upright(),
        ensures
            m.state() == self.started::<R>(),
    {
        self.assemble::<R>()
    }

    /// Puts the generator together, whatever its shape.
    fn assemble<R: SampleSource>(self) -> (m: SawtoothBw<R>)
        ensures
            m.state() == self.started::<R>(),
    {
        let std_dev = match self.std_dev {
            Some(b) => b,
            None => Bandwidth::from_mbps(0),
        };
        let seed = match self.seed {
            Some(seed) => seed,
            None => DEFAULT_RNG_SEED,
        };
        let source = R::seeded(0, std_dev.saturating_as_bps_u64() as u128, seed);
        SawtoothBw {
            bottom: match self.bottom {
                Some(b) => b,
                None => Bandwidth::from_mbps(0),
            },
            top: match self.top {
                Some(b) => b,
                None => Bandwidth::from_mbps(12),
            },
            interval: match self.interval {
                Some(d) => d,
                None => Duration::from_secs(1),
            },
            duty_ratio: match self.duty_ratio {
                Some(r) => r,
                None => Ratio { ppb: 500_000_000 },
            },
            duration: match self.duration {
                Some(d) => d,
                None => Duration::from_secs(1),
            },
            step: match self.step {
                Some(d) => d,
                None => Duration::from_millis(1),
            },
            seed,
            std_dev,
            upper_noise_bound: self.upper_noise_bound,
            lower_noise_bound: self.lower_noise_bound,
            current: Duration::zero(),
            source,
        }
    }
}

impl<S: SampleSource> TraceConfig for SawtoothBwConfig<S> {
    type Model = SawtoothBw<S>;

    type State = SawtoothBwConfig<S>;

    open spec fn state(&self) -> SawtoothBwConfig<S> {
        *self
    }

    open spec fn fresh(c: SawtoothBwConfig<S>) -> SawtoothBwState<S> {
        c.started::<S>()
    }

    fn model(&self) -> (m: SawtoothBw<S>) {
        self.duplicate().assemble::<S>()
    }

    fn duplicate(&self) -> (c: SawtoothBwConfig<S>) {
        SawtoothBwConfig {
            bottom: self.bottom,
            top: self.top,
            interval: self.interval,
            duty_ratio: self.duty_ratio,
            duration: self.duration,
            step: self.step,
            seed: self.seed,
            std_dev: self.std_dev,
            upper_noise_bound: self.upper_noise_bound,
            lower_noise_bound: self.lower_noise_bound,
            source: PhantomData,
        }
    }
}

impl<S: SampleSource> Forever for SawtoothBwConfig<S> {
    type Child = SawtoothBwConfig<S>;

    open spec fn repeated(c: SawtoothBwConfig<S>) -> Seq<SawtoothBwConfig<S>> {
        seq![c]
    }

    fn forever(self) -> (c: RepeatedBwPatternConfig<SawtoothBwConfig<S>>) {
        let c = RepeatedBwPatternConfig::new().pattern(vec![self]).count(0);
        assert(pattern_states(c.pattern@) =~= seq![self]);
        c
    }
}

/// How long a bandwidth segment lasts, in nanoseconds.
pub open spec fn segment_span(segment: (nat, nat)) -> nat {
    segment.1
}

/// A static bandwidth whose span is set and not empty hands out one segment
/// that lasts the whole span, and has then ended.
pub proof fn lemma_static_spans(s: StaticBw)
    requires
        s.duration is Some,
        s.duration->0@ > 0,
    ensures
        total_span::<StaticBw>(s, 1, |x: (nat, nat)| segment_span(x)) == s.duration->0@,
        nth_segment::<StaticBw>(s, 1) is None,
{
    let span = |x: (nat, nat)| segment_span(x);
    assert(total_span::<StaticBw>(StaticBw::tail(s), 0, span) == 0);
    assert(state_after::<StaticBw>(s, 1) == state_after::<StaticBw>(StaticBw::tail(s), 0));
}

/// The segments of a normalized bandwidth with a step that is not empty last
/// the whole span together: after some number of them the generator has
/// ended, and their spans add up to the span that was left.
pub proof fn lemma_normalized_spans<S: SampleSource>(s: NormalizedBwState<S>) -> (n: nat)
    requires
        s.step > 0,
    ensures
        total_span::<NormalizedBw<S>>(s, n, |x: (nat, nat)| segment_span(x)) == s.duration,
        nth_segment::<NormalizedBw<S>>(s, n) is None,
    decreases s.duration,
{
    let span = |x: (nat, nat)| segment_span(x);
    if s.duration == 0 {
        0
    } else {
        let rest = lemma_normalized_spans::<S>(NormalizedBw::<S>::tail(s));
        assert(state_after::<NormalizedBw<S>>(s, rest + 1) == state_after::<NormalizedBw<S>>(
            NormalizedBw::<S>::tail(s),
            rest,
        ));
        assert(total_span::<NormalizedBw<S>>(s, rest + 1, span) == span(
            NormalizedBw::<S>::head(s)->0,
        ) + total_span::<NormalizedBw<S>>(NormalizedBw::<S>::tail(s), rest, span));
        rest + 1
    }
}

/// Every rate that a normalized bandwidth hands out lies within its bounds,
/// where both are set and the lower one is not above the upper one.
pub proof fn lemma_normalized_within_bounds<S: SampleSource>(s: NormalizedBwState<S>, n: nat)
    requires
        s.lower_bound is Some,
        s.upper_bound is Some,
        s.lower_bound->0 <= s.upper_bound->0,
    ensures
        nth_segment::<NormalizedBw<S>>(s, n) matches Some(segment) ==> s.lower_bound->0
            <= segment.0 <= s.upper_bound->0,
    decreases n,
{
    if n > 0 {
        lemma_normalized_within_bounds::<S>(NormalizedBw::<S>::tail(s), (n - 1) as nat);
    }
}

/// The segments of a sawtooth with a shape and a step that is not empty last
/// the whole span together: after some number of them the generator has
/// ended, and their spans add up to the span that was left.
pub proof fn lemma_sawtooth_spans<S: SampleSource>(s: SawtoothBwState<S>) -> (n: nat)
    requires
        s.step > 0,
        SawtoothBw::<S>::shaped(s),
    ensures
        total_span::<SawtoothBw<S>>(s, n, |x: (nat, nat)| segment_span(x)) == s.duration,
        nth_segment::<SawtoothBw<S>>(s, n) is None,
    decreases s.duration,
{
    let span = |x: (nat, nat)| segment_span(x);
    if s.duration == 0 {
        0
    } else {
        let next = SawtoothBw::<S>::tail(s);
        assert(next.current < next.interval) by (nonlinear_arith)
            requires
                next.interval == s.interval,
                s.interval > 0,
                next.current == (s.current + next_span(s.step, s.duration)) % s.interval,
        ;
        let rest = lemma_sawtooth_spans::<S>(next);
        assert(state_after::<SawtoothBw<S>>(s, rest + 1) == state_after::<SawtoothBw<S>>(
            next,
            rest,
        ));
        assert(total_span::<SawtoothBw<S>>(s, rest + 1, span) == span(
            SawtoothBw::<S>::head(s)->0,
        ) + total_span::<SawtoothBw<S>>(next, rest, span));
        rest + 1
    }
}

/// Without noise, every rate that a sawtooth hands out lies between its
/// bottom and its top.
pub proof fn lemma_sawtooth_within<S: SampleSource>(s: SawtoothBwState<S>)
    requires
        S::head(s.source) == 0,
        s.top <= u64::MAX,
    ensures
        SawtoothBw::<S>::head(s) matches Some(segment) ==> s.bottom <= segment.0 <= s.top,
{
    if !SawtoothBw::<S>::ended(s) {
        lemma_waveform_within(s.bottom, s.top, s.interval, s.duty_ratio, s.current);
    }
}

/// What a repeated pattern hands out first, a repeated bandwidth pattern
/// hands out first; and where the one has ended behind it, so has the other.
pub proof fn lemma_repeated_as_produced<C: TraceConfig>(
    s: RepeatedState<C>,
    out: Seq<Emitted<C>>,
    ends: bool,
)
    requires
        produces(s, out, ends),
    ensures
        starts_with::<RepeatedBwPattern<C>>(s, out),
        ends ==> emits::<RepeatedBwPattern<C>>(s, out),
    decreases out.len(),
{
    if out.len() > 0 {
        lemma_repeated_as_produced::<C>(step(s).0, out.skip(1), ends);
    }
}

/// A repeated bandwidth pattern with a count of `n` above zero hands out
/// what one walk over its children hands out, `n` times in a row, and has
/// then ended.
///
/// `traces` holds for each child what a generator made from its blueprint
/// hands out before it ends.
pub proof fn lemma_repeated_count_times<C: TraceConfig>(
    pattern: Seq<C::State>,
    traces: Seq<Seq<Emitted<C>>>,
    n: nat,
)
    requires
        traced::<C>(pattern, traces),
        pattern.len() > 0,
        n > 0,
    ensures
        emits::<RepeatedBwPattern<C>>(
            start::<C>(pattern, n),
            cycles(walked(traces, 0, traces.len()), n),
        ),
{
    lemma_repeats_count_times::<C>(pattern, traces, n);
    lemma_repeated_as_produced::<C>(
        start::<C>(pattern, n),
        cycles(walked(traces, 0, traces.len()), n),
        true,
    );
}

/// A repeated bandwidth pattern without end hands out what one walk over its
/// children hands out, again and again: as many times in a row as one likes.
/// Where a walk hands out anything, the pattern never ends.
pub proof fn lemma_repeated_without_end<C: TraceConfig>(
    pattern: Seq<C::State>,
    traces: Seq<Seq<Emitted<C>>>,
    n: nat,
)
    requires
        traced::<C>(pattern, traces),
        pattern.len() > 0,
    ensures
        starts_with::<RepeatedBwPattern<C>>(
            start::<C>(pattern, 0),
            cycles(walked(traces, 0, traces.len()), n),
        ),
        walked(traces, 0, traces.len()).len() > 0 ==> cycles(
            walked(traces, 0, traces.len()),
            n,
        ).len() >= n,
{
    lemma_repeats_without_end::<C>(pattern, traces, n);
    lemma_repeated_as_produced::<C>(
        start::<C>(pattern, 0),
        cycles(walked(traces, 0, traces.len()), n),
        false,
    );
    lemma_cycles_len(walked(traces, 0, traces.len()), n);
}

} // verus!
