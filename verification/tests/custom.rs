use netem_trace::model::RepeatedBwPatternConfig;
use netem_trace::trace::Emission;
use netem_trace::{Bandwidth, BwTrace, Duration, Mahimahi, Trace, TraceConfig};

/// A generator of one's own: rates that count down to zero, one second each.
/// Nothing is proved of it, and nothing calls what it says of its state.
struct Countdown {
    left: u64,
}

impl Trace for Countdown {
    type Segment = (Bandwidth, Duration);

    type State = u64;

    fn state(&self) -> u64 {
        self.left
    }

    fn head(_s: u64) -> Option<Emission<Self>> {
        None
    }

    fn tail(s: u64) -> u64 {
        s.saturating_sub(1)
    }

    fn lemma_stays_ended(_s: u64) {}

    fn next_segment(&mut self) -> Option<(Bandwidth, Duration)> {
        if self.left == 0 {
            None
        } else {
            self.left -= 1;
            Some((Bandwidth::from_mbps(self.left + 1), Duration::from_secs(1)))
        }
    }
}

/// The blueprint of a countdown.
struct CountdownConfig {
    from: u64,
}

impl TraceConfig for CountdownConfig {
    type Model = Countdown;

    type State = u64;

    fn state(&self) -> u64 {
        self.from
    }

    fn fresh(c: u64) -> u64 {
        c
    }

    fn model(&self) -> Countdown {
        Countdown { left: self.from }
    }

    fn duplicate(&self) -> CountdownConfig {
        CountdownConfig { from: self.from }
    }
}

#[test]
fn a_generator_of_ones_own() {
    let mut countdown = Countdown { left: 2 };
    assert_eq!(
        countdown.next_bw(),
        Some((Bandwidth::from_mbps(2), Duration::from_secs(1)))
    );
    assert_eq!(
        countdown.next_bw(),
        Some((Bandwidth::from_mbps(1), Duration::from_secs(1)))
    );
    assert_eq!(countdown.next_bw(), None);
    assert_eq!(countdown.next_bw(), None);
}

#[test]
fn a_generator_of_ones_own_repeated() {
    let mut model = RepeatedBwPatternConfig::new()
        .pattern(vec![CountdownConfig { from: 2 }, CountdownConfig { from: 1 }])
        .count(2)
        .build();
    let mut rates = vec![];
    while let Some((bw, span)) = model.next_bw() {
        assert_eq!(span, Duration::from_secs(1));
        rates.push(bw.as_bps() / 1_000_000);
    }
    assert_eq!(rates, vec![2, 1, 1, 2, 1, 1]);
}

#[test]
fn a_generator_of_ones_own_exported() {
    let mut countdown = Countdown { left: 3 };
    // 3 Mbps is a quarter of a packet in each millisecond
    assert_eq!(countdown.mahimahi(&Duration::from_millis(9)), vec![4, 8]);
}
