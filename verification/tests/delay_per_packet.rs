use netem_trace::model::delay_per_packet::{clamp_sample, Forever};
use netem_trace::model::{
    DelayPerPacketTraceConfig, LogNormalizedDelayPerPacketConfig, NormalizedDelayPerPacketConfig,
    RepeatedDelayPerPacketPatternConfig, StaticDelayPerPacketConfig,
};
use netem_trace::{Delay, DelayPerPacketTrace, Noiseless, SampleSource};
use rand::rngs::StdRng;
use rand::SeedableRng;
use rand_distr::{Distribution, LogNormal, Normal};

/// The nanoseconds of a number of seconds, as `std` rounds them.
fn nanos_of(secs: f64) -> i128 {
    std::time::Duration::from_secs_f64(secs.max(0.0)).as_nanos() as i128
}

/// Seconds of a normal distribution, drawn with the standard generator.
#[derive(Clone)]
struct NormalSecs {
    rng: StdRng,
    normal: Normal<f64>,
}

impl SampleSource for NormalSecs {
    type State = NormalSecs;

    fn state(&self) -> NormalSecs {
        self.clone()
    }

    fn seeded_state(mean: u128, std_dev: u128, seed: u64) -> NormalSecs {
        NormalSecs::seeded(mean, std_dev, seed)
    }

    fn head(mut s: NormalSecs) -> i128 {
        s.next_sample()
    }

    fn tail(mut s: NormalSecs) -> NormalSecs {
        s.next_sample();
        s
    }

    fn seeded(mean: u128, std_dev: u128, seed: u64) -> Self {
        NormalSecs {
            rng: StdRng::seed_from_u64(seed),
            normal: Normal::new(mean as f64 / 1e9, std_dev as f64 / 1e9).unwrap(),
        }
    }

    fn next_sample(&mut self) -> i128 {
        nanos_of(self.normal.sample(&mut self.rng))
    }
}

/// Seconds of the log-normal distribution with a given mean and deviation,
/// drawn with the standard generator.
#[derive(Clone)]
struct LogNormalSecs {
    rng: StdRng,
    log_normal: LogNormal<f64>,
}

impl SampleSource for LogNormalSecs {
    type State = LogNormalSecs;

    fn state(&self) -> LogNormalSecs {
        self.clone()
    }

    fn seeded_state(mean: u128, std_dev: u128, seed: u64) -> LogNormalSecs {
        LogNormalSecs::seeded(mean, std_dev, seed)
    }

    fn head(mut s: LogNormalSecs) -> i128 {
        s.next_sample()
    }

    fn tail(mut s: LogNormalSecs) -> LogNormalSecs {
        s.next_sample();
        s
    }

    fn seeded(mean: u128, std_dev: u128, seed: u64) -> Self {
        let delay_mean = mean as f64 / 1e9;
        let delay_std_dev = std_dev as f64 / 1e9;
        let normal_std_dev = f64::sqrt(f64::ln(
            1.0 + (delay_std_dev.powi(2)) / (delay_mean.powi(2)),
        ));
        let normal_mean = f64::ln(delay_mean) - normal_std_dev.powi(2) / 2.;
        LogNormalSecs {
            rng: StdRng::seed_from_u64(seed),
            log_normal: LogNormal::new(normal_mean, normal_std_dev).unwrap(),
        }
    }

    fn next_sample(&mut self) -> i128 {
        nanos_of(self.log_normal.sample(&mut self.rng))
    }
}

#[test]
fn delay_per_packet_test_static_delay_model() {
    let mut static_delay = StaticDelayPerPacketConfig::new()
        .delay(Delay::from_millis(10))
        .count(1)
        .build();
    assert_eq!(static_delay.next_delay(), Some(Delay::from_millis(10)));
    assert_eq!(static_delay.next_delay(), None);
}

#[test]
fn static_delay_per_packet_counts() {
    let mut static_delay = StaticDelayPerPacketConfig::new()
        .delay(Delay::from_millis(10))
        .count(2)
        .build();
    assert_eq!(static_delay.next_delay(), Some(Delay::from_millis(10)));
    assert_eq!(static_delay.next_delay(), Some(Delay::from_millis(10)));
    assert_eq!(static_delay.next_delay(), None);
    assert_eq!(static_delay.next_delay(), None);
}

#[test]
fn static_delay_per_packet_without_end() {
    let mut static_delay = StaticDelayPerPacketConfig::new().build();
    for _ in 0..100 {
        assert_eq!(static_delay.next_delay(), Some(Delay::from_millis(10)));
    }
}

#[test]
fn repeated_delay_per_packet() {
    let pattern = vec![
        StaticDelayPerPacketConfig::new()
            .delay(Delay::from_millis(10))
            .count(1),
        StaticDelayPerPacketConfig::new()
            .delay(Delay::from_millis(20))
            .count(1),
    ];
    let mut model = RepeatedDelayPerPacketPatternConfig::new()
        .pattern(pattern)
        .count(2)
        .into_model();
    assert_eq!(model.next_delay(), Some(Delay::from_millis(10)));
    assert_eq!(model.next_delay(), Some(Delay::from_millis(20)));
    assert_eq!(model.next_delay(), Some(Delay::from_millis(10)));
    assert_eq!(model.next_delay(), Some(Delay::from_millis(20)));
    assert_eq!(model.next_delay(), None);
    assert_eq!(model.next_delay(), None);
}

#[test]
fn normalized_delay_per_packet() {
    let mut normal_delay = NormalizedDelayPerPacketConfig::<NormalSecs>::new()
        .mean(Delay::from_millis(12))
        .std_dev(Delay::from_millis(1))
        .count(2)
        .seed(42)
        .build();
    assert_eq!(normal_delay.next_delay(), Some(Delay::from_nanos(12069428)));
    assert_eq!(normal_delay.next_delay(), Some(Delay::from_nanos(12132938)));
    assert_eq!(normal_delay.next_delay(), None);
    assert_eq!(normal_delay.next_delay(), None);
}

#[test]
fn normalized_delay_per_packet_within_bounds() {
    let mut normal_delay = NormalizedDelayPerPacketConfig::<NormalSecs>::new()
        .mean(Delay::from_millis(12))
        .std_dev(Delay::from_millis(1))
        .count(2)
        .seed(42)
        .upper_bound(Delay::from_micros(12100))
        .lower_bound(Delay::from_micros(11900))
        .build();
    assert_eq!(normal_delay.next_delay(), Some(Delay::from_nanos(12069428)));
    assert_eq!(normal_delay.next_delay(), Some(Delay::from_nanos(12100000)));
    assert_eq!(normal_delay.next_delay(), None);
}

#[test]
fn normalized_delay_per_packet_defaults() {
    let mut normal_delay = NormalizedDelayPerPacketConfig::<Noiseless>::new().build();
    for _ in 0..50 {
        assert_eq!(normal_delay.next_delay(), Some(Delay::from_millis(10)));
    }
}

#[test]
fn normalized_delay_per_packet_forever() {
    let mut model = NormalizedDelayPerPacketConfig::<NormalSecs>::new()
        .mean(Delay::from_millis(12))
        .std_dev(Delay::from_millis(1))
        .count(2)
        .seed(42)
        .forever()
        .build();
    for _ in 0..5 {
        assert_eq!(model.next_delay(), Some(Delay::from_nanos(12069428)));
        assert_eq!(model.next_delay(), Some(Delay::from_nanos(12132938)));
    }
}

#[test]
fn log_normalized_delay_per_packet() {
    let mut log_normal_delay = LogNormalizedDelayPerPacketConfig::<LogNormalSecs>::new()
        .mean(Delay::from_millis(12))
        .std_dev(Delay::from_millis(1))
        .count(2)
        .seed(42)
        .build();
    assert_eq!(
        log_normal_delay.next_delay(),
        Some(Delay::from_nanos(12027817))
    );
    assert_eq!(
        log_normal_delay.next_delay(),
        Some(Delay::from_nanos(12091533))
    );
    assert_eq!(log_normal_delay.next_delay(), None);
}

#[test]
fn log_normalized_delay_per_packet_within_bounds() {
    let mut log_normal_delay = LogNormalizedDelayPerPacketConfig::<LogNormalSecs>::new()
        .mean(Delay::from_millis(12))
        .std_dev(Delay::from_millis(1))
        .count(3)
        .seed(42)
        .upper_bound(Delay::from_micros(12100))
        .lower_bound(Delay::from_micros(11900))
        .build();
    assert_eq!(
        log_normal_delay.next_delay(),
        Some(Delay::from_nanos(12027817))
    );
    assert_eq!(
        log_normal_delay.next_delay(),
        Some(Delay::from_nanos(12091533))
    );
    assert_eq!(
        log_normal_delay.next_delay(),
        Some(Delay::from_nanos(12100000))
    );
    assert_eq!(log_normal_delay.next_delay(), None);
}

#[test]
fn clamp_delay_values() {
    let lower = Delay::from_nanos(100);
    let upper = Some(Delay::from_nanos(200));
    assert_eq!(clamp_sample(150, lower, upper), Delay::from_nanos(150));
    assert_eq!(clamp_sample(99, lower, upper), Delay::from_nanos(100));
    assert_eq!(clamp_sample(201, lower, upper), Delay::from_nanos(200));
    assert_eq!(clamp_sample(-1, Delay::zero(), None), Delay::zero());
    assert_eq!(clamp_sample(i128::MAX, lower, None), Delay::max_value());
    // a lower bound above the upper one gives way to the upper one
    assert_eq!(
        clamp_sample(150, Delay::from_nanos(300), upper),
        Delay::from_nanos(200)
    );
}

#[test]
fn random_seed_of_delays() {
    let config = NormalizedDelayPerPacketConfig::<NormalSecs>::new()
        .count(5)
        .random_seed();
    assert!(config.seed.is_some());
    assert_eq!(config.count, 5);
    assert_eq!(config.mean, None);
    let config = LogNormalizedDelayPerPacketConfig::<LogNormalSecs>::new()
        .mean(Delay::from_millis(3))
        .random_seed();
    assert!(config.seed.is_some());
    assert_eq!(config.mean, Some(Delay::from_millis(3)));
}
