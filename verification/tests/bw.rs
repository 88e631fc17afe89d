use netem_trace::model::bw::{add_noise, clamp_sample, Forever};
use netem_trace::model::{
    BwTraceConfig, NormalizedBwConfig, RepeatedBwPatternConfig, SawtoothBwConfig, StaticBwConfig,
    TraceBwConfig,
};
use netem_trace::{Bandwidth, BwTrace, Duration, Noiseless, Ratio, SampleSource, TraceConfig};
use rand::rngs::StdRng;
use rand::SeedableRng;
use rand_distr::{Distribution, Normal};

/// Samples of a normal distribution, drawn with the standard generator.
#[derive(Clone)]
struct StdNormal {
    rng: StdRng,
    normal: Normal<f64>,
}

impl SampleSource for StdNormal {
    type State = StdNormal;

    fn state(&self) -> StdNormal {
        self.clone()
    }

    fn seeded_state(mean: u128, std_dev: u128, seed: u64) -> StdNormal {
        StdNormal::seeded(mean, std_dev, seed)
    }

    fn head(mut s: StdNormal) -> i128 {
        s.next_sample()
    }

    fn tail(mut s: StdNormal) -> StdNormal {
        s.next_sample();
        s
    }

    fn seeded(mean: u128, std_dev: u128, seed: u64) -> Self {
        StdNormal {
            rng: StdRng::seed_from_u64(seed),
            normal: Normal::new(mean as f64, std_dev as f64).unwrap(),
        }
    }

    fn next_sample(&mut self) -> i128 {
        self.normal.sample(&mut self.rng).floor() as i128
    }
}

#[test]
fn test_static_bw_model() {
    let mut static_bw = StaticBwConfig::new()
        .bw(Bandwidth::from_mbps(24))
        .duration(Duration::from_secs(1))
        .build();
    assert_eq!(
        static_bw.next_bw(),
        Some((Bandwidth::from_mbps(24), Duration::from_secs(1)))
    );
}

#[test]
fn test_normalized_bw_model() {
    let mut normal_bw = NormalizedBwConfig::<StdNormal>::new()
        .mean(Bandwidth::from_mbps(12))
        .std_dev(Bandwidth::from_mbps(1))
        .duration(Duration::from_secs(1))
        .step(Duration::from_millis(100))
        .seed(42)
        .build();
    assert_eq!(
        normal_bw.next_bw(),
        Some((Bandwidth::from_bps(12069427), Duration::from_millis(100)))
    );
    assert_eq!(
        normal_bw.next_bw(),
        Some((Bandwidth::from_bps(12132938), Duration::from_millis(100)))
    );
    let mut normal_bw = NormalizedBwConfig::<StdNormal>::new()
        .mean(Bandwidth::from_mbps(12))
        .std_dev(Bandwidth::from_mbps(1))
        .duration(Duration::from_secs(1))
        .step(Duration::from_millis(100))
        .seed(42)
        .upper_bound(Bandwidth::from_kbps(12100))
        .lower_bound(Bandwidth::from_kbps(11900))
        .build();
    assert_eq!(
        normal_bw.next_bw(),
        Some((Bandwidth::from_bps(12069427), Duration::from_millis(100)))
    );
    assert_eq!(
        normal_bw.next_bw(),
        Some((Bandwidth::from_bps(12100000), Duration::from_millis(100)))
    );
}

#[test]
fn test_sawtooth_bw_model() {
    let mut sawtooth_bw = SawtoothBwConfig::<Noiseless>::new()
        .bottom(Bandwidth::from_mbps(12))
        .top(Bandwidth::from_mbps(16))
        .duration(Duration::from_secs(1))
        .step(Duration::from_millis(100))
        .interval(Duration::from_millis(500))
        .duty_ratio(Ratio::from_ppb(800_000_000).unwrap())
        .build();
    assert_eq!(
        sawtooth_bw.next_bw(),
        Some((Bandwidth::from_mbps(12), Duration::from_millis(100)))
    );
    assert_eq!(
        sawtooth_bw.next_bw(),
        Some((Bandwidth::from_mbps(13), Duration::from_millis(100)))
    );
    assert_eq!(
        sawtooth_bw.next_bw(),
        Some((Bandwidth::from_mbps(14), Duration::from_millis(100)))
    );
    assert_eq!(
        sawtooth_bw.next_bw(),
        Some((Bandwidth::from_mbps(15), Duration::from_millis(100)))
    );
    assert_eq!(
        sawtooth_bw.next_bw(),
        Some((Bandwidth::from_mbps(16), Duration::from_millis(100)))
    );
    assert_eq!(
        sawtooth_bw.next_bw(),
        Some((Bandwidth::from_mbps(12), Duration::from_millis(100)))
    );
    assert_eq!(
        sawtooth_bw.next_bw(),
        Some((Bandwidth::from_mbps(13), Duration::from_millis(100)))
    );
    assert_eq!(
        sawtooth_bw.next_bw(),
        Some((Bandwidth::from_mbps(14), Duration::from_millis(100)))
    );
    assert_eq!(
        sawtooth_bw.next_bw(),
        Some((Bandwidth::from_mbps(15), Duration::from_millis(100)))
    );
    let mut sawtooth_bw = SawtoothBwConfig::<StdNormal>::new()
        .bottom(Bandwidth::from_mbps(12))
        .top(Bandwidth::from_mbps(16))
        .duration(Duration::from_secs(1))
        .step(Duration::from_millis(100))
        .interval(Duration::from_millis(500))
        .duty_ratio(Ratio::from_ppb(800_000_000).unwrap())
        .std_dev(Bandwidth::from_mbps(5))
        .upper_noise_bound(Bandwidth::from_mbps(1))
        .lower_noise_bound(Bandwidth::from_kbps(500))
        .build();
    assert_eq!(
        sawtooth_bw.next_bw(),
        Some((Bandwidth::from_bps(12347139), Duration::from_millis(100)))
    );
    assert_eq!(
        sawtooth_bw.next_bw(),
        Some((Bandwidth::from_bps(13664690), Duration::from_millis(100)))
    );
    assert_eq!(
        sawtooth_bw.next_bw(),
        Some((Bandwidth::from_mbps(15), Duration::from_millis(100)))
    );
    assert_eq!(
        sawtooth_bw.next_bw(),
        Some((Bandwidth::from_bps(14500000), Duration::from_millis(100)))
    );
}

#[test]
fn test_forever() {
    let mut normal_bw = NormalizedBwConfig::<StdNormal>::new()
        .mean(Bandwidth::from_mbps(12))
        .std_dev(Bandwidth::from_mbps(1))
        .duration(Duration::from_millis(200))
        .step(Duration::from_millis(100))
        .seed(42)
        .build();
    assert_eq!(
        normal_bw.next_bw(),
        Some((Bandwidth::from_bps(12069427), Duration::from_millis(100)))
    );
    assert_eq!(
        normal_bw.next_bw(),
        Some((Bandwidth::from_bps(12132938), Duration::from_millis(100)))
    );
    assert_eq!(normal_bw.next_bw(), None);
    let normal_bw_config = NormalizedBwConfig::<StdNormal>::new()
        .mean(Bandwidth::from_mbps(12))
        .std_dev(Bandwidth::from_mbps(1))
        .duration(Duration::from_millis(200))
        .step(Duration::from_millis(100))
        .seed(42);
    let normal_bw_repeated = normal_bw_config.forever();
    let mut model = normal_bw_repeated.into_model();
    assert_eq!(
        model.next_bw(),
        Some((Bandwidth::from_bps(12069427), Duration::from_millis(100)))
    );
    assert_eq!(
        model.next_bw(),
        Some((Bandwidth::from_bps(12132938), Duration::from_millis(100)))
    );
    assert_eq!(
        model.next_bw(),
        Some((Bandwidth::from_bps(12069427), Duration::from_millis(100)))
    );
    assert_eq!(
        model.next_bw(),
        Some((Bandwidth::from_bps(12132938), Duration::from_millis(100)))
    );
}

#[test]
fn static_bw_ends_for_good() {
    let mut static_bw = StaticBwConfig::new()
        .bw(Bandwidth::from_mbps(24))
        .duration(Duration::from_secs(1))
        .build();
    assert_eq!(
        static_bw.next_bw(),
        Some((Bandwidth::from_mbps(24), Duration::from_secs(1)))
    );
    for _ in 0..5 {
        assert_eq!(static_bw.next_bw(), None);
    }
}

#[test]
fn static_bw_defaults() {
    let mut static_bw = StaticBwConfig::new().build();
    assert_eq!(
        static_bw.next_bw(),
        Some((Bandwidth::from_mbps(12), Duration::from_secs(1)))
    );
    assert_eq!(static_bw.next_bw(), None);
}

#[test]
fn static_bw_without_span_hands_out_nothing() {
    let mut static_bw = StaticBwConfig::new()
        .bw(Bandwidth::from_mbps(24))
        .duration(Duration::zero())
        .build();
    assert_eq!(static_bw.next_bw(), None);
    assert_eq!(static_bw.next_bw(), None);
}

#[test]
fn trace_bw_replays_groups() {
    let mut tracebw = TraceBwConfig::new()
        .pattern(vec![
            (
                Duration::from_millis(1),
                vec![Bandwidth::from_mbps(2), Bandwidth::from_mbps(4)],
            ),
            (Duration::from_millis(2), vec![Bandwidth::from_mbps(1)]),
        ])
        .build();
    assert_eq!(
        tracebw.next_bw(),
        Some((Bandwidth::from_mbps(2), Duration::from_millis(1)))
    );
    assert_eq!(
        tracebw.next_bw(),
        Some((Bandwidth::from_mbps(4), Duration::from_millis(1)))
    );
    assert_eq!(
        tracebw.next_bw(),
        Some((Bandwidth::from_mbps(1), Duration::from_millis(2)))
    );
    assert_eq!(tracebw.next_bw(), None);
    assert_eq!(tracebw.next_bw(), None);
    assert_eq!(tracebw.next_bw(), None);
}

#[test]
fn trace_bw_leaves_out_empty_groups() {
    let mut tracebw = TraceBwConfig::new()
        .pattern(vec![
            (Duration::from_millis(7), vec![]),
            (Duration::from_millis(1), vec![Bandwidth::from_mbps(2)]),
            (Duration::from_millis(8), vec![]),
            (Duration::from_millis(2), vec![Bandwidth::from_mbps(1)]),
        ])
        .build();
    assert_eq!(tracebw.pattern.len(), 2);
    assert_eq!(
        tracebw.next_bw(),
        Some((Bandwidth::from_mbps(2), Duration::from_millis(1)))
    );
    assert_eq!(
        tracebw.next_bw(),
        Some((Bandwidth::from_mbps(1), Duration::from_millis(2)))
    );
    assert_eq!(tracebw.next_bw(), None);
}

#[test]
fn trace_bw_forever_goes_around() {
    let mut repeated = TraceBwConfig::new()
        .pattern(vec![
            (
                Duration::from_millis(1),
                vec![Bandwidth::from_mbps(2), Bandwidth::from_mbps(4)],
            ),
            (Duration::from_millis(2), vec![Bandwidth::from_mbps(1)]),
        ])
        .forever()
        .build();
    for _ in 0..3 {
        assert_eq!(
            repeated.next_bw(),
            Some((Bandwidth::from_mbps(2), Duration::from_millis(1)))
        );
        assert_eq!(
            repeated.next_bw(),
            Some((Bandwidth::from_mbps(4), Duration::from_millis(1)))
        );
        assert_eq!(
            repeated.next_bw(),
            Some((Bandwidth::from_mbps(1), Duration::from_millis(2)))
        );
    }
}

#[test]
fn normalized_spans_add_up() {
    let mut normal_bw = NormalizedBwConfig::<StdNormal>::new()
        .duration(Duration::from_secs(1))
        .step(Duration::from_millis(300))
        .build();
    let mut spans = vec![];
    while let Some((_, span)) = normal_bw.next_bw() {
        spans.push(span);
    }
    assert_eq!(
        spans,
        vec![
            Duration::from_millis(300),
            Duration::from_millis(300),
            Duration::from_millis(300),
            Duration::from_millis(100),
        ]
    );
    assert_eq!(normal_bw.next_bw(), None);
    assert_eq!(normal_bw.next_bw(), None);
}

#[test]
fn normalized_with_empty_step_has_ended() {
    let mut normal_bw = NormalizedBwConfig::<StdNormal>::new()
        .duration(Duration::from_secs(1))
        .step(Duration::zero())
        .build();
    assert_eq!(normal_bw.next_bw(), None);
    assert_eq!(normal_bw.next_bw(), None);
}

#[test]
fn normalized_defaults() {
    let mut normal_bw = NormalizedBwConfig::<Noiseless>::new().build();
    let mut n = 0;
    while let Some(segment) = normal_bw.next_bw() {
        assert_eq!(segment, (Bandwidth::from_mbps(12), Duration::from_millis(1)));
        n += 1;
    }
    assert_eq!(n, 1000);
}

#[test]
fn normalized_stays_within_bounds() {
    let lower = Bandwidth::from_kbps(11500);
    let upper = Bandwidth::from_kbps(12500);
    let mut normal_bw = NormalizedBwConfig::<StdNormal>::new()
        .mean(Bandwidth::from_mbps(12))
        .std_dev(Bandwidth::from_mbps(3))
        .duration(Duration::from_secs(2))
        .step(Duration::from_millis(1))
        .lower_bound(lower)
        .upper_bound(upper)
        .seed(7)
        .build();
    let mut n = 0;
    let mut at_lower = 0;
    let mut at_upper = 0;
    while let Some((bw, _)) = normal_bw.next_bw() {
        assert!(lower.as_bps() <= bw.as_bps() && bw.as_bps() <= upper.as_bps());
        if bw == lower {
            at_lower += 1;
        }
        if bw == upper {
            at_upper += 1;
        }
        n += 1;
    }
    assert_eq!(n, 2000);
    assert!(at_lower > 0 && at_upper > 0);
}

#[test]
fn clamp_sample_values() {
    let lower = Some(Bandwidth::from_bps(100));
    let upper = Some(Bandwidth::from_bps(200));
    assert_eq!(clamp_sample(150, lower, upper), Bandwidth::from_bps(150));
    assert_eq!(clamp_sample(99, lower, upper), Bandwidth::from_bps(100));
    assert_eq!(clamp_sample(201, lower, upper), Bandwidth::from_bps(200));
    assert_eq!(clamp_sample(-5, None, None), Bandwidth::zero());
    assert_eq!(clamp_sample(-5, lower, None), Bandwidth::from_bps(100));
    assert_eq!(clamp_sample(7, None, upper), Bandwidth::from_bps(7));
    assert_eq!(
        clamp_sample(i128::MAX, None, None),
        Bandwidth::from_bps(u64::MAX)
    );
    // a lower bound above the upper one gives way to the upper one
    assert_eq!(clamp_sample(150, upper, lower), Bandwidth::from_bps(100));
}

#[test]
fn add_noise_values() {
    let rate = Bandwidth::from_bps(1000);
    let upper = Some(Bandwidth::from_bps(30));
    let lower = Some(Bandwidth::from_bps(20));
    assert_eq!(add_noise(rate, 10, upper, lower), Bandwidth::from_bps(1010));
    assert_eq!(add_noise(rate, 31, upper, lower), Bandwidth::from_bps(1030));
    assert_eq!(add_noise(rate, -10, upper, lower), Bandwidth::from_bps(990));
    assert_eq!(add_noise(rate, -21, upper, lower), Bandwidth::from_bps(980));
    assert_eq!(add_noise(rate, -5000, None, None), Bandwidth::zero());
    assert_eq!(add_noise(rate, -1000, None, None), Bandwidth::zero());
    assert_eq!(
        add_noise(rate, i128::MAX, None, None),
        Bandwidth::from_bps(u64::MAX)
    );
    assert_eq!(add_noise(rate, i128::MIN, None, None), Bandwidth::zero());
}

#[test]
fn same_blueprint_same_trace() {
    let config = NormalizedBwConfig::<StdNormal>::new()
        .mean(Bandwidth::from_mbps(12))
        .std_dev(Bandwidth::from_mbps(1))
        .duration(Duration::from_millis(50))
        .seed(1234);
    let copy = config.duplicate();
    let mut first = config.build();
    let mut second = copy.build();
    let mut n = 0;
    loop {
        let a = first.next_bw();
        let b = second.next_bw();
        assert_eq!(a, b);
        if a.is_none() {
            break;
        }
        n += 1;
    }
    assert_eq!(n, 50);
}

#[test]
fn sample_draws_without_using_up_the_span() {
    let mut normal_bw = NormalizedBwConfig::<StdNormal>::new()
        .mean(Bandwidth::from_mbps(12))
        .std_dev(Bandwidth::from_mbps(1))
        .duration(Duration::from_millis(100))
        .step(Duration::from_millis(100))
        .seed(42)
        .build();
    assert_eq!(normal_bw.sample(), 12069427);
    assert_eq!(
        normal_bw.next_bw(),
        Some((Bandwidth::from_bps(12132938), Duration::from_millis(100)))
    );
    assert_eq!(normal_bw.next_bw(), None);
}

#[test]
fn sawtooth_falls_in_a_straight_line() {
    // the rate rises for 100 ms and falls for 400 ms
    let mut sawtooth_bw = SawtoothBwConfig::<Noiseless>::new()
        .bottom(Bandwidth::from_mbps(10))
        .top(Bandwidth::from_mbps(18))
        .duration(Duration::from_millis(1100))
        .step(Duration::from_millis(100))
        .interval(Duration::from_millis(500))
        .duty_ratio(Ratio::from_ppb(200_000_000).unwrap())
        .build();
    let mut rates = vec![];
    while let Some((bw, span)) = sawtooth_bw.next_bw() {
        assert_eq!(span, Duration::from_millis(100));
        rates.push(bw.as_bps() / 1_000_000);
    }
    assert_eq!(rates, vec![10, 18, 16, 14, 12, 10, 18, 16, 14, 12, 10]);
    assert_eq!(sawtooth_bw.next_bw(), None);
}

#[test]
fn sawtooth_rounds_down_while_it_rises() {
    let mut sawtooth_bw = SawtoothBwConfig::<Noiseless>::new()
        .bottom(Bandwidth::from_bps(0))
        .top(Bandwidth::from_bps(10))
        .duration(Duration::from_nanos(3))
        .step(Duration::from_nanos(1))
        .interval(Duration::from_nanos(3))
        .duty_ratio(Ratio::from_ppb(1_000_000_000).unwrap())
        .build();
    let mut rates = vec![];
    while let Some((bw, _)) = sawtooth_bw.next_bw() {
        rates.push(bw.as_bps());
    }
    assert_eq!(rates, vec![0, 3, 6]);
}

#[test]
fn sawtooth_defaults() {
    let mut sawtooth_bw = SawtoothBwConfig::<Noiseless>::new().build();
    let mut rates = vec![];
    while let Some((bw, span)) = sawtooth_bw.next_bw() {
        assert_eq!(span, Duration::from_millis(1));
        rates.push(bw.as_bps());
    }
    assert_eq!(rates.len(), 1000);
    assert_eq!(rates[0], 0);
    assert_eq!(rates[1], 24_000);
    assert_eq!(rates[499], 11_976_000);
    assert_eq!(rates[500], 12_000_000);
    assert_eq!(rates[501], 11_976_000);
    assert_eq!(rates[999], 24_000);
}

#[test]
fn sawtooth_without_shape_has_ended() {
    let upside_down = SawtoothBwConfig::<Noiseless>::new()
        .bottom(Bandwidth::from_mbps(16))
        .top(Bandwidth::from_mbps(12));
    let mut model = upside_down.model();
    assert_eq!(model.next_bw(), None);
    let no_tooth = SawtoothBwConfig::<Noiseless>::new().interval(Duration::zero());
    let mut model = no_tooth.model();
    assert_eq!(model.next_bw(), None);
    assert_eq!(model.next_bw(), None);
}

#[test]
fn repeated_walks_count_times() {
    let pattern = vec![
        StaticBwConfig::new()
            .bw(Bandwidth::from_mbps(12))
            .duration(Duration::from_secs(1)),
        StaticBwConfig::new()
            .bw(Bandwidth::from_mbps(24))
            .duration(Duration::from_secs(1)),
    ];
    let mut model = RepeatedBwPatternConfig::new()
        .pattern(pattern)
        .count(2)
        .into_model();
    for _ in 0..2 {
        assert_eq!(
            model.next_bw(),
            Some((Bandwidth::from_mbps(12), Duration::from_secs(1)))
        );
        assert_eq!(
            model.next_bw(),
            Some((Bandwidth::from_mbps(24), Duration::from_secs(1)))
        );
    }
    for _ in 0..4 {
        assert_eq!(model.next_bw(), None);
    }
}

#[test]
fn repeated_without_end_does_not_end() {
    let pattern = vec![
        StaticBwConfig::new().bw(Bandwidth::from_mbps(1)),
        StaticBwConfig::new().bw(Bandwidth::from_mbps(2)),
        StaticBwConfig::new().bw(Bandwidth::from_mbps(3)),
    ];
    let mut model = RepeatedBwPatternConfig::new().pattern(pattern).build();
    for i in 0..30 {
        assert_eq!(
            model.next_bw(),
            Some((Bandwidth::from_mbps(i % 3 + 1), Duration::from_secs(1)))
        );
    }
}

#[test]
fn repeated_skips_children_that_hand_out_nothing() {
    let nothing = StaticBwConfig::new().duration(Duration::zero());
    let pattern = vec![
        nothing,
        StaticBwConfig::new().bw(Bandwidth::from_mbps(1)),
        nothing,
        nothing,
        StaticBwConfig::new().bw(Bandwidth::from_mbps(2)),
        nothing,
    ];
    let mut model = RepeatedBwPatternConfig::new()
        .pattern(pattern)
        .count(2)
        .build();
    for _ in 0..2 {
        assert_eq!(
            model.next_bw(),
            Some((Bandwidth::from_mbps(1), Duration::from_secs(1)))
        );
        assert_eq!(
            model.next_bw(),
            Some((Bandwidth::from_mbps(2), Duration::from_secs(1)))
        );
    }
    assert_eq!(model.next_bw(), None);
    assert_eq!(model.next_bw(), None);
}

#[test]
fn repeated_empty_list_hands_out_nothing() {
    let mut model = RepeatedBwPatternConfig::<StaticBwConfig>::new().build();
    assert_eq!(model.next_bw(), None);
    let mut model = RepeatedBwPatternConfig::<StaticBwConfig>::new()
        .count(3)
        .build();
    assert_eq!(model.next_bw(), None);
    assert_eq!(model.next_bw(), None);
}

#[test]
fn repeated_barren_list_ends_even_without_end() {
    let nothing = StaticBwConfig::new().duration(Duration::zero());
    let mut model = RepeatedBwPatternConfig::new()
        .pattern(vec![nothing, nothing, nothing])
        .count(0)
        .build();
    assert_eq!(model.next_bw(), None);
    assert_eq!(model.next_bw(), None);
    let mut model = RepeatedBwPatternConfig::new()
        .pattern(vec![nothing, nothing])
        .count(1000)
        .build();
    assert_eq!(model.next_bw(), None);
    assert_eq!(model.next_bw(), None);
}

#[test]
fn repeated_in_repeated() {
    let inner = RepeatedBwPatternConfig::new()
        .pattern(vec![
            StaticBwConfig::new().bw(Bandwidth::from_mbps(1)),
            StaticBwConfig::new().bw(Bandwidth::from_mbps(2)),
        ])
        .count(2);
    let mut model = RepeatedBwPatternConfig::new()
        .pattern(vec![inner.duplicate(), inner])
        .count(3)
        .build();
    let mut rates = vec![];
    while let Some((bw, _)) = model.next_bw() {
        rates.push(bw.as_bps() / 1_000_000);
    }
    assert_eq!(rates, [1, 2].repeat(12));
}

#[test]
fn forever_of_a_repeated_blueprint_drops_the_count() {
    let config = RepeatedBwPatternConfig::new()
        .pattern(vec![StaticBwConfig::new().bw(Bandwidth::from_mbps(5))])
        .count(2)
        .forever();
    assert_eq!(config.count, 0);
    let mut model = config.build();
    for _ in 0..10 {
        assert_eq!(
            model.next_bw(),
            Some((Bandwidth::from_mbps(5), Duration::from_secs(1)))
        );
    }
}

#[test]
fn random_seed_sets_a_seed_and_nothing_else() {
    let config = NormalizedBwConfig::<StdNormal>::new()
        .mean(Bandwidth::from_mbps(3))
        .step(Duration::from_millis(7))
        .random_seed();
    assert!(config.seed.is_some());
    assert_eq!(config.mean, Some(Bandwidth::from_mbps(3)));
    assert_eq!(config.step, Some(Duration::from_millis(7)));
    assert_eq!(config.std_dev, None);
    assert_eq!(config.duration, None);
    let seeds: Vec<u64> = (0..8)
        .map(|_| {
            SawtoothBwConfig::<StdNormal>::new()
                .random_seed()
                .seed
                .unwrap()
        })
        .collect();
    assert!(seeds.iter().any(|seed| *seed != seeds[0]));
}
