use netem_trace::model::{DelayTraceConfig, RepeatedDelayPatternConfig, StaticDelayConfig};
use netem_trace::{Delay, DelayTrace, Duration};

#[test]
fn delay_test_static_delay_model() {
    let mut static_delay = StaticDelayConfig::new()
        .delay(Delay::from_millis(10))
        .duration(Duration::from_secs(1))
        .build();
    assert_eq!(
        static_delay.next_delay(),
        Some((Delay::from_millis(10), Duration::from_secs(1)))
    );
    assert_eq!(static_delay.next_delay(), None);
}

#[test]
fn static_delay_defaults() {
    let mut static_delay = StaticDelayConfig::new().build();
    assert_eq!(
        static_delay.next_delay(),
        Some((Delay::from_millis(10), Duration::from_secs(1)))
    );
    assert_eq!(static_delay.next_delay(), None);
    assert_eq!(static_delay.next_delay(), None);
}

#[test]
fn static_delay_without_span_hands_out_nothing() {
    let mut static_delay = StaticDelayConfig::new()
        .duration(Duration::zero())
        .build();
    assert_eq!(static_delay.next_delay(), None);
}

#[test]
fn repeated_delay_walks_count_times() {
    let pattern = vec![
        StaticDelayConfig::new()
            .delay(Delay::from_millis(10))
            .duration(Duration::from_secs(1)),
        StaticDelayConfig::new()
            .delay(Delay::from_millis(20))
            .duration(Duration::from_secs(1)),
    ];
    let mut model = RepeatedDelayPatternConfig::new()
        .pattern(pattern)
        .count(2)
        .into_model();
    for _ in 0..2 {
        assert_eq!(
            model.next_delay(),
            Some((Delay::from_millis(10), Duration::from_secs(1)))
        );
        assert_eq!(
            model.next_delay(),
            Some((Delay::from_millis(20), Duration::from_secs(1)))
        );
    }
    assert_eq!(model.next_delay(), None);
    assert_eq!(model.next_delay(), None);
}

#[test]
fn repeated_delay_without_end() {
    let mut model = RepeatedDelayPatternConfig::new()
        .pattern(vec![StaticDelayConfig::new()])
        .build();
    for _ in 0..10 {
        assert_eq!(
            model.next_delay(),
            Some((Delay::from_millis(10), Duration::from_secs(1)))
        );
    }
}
