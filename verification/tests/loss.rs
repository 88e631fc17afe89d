use netem_trace::model::{LossTraceConfig, RepeatedLossPatternConfig, StaticLossConfig};
use netem_trace::{Duration, LossTrace, Ratio};

/// The share that stands for a chance given in tenths.
fn loss_tenths(n: u32) -> Ratio {
    Ratio::from_ppb(n * 100_000_000).unwrap()
}

#[test]
fn loss_test_static_loss_model() {
    let mut static_loss = StaticLossConfig::new()
        .loss(vec![loss_tenths(1), loss_tenths(2)])
        .duration(Duration::from_secs(1))
        .build();
    assert_eq!(
        static_loss.next_loss(),
        Some((vec![loss_tenths(1), loss_tenths(2)], Duration::from_secs(1)))
    );
    assert_eq!(static_loss.next_loss(), None);
}

#[test]
fn static_loss_defaults() {
    let mut model = StaticLossConfig::new().build();
    assert_eq!(
        model.next_loss(),
        Some((vec![loss_tenths(1), loss_tenths(2)], Duration::from_secs(1)))
    );
    assert_eq!(model.next_loss(), None);
    assert_eq!(model.next_loss(), None);
}

#[test]
fn static_loss_without_span_hands_out_nothing() {
    let mut model = StaticLossConfig::new()
        .loss(vec![loss_tenths(3)])
        .duration(Duration::zero())
        .build();
    assert_eq!(model.next_loss(), None);
}

#[test]
fn repeated_loss_walks_count_times() {
    let pattern = vec![
        StaticLossConfig::new()
            .loss(vec![loss_tenths(1), loss_tenths(2)])
            .duration(Duration::from_secs(1)),
        StaticLossConfig::new()
            .loss(vec![loss_tenths(2), loss_tenths(4)])
            .duration(Duration::from_secs(1)),
    ];
    let mut model = RepeatedLossPatternConfig::new()
        .pattern(pattern)
        .count(2)
        .into_model();
    for _ in 0..2 {
        assert_eq!(
            model.next_loss(),
            Some((vec![loss_tenths(1), loss_tenths(2)], Duration::from_secs(1)))
        );
        assert_eq!(
            model.next_loss(),
            Some((vec![loss_tenths(2), loss_tenths(4)], Duration::from_secs(1)))
        );
    }
    assert_eq!(model.next_loss(), None);
    assert_eq!(model.next_loss(), None);
}
