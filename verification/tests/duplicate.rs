use netem_trace::model::{
    DuplicateTraceConfig, RepeatedDuplicatePatternConfig, StaticDuplicateConfig,
};
use netem_trace::{DuplicateTrace, Duration, Ratio};

/// The share that stands for a chance given in tenths.
fn tenths(n: u32) -> Ratio {
    Ratio::from_ppb(n * 100_000_000).unwrap()
}

#[test]
fn duplicate_test_static_loss_model() {
    let mut static_loss = StaticDuplicateConfig::new()
        .duplicate(vec![tenths(1), tenths(2)])
        .duration(Duration::from_secs(1))
        .build();
    assert_eq!(
        static_loss.next_duplicate(),
        Some((vec![tenths(1), tenths(2)], Duration::from_secs(1)))
    );
    assert_eq!(static_loss.next_duplicate(), None);
}

#[test]
fn static_duplicate_defaults() {
    let mut model = StaticDuplicateConfig::new().build();
    assert_eq!(
        model.next_duplicate(),
        Some((vec![tenths(1), tenths(2)], Duration::from_secs(1)))
    );
    assert_eq!(model.next_duplicate(), None);
    assert_eq!(model.next_duplicate(), None);
}

#[test]
fn static_duplicate_without_span_hands_out_nothing() {
    let mut model = StaticDuplicateConfig::new()
        .duplicate(vec![tenths(3)])
        .duration(Duration::zero())
        .build();
    assert_eq!(model.next_duplicate(), None);
}

#[test]
fn repeated_duplicate_walks_count_times() {
    let pattern = vec![
        StaticDuplicateConfig::new()
            .duplicate(vec![tenths(1), tenths(2)])
            .duration(Duration::from_secs(1)),
        StaticDuplicateConfig::new()
            .duplicate(vec![tenths(2), tenths(4)])
            .duration(Duration::from_secs(1)),
    ];
    let mut model = RepeatedDuplicatePatternConfig::new()
        .pattern(pattern)
        .count(2)
        .into_model();
    for _ in 0..2 {
        assert_eq!(
            model.next_duplicate(),
            Some((vec![tenths(1), tenths(2)], Duration::from_secs(1)))
        );
        assert_eq!(
            model.next_duplicate(),
            Some((vec![tenths(2), tenths(4)], Duration::from_secs(1)))
        );
    }
    assert_eq!(model.next_duplicate(), None);
    assert_eq!(model.next_duplicate(), None);
}
