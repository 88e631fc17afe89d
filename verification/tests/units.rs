use netem_trace::{Bandwidth, Duration, Noiseless, Ratio, SampleSource};

#[test]
fn duration_constructors() {
    assert_eq!(Duration::zero().as_nanos(), 0);
    assert_eq!(Duration::from_secs(3).as_nanos(), 3_000_000_000);
    assert_eq!(Duration::from_millis(3).as_nanos(), 3_000_000);
    assert_eq!(Duration::from_micros(3).as_nanos(), 3_000);
    assert_eq!(Duration::from_nanos(3).as_nanos(), 3);
    assert_eq!(Duration::from_secs(1), Duration::from_millis(1000));
    assert_eq!(
        Duration::max_value().as_nanos(),
        18_446_744_073_709_551_615_999_999_999
    );
    assert_eq!(Duration::from_secs(u64::MAX).as_secs(), u64::MAX);
}

#[test]
fn duration_parts() {
    let d = Duration::from_nanos(2_345_678_901);
    assert_eq!(d.as_secs(), 2);
    assert_eq!(d.subsec_nanos(), 345_678_901);
    assert!(!d.is_zero());
    assert!(Duration::zero().is_zero());
    assert_eq!(Duration::max_value().as_secs(), u64::MAX);
    assert_eq!(Duration::max_value().subsec_nanos(), 999_999_999);
}

#[test]
fn duration_saturates() {
    assert_eq!(Duration::saturating_from_nanos(17), Duration::from_nanos(17));
    assert_eq!(Duration::saturating_from_nanos(u128::MAX), Duration::max_value());
}

#[test]
fn duration_min() {
    let a = Duration::from_millis(5);
    let b = Duration::from_millis(7);
    assert_eq!(a.min(b), a);
    assert_eq!(b.min(a), a);
    assert_eq!(a.min(a), a);
    assert_eq!(Duration::zero().min(Duration::max_value()), Duration::zero());
}

#[test]
fn bandwidth_constructors() {
    assert_eq!(Bandwidth::zero().as_bps(), 0);
    assert_eq!(Bandwidth::from_bps(5).as_bps(), 5);
    assert_eq!(Bandwidth::from_kbps(5).as_bps(), 5_000);
    assert_eq!(Bandwidth::from_mbps(5).as_bps(), 5_000_000);
    assert_eq!(Bandwidth::from_mbps(0), Bandwidth::zero());
    assert_eq!(
        Bandwidth::new(2, 700_000_000),
        Some(Bandwidth::from_mbps(2700))
    );
    assert_eq!(
        Bandwidth::new(2, 1_700_000_000),
        Some(Bandwidth::from_mbps(3700))
    );
    assert_eq!(Bandwidth::new(u64::MAX, 1_000_000_000), None);
    assert_eq!(
        Bandwidth::new(u64::MAX, 999_999_999).unwrap().as_bps(),
        18_446_744_073_709_551_615_999_999_999
    );
}

#[test]
fn bandwidth_parts() {
    let b = Bandwidth::from_bps(5_000_000_123);
    assert_eq!(b.as_gbps(), 5);
    assert_eq!(b.subgbps_bps(), 123);
    assert_eq!(b.saturating_as_bps_u64(), 5_000_000_123);
    assert_eq!(
        Bandwidth::new(u64::MAX, 0).unwrap().saturating_as_bps_u64(),
        u64::MAX
    );
}

#[test]
fn ratio_range() {
    assert_eq!(Ratio::from_ppb(0).unwrap().as_ppb(), 0);
    assert_eq!(Ratio::from_ppb(1_000_000_000).unwrap().as_ppb(), 1_000_000_000);
    assert_eq!(Ratio::from_ppb(1_000_000_001), None);
    assert_eq!(Ratio::from_ppb(u32::MAX), None);
}

#[test]
fn noiseless_gives_the_mean() {
    let mut source = Noiseless::seeded(12_000_000, 5_000_000, 99);
    assert_eq!(source.next_sample(), 12_000_000);
    assert_eq!(source.next_sample(), 12_000_000);
    let mut source = Noiseless::seeded(u128::MAX, 0, 0);
    assert_eq!(source.next_sample(), i128::MAX);
}
