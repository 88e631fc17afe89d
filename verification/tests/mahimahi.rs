use netem_trace::model::{BwTraceConfig, RepeatedBwPatternConfig, StaticBwConfig, TraceBwConfig};
use netem_trace::{load_mahimahi_trace, Bandwidth, BwTrace, Duration, Mahimahi, MahimahiExt};

#[test]
fn test_trait() {
    let mut static_bw = StaticBwConfig::new()
        .bw(Bandwidth::from_mbps(24))
        .duration(Duration::from_secs(1))
        .build();
    assert_eq!(
        static_bw.mahimahi(&Duration::from_millis(5)),
        [1, 1, 2, 2, 3, 3, 4, 4, 5, 5]
    );
    let mut static_bw = StaticBwConfig::new()
        .bw(Bandwidth::from_mbps(12))
        .duration(Duration::from_secs(1))
        .build();
    assert_eq!(
        static_bw.mahimahi_to_string(&Duration::from_millis(5)),
        "1\n2\n3\n4\n5"
    );
    let a = vec![
        StaticBwConfig::new()
            .bw(Bandwidth::from_mbps(12))
            .duration(Duration::from_millis(2)),
        StaticBwConfig::new()
            .bw(Bandwidth::from_mbps(24))
            .duration(Duration::from_millis(2)),
    ];
    let mut c = RepeatedBwPatternConfig::new()
        .pattern(a)
        .count(2)
        .into_model();
    assert_eq!(
        c.mahimahi(&Duration::max_value()),
        [1, 2, 3, 3, 4, 4, 5, 6, 7, 7, 8, 8]
    );
}

#[test]
fn test_load() {
    assert!(matches!(
        load_mahimahi_trace(vec![0, 2, 4, 3], None),
        Err("timestamps must be monotonically nondecreasing")
    ));
    assert!(matches!(
        load_mahimahi_trace(vec![0, 0, 0], None),
        Err("trace must last for a nonzero amount of time")
    ));

    let trace = vec![1, 1, 5, 6];
    let mut bw = load_mahimahi_trace(trace, None).unwrap().build();
    // first cycle
    assert_eq!(
        bw.next_bw(),
        Some((Bandwidth::from_mbps(24), Duration::from_millis(1)))
    );
    assert_eq!(
        bw.next_bw(),
        Some((Bandwidth::from_mbps(0), Duration::from_millis(3)))
    );
    assert_eq!(
        bw.next_bw(),
        Some((Bandwidth::from_mbps(12), Duration::from_millis(2)))
    );
    // second cycle
    assert_eq!(
        bw.next_bw(),
        Some((Bandwidth::from_mbps(24), Duration::from_millis(1)))
    );

    let trace = vec![0, 0, 2, 2, 3, 3, 6, 6];
    let mut bw = load_mahimahi_trace(trace, Some(0)).unwrap().build();
    // first cycle
    assert_eq!(
        bw.next_bw(),
        Some((Bandwidth::from_mbps(0), Duration::from_millis(1)))
    );
    assert_eq!(
        bw.next_bw(),
        Some((Bandwidth::from_mbps(24), Duration::from_millis(2)))
    );
    assert_eq!(
        bw.next_bw(),
        Some((Bandwidth::from_mbps(0), Duration::from_millis(2)))
    );
    assert_eq!(
        bw.next_bw(),
        Some((Bandwidth::from_mbps(48), Duration::from_millis(1)))
    );
    // second cycle
    assert_eq!(
        bw.next_bw(),
        Some((Bandwidth::from_mbps(0), Duration::from_millis(1)))
    );
    assert_eq!(
        bw.next_bw(),
        Some((Bandwidth::from_mbps(24), Duration::from_millis(2)))
    );

    let mut bw = RepeatedBwPatternConfig::new()
        .count(2)
        .pattern(vec![
            load_mahimahi_trace(vec![1, 1, 2, 2, 3, 3], Some(1)).unwrap(),
            load_mahimahi_trace(vec![1, 2], Some(2)).unwrap(),
        ])
        .build();
    assert_eq!(
        bw.next_bw(),
        Some((Bandwidth::from_mbps(24), Duration::from_millis(3)))
    );
    assert_eq!(
        bw.next_bw(),
        Some((Bandwidth::from_mbps(12), Duration::from_millis(2)))
    );
    assert_eq!(
        bw.next_bw(),
        Some((Bandwidth::from_mbps(12), Duration::from_millis(2)))
    );
    assert_eq!(
        bw.next_bw(),
        Some((Bandwidth::from_mbps(24), Duration::from_millis(3)))
    );
    assert_eq!(
        bw.next_bw(),
        Some((Bandwidth::from_mbps(12), Duration::from_millis(2)))
    );
    assert_eq!(
        bw.next_bw(),
        Some((Bandwidth::from_mbps(12), Duration::from_millis(2)))
    );
    assert_eq!(bw.next_bw(), None);
}

/// Checks that a trace comes out of its own blueprint again.
fn check(trace: Vec<u64>) {
    let mut bw = load_mahimahi_trace(trace.clone(), None).unwrap().build();
    assert_eq!(
        bw.mahimahi(&Duration::from_millis(*trace.last().unwrap())),
        trace
    );
}

#[test]
fn test_interoperability() {
    // this check only works on non-zero timestamps trace, which has full interoperability
    check(vec![1, 1, 5, 6]);
    check(vec![2, 2, 3, 3, 4, 4, 5, 5, 8, 9]);

    let mut bw = load_mahimahi_trace(vec![0, 0, 2, 2, 3, 3, 6, 6], None)
        .unwrap()
        .build();
    assert_eq!(
        bw.mahimahi(&Duration::from_millis(12)),
        vec![2, 2, 3, 3, 6, 6, 6, 6, 8, 8, 9, 9, 12, 12, 12, 12]
    );

    let mut bw = RepeatedBwPatternConfig::new()
        .count(2)
        .pattern(vec![
            load_mahimahi_trace(vec![1, 1, 2, 2, 3, 3], Some(1)).unwrap(),
            load_mahimahi_trace(vec![1, 2], Some(2)).unwrap(),
        ])
        .build();
    assert_eq!(
        bw.mahimahi(&Duration::max_value()),
        vec![1, 1, 2, 2, 3, 3, 4, 5, 6, 7, 8, 8, 9, 9, 10, 10, 11, 12, 13, 14]
    );
}

#[test]
fn export_of_24_mbps_over_5_ms() {
    // a packet of 1500 bytes takes half a millisecond at 24 Mbps
    let mut static_bw = StaticBwConfig::new()
        .bw(Bandwidth::from_mbps(24))
        .build();
    assert_eq!(
        static_bw.mahimahi(&Duration::from_millis(5)),
        [1, 1, 2, 2, 3, 3, 4, 4, 5, 5]
    );
}

#[test]
fn export_carries_credit_over() {
    // 6 Mbps is half a packet in each millisecond
    let mut static_bw = StaticBwConfig::new().bw(Bandwidth::from_mbps(6)).build();
    assert_eq!(static_bw.mahimahi(&Duration::from_millis(7)), [2, 4, 6]);
    // 18 Mbps is a packet and a half
    let mut static_bw = StaticBwConfig::new()
        .bw(Bandwidth::from_mbps(18))
        .build();
    assert_eq!(
        static_bw.mahimahi(&Duration::from_millis(4)),
        [1, 2, 2, 3, 4, 4]
    );
}

#[test]
fn export_ends_with_the_generator() {
    let mut static_bw = StaticBwConfig::new()
        .bw(Bandwidth::from_mbps(12))
        .duration(Duration::from_millis(3))
        .build();
    assert_eq!(static_bw.mahimahi(&Duration::from_secs(1)), [1, 2, 3]);
    assert_eq!(static_bw.next_bw(), None);
}

#[test]
fn export_stops_at_the_last_whole_bin() {
    let mut static_bw = StaticBwConfig::new().bw(Bandwidth::from_mbps(12)).build();
    assert_eq!(
        static_bw.mahimahi(&Duration::from_micros(2999)),
        [1, 2]
    );
    let mut static_bw = StaticBwConfig::new().bw(Bandwidth::from_mbps(12)).build();
    assert_eq!(static_bw.mahimahi(&Duration::from_micros(999)), []);
    let mut static_bw = StaticBwConfig::new().bw(Bandwidth::from_mbps(12)).build();
    assert_eq!(static_bw.mahimahi(&Duration::zero()), []);
}

#[test]
fn export_of_segments_that_end_within_a_bin() {
    let mut tracebw = TraceBwConfig::new()
        .pattern(vec![(
            Duration::from_micros(500),
            vec![
                Bandwidth::from_mbps(12),
                Bandwidth::from_mbps(36),
                Bandwidth::from_mbps(24),
            ],
        )])
        .build();
    // half a packet, then one and a half, then one more, all by the end of the second millisecond
    assert_eq!(tracebw.mahimahi(&Duration::from_millis(5)), [1, 1, 2]);
}

#[test]
fn export_loses_the_segment_pulled_behind_the_limit() {
    let mut model = RepeatedBwPatternConfig::new()
        .pattern(vec![
            StaticBwConfig::new()
                .bw(Bandwidth::from_mbps(12))
                .duration(Duration::from_millis(2)),
            StaticBwConfig::new()
                .bw(Bandwidth::from_mbps(24))
                .duration(Duration::from_millis(2)),
            StaticBwConfig::new()
                .bw(Bandwidth::from_mbps(36))
                .duration(Duration::from_millis(2)),
        ])
        .count(1)
        .build();
    assert_eq!(model.mahimahi(&Duration::from_millis(2)), [1, 2]);
    assert_eq!(
        model.next_bw(),
        Some((Bandwidth::from_mbps(36), Duration::from_millis(2)))
    );
}

#[test]
fn export_ends_at_a_segment_without_span() {
    let mut tracebw = TraceBwConfig::new()
        .pattern(vec![
            (Duration::from_millis(2), vec![Bandwidth::from_mbps(12)]),
            (Duration::zero(), vec![Bandwidth::from_mbps(12)]),
            (Duration::from_millis(2), vec![Bandwidth::from_mbps(12)]),
        ])
        .build();
    assert_eq!(tracebw.mahimahi(&Duration::from_millis(10)), [1, 2]);
}

#[test]
fn export_as_text() {
    let mut static_bw = StaticBwConfig::new()
        .bw(Bandwidth::from_mbps(24))
        .build();
    assert_eq!(
        static_bw.mahimahi_to_string(&Duration::from_millis(2)),
        "1\n1\n2\n2"
    );
    let mut model = RepeatedBwPatternConfig::new()
        .pattern(vec![
            StaticBwConfig::new()
                .bw(Bandwidth::zero())
                .duration(Duration::from_millis(99)),
            StaticBwConfig::new()
                .bw(Bandwidth::from_mbps(12))
                .duration(Duration::from_millis(2)),
        ])
        .count(1)
        .build();
    assert_eq!(
        model.mahimahi_to_string(&Duration::from_secs(1)),
        "100\n101"
    );
    let mut nothing = StaticBwConfig::new().bw(Bandwidth::zero()).build();
    assert_eq!(nothing.mahimahi_to_string(&Duration::from_millis(5)), "");
    let mut one = StaticBwConfig::new()
        .bw(Bandwidth::from_mbps(12))
        .duration(Duration::from_millis(1))
        .build();
    assert_eq!(one.mahimahi_to_string(&Duration::from_millis(5)), "1");
}

#[test]
fn load_refuses_what_goes_down() {
    assert_eq!(
        load_mahimahi_trace(vec![3, 2], None).err(),
        Some("timestamps must be monotonically nondecreasing")
    );
    // the timestamp 0 behind another one goes down too
    assert_eq!(
        load_mahimahi_trace(vec![1, 0, 2], None).err(),
        Some("timestamps must be monotonically nondecreasing")
    );
    assert_eq!(
        load_mahimahi_trace(vec![0, 5, 5, 4, 0], Some(1)).err(),
        Some("timestamps must be monotonically nondecreasing")
    );
}

#[test]
fn load_refuses_what_lasts_no_time() {
    assert_eq!(
        load_mahimahi_trace(vec![], None).err(),
        Some("trace must last for a nonzero amount of time")
    );
    assert_eq!(
        load_mahimahi_trace(vec![0], Some(3)).err(),
        Some("trace must last for a nonzero amount of time")
    );
}

#[test]
fn load_keeps_the_count() {
    assert_eq!(load_mahimahi_trace(vec![1], None).unwrap().count, 0);
    assert_eq!(load_mahimahi_trace(vec![1], Some(0)).unwrap().count, 0);
    assert_eq!(load_mahimahi_trace(vec![1], Some(7)).unwrap().count, 7);
}

#[test]
fn load_gives_the_packets_of_zero_to_the_last_millisecond() {
    let config = load_mahimahi_trace(vec![0, 0, 0, 3], None).unwrap();
    assert_eq!(
        config.pattern,
        vec![
            StaticBwConfig::new()
                .bw(Bandwidth::zero())
                .duration(Duration::from_millis(2)),
            StaticBwConfig::new()
                .bw(Bandwidth::from_mbps(48))
                .duration(Duration::from_millis(1)),
        ]
    );
}

#[test]
fn load_joins_milliseconds_of_the_same_rate() {
    let config = load_mahimahi_trace(vec![1, 2, 3, 4, 4, 5, 5, 9, 10], Some(1)).unwrap();
    assert_eq!(
        config.pattern,
        vec![
            StaticBwConfig::new()
                .bw(Bandwidth::from_mbps(12))
                .duration(Duration::from_millis(3)),
            StaticBwConfig::new()
                .bw(Bandwidth::from_mbps(24))
                .duration(Duration::from_millis(2)),
            StaticBwConfig::new()
                .bw(Bandwidth::zero())
                .duration(Duration::from_millis(3)),
            StaticBwConfig::new()
                .bw(Bandwidth::from_mbps(12))
                .duration(Duration::from_millis(2)),
        ]
    );
}

#[test]
fn load_keeps_long_gaps_whole() {
    let week: u64 = 7 * 24 * 3600 * 1000;
    let config = load_mahimahi_trace(vec![1, 10 * week], Some(1)).unwrap();
    assert_eq!(
        config.pattern,
        vec![
            StaticBwConfig::new()
                .bw(Bandwidth::from_mbps(12))
                .duration(Duration::from_millis(1)),
            StaticBwConfig::new()
                .bw(Bandwidth::zero())
                .duration(Duration::from_millis(10 * week - 2)),
            StaticBwConfig::new()
                .bw(Bandwidth::from_mbps(12))
                .duration(Duration::from_millis(1)),
        ]
    );
    let config = load_mahimahi_trace(vec![u64::MAX], Some(1)).unwrap();
    assert_eq!(
        config.pattern,
        vec![
            StaticBwConfig::new()
                .bw(Bandwidth::zero())
                .duration(Duration::from_millis(u64::MAX - 1)),
            StaticBwConfig::new()
                .bw(Bandwidth::from_mbps(12))
                .duration(Duration::from_millis(1)),
        ]
    );
}

#[test]
fn traces_come_back() {
    check(vec![1]);
    check(vec![7]);
    check(vec![1, 2, 3, 4, 5]);
    check(vec![3, 3, 3, 3, 3, 3, 3]);
    check(vec![1, 1, 1, 2, 40, 40, 41, 100]);
}

#[test]
fn traces_come_back_whatever_the_count() {
    for count in [None, Some(0), Some(1), Some(5)] {
        let trace = vec![2, 2, 3, 7, 7, 7, 8];
        let mut bw = load_mahimahi_trace(trace.clone(), count).unwrap().build();
        assert_eq!(bw.mahimahi(&Duration::from_millis(8)), trace);
    }
}

#[test]
fn a_trace_with_the_timestamp_zero_does_not_come_back() {
    let trace = vec![0, 1, 3];
    let mut bw = load_mahimahi_trace(trace, Some(1)).unwrap().build();
    assert_eq!(bw.mahimahi(&Duration::from_millis(3)), vec![1, 3, 3]);
}
