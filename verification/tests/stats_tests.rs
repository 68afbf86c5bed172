use artnet_hub::stats::Stats;

#[test]
fn packets_are_counted_and_bucketed() {
    let mut s = Stats::new();
    s.log_packet(100, 5);
    s.log_packet(200, 50);
    s.log_packet(300, 20000);
    assert_eq!(s.total_packets, 3);
    assert_eq!(s.total_bytes, 600);
    assert_eq!(s.window_packets, 3);
    assert_eq!(s.window_bytes, 600);
    assert_eq!(s.bucket_10, 1);
    assert_eq!(s.bucket_100, 1);
    assert_eq!(s.bucket_1000, 0);
    assert_eq!(s.bucket_5000, 0);
    assert_eq!(s.bucket_10000, 0);
    assert_eq!(s.bucket_15000, 0);
    assert_eq!(s.bucket_rest, 1);
}

#[test]
fn bucket_boundaries_are_inclusive() {
    let mut s = Stats::new();
    for gap in [10u64, 100, 1000, 5000, 10000, 15000, 15001] {
        s.log_packet(1, gap);
    }
    assert_eq!(s.bucket_10, 1);
    assert_eq!(s.bucket_100, 1);
    assert_eq!(s.bucket_1000, 1);
    assert_eq!(s.bucket_5000, 1);
    assert_eq!(s.bucket_10000, 1);
    assert_eq!(s.bucket_15000, 1);
    assert_eq!(s.bucket_rest, 1);
    let mut t = Stats::new();
    t.log_packet(1, 11);
    assert_eq!(t.bucket_10, 0);
    assert_eq!(t.bucket_100, 1);
}

#[test]
fn report_computes_rate_and_resets_window_only() {
    let mut s = Stats::new();
    s.log_packet(1000, 5);
    s.log_packet(1000, 5);
    s.log_packet(1000, 5);
    // 3 packets over 1.5 seconds: 2 packets per second, rounded down.
    let r = s.take_report(1_500_000);
    assert_eq!(r.packets_per_sec, 2);
    assert_eq!(r.window_packets, 3);
    assert_eq!(r.window_bytes, 3000);
    assert_eq!(r.bucket_10, 3);
    assert_eq!(s.window_packets, 0);
    assert_eq!(s.window_bytes, 0);
    assert_eq!(s.bucket_10, 0);
    assert_eq!(s.total_packets, 3);
    assert_eq!(s.total_bytes, 3000);
}

#[test]
fn report_is_due_after_the_window_passes() {
    let s = Stats::new();
    assert!(!s.report_due(0));
    assert!(!s.report_due(5));
    assert!(s.report_due(6));
}
