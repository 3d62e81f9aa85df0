use blaze_api::StatsTracker;

#[test]
fn test_stats_tracking() {
    let mut tracker = StatsTracker::new(0);
    tracker.set_total_lines(100);

    tracker.record_success(50_000, 0);
    tracker.record_success(100_000, 0);
    tracker.record_failure(0);

    let snapshot = tracker.snapshot(0);
    assert_eq!(snapshot.total_processed, 3);
    assert_eq!(snapshot.success_count, 2);
    assert_eq!(snapshot.failure_count, 1);
    assert_eq!(snapshot.avg_latency_ms, 75);
}

#[test]
fn test_success_rate() {
    let mut tracker = StatsTracker::new(0);

    for _ in 0..8 {
        tracker.record_success(10_000, 0);
    }
    for _ in 0..2 {
        tracker.record_failure(0);
    }

    let snapshot = tracker.snapshot(0);
    assert_eq!(snapshot.success_rate(), 80);
}

#[test]
fn sliding_window_counts_only_the_last_second() {
    let mut tracker = StatsTracker::new(0);
    tracker.record_failure(100);
    tracker.record_failure(500);
    tracker.record_failure(1200);
    // at t=1400 the entry from t=100 is older than one second
    assert_eq!(tracker.requests_per_second(1400), 2);
    // at t=2600 everything has expired
    assert_eq!(tracker.requests_per_second(2600), 0);
}

#[test]
fn snapshot_reports_rates_and_progress() {
    let mut tracker = StatsTracker::new(1000);
    tracker.set_total_lines(8);
    for _ in 0..4 {
        tracker.record_success(2_000, 1500);
    }
    let snapshot = tracker.snapshot(3000);
    assert_eq!(snapshot.elapsed_ms, 2000);
    // 4 requests in 2 seconds
    assert_eq!(snapshot.overall_rps, 2);
    // 4 of 8 lines done
    assert_eq!(snapshot.progress, 50);
    assert_eq!(snapshot.avg_latency_ms, 2);
}

#[test]
fn eta_estimates_remaining_seconds() {
    let mut tracker = StatsTracker::new(0);
    tracker.set_total_lines(30);
    for _ in 0..10 {
        tracker.record_success(1_000, 500);
    }
    // 10 done in 2 s: 5 per second, 20 remaining, 4 seconds to go
    let snapshot = tracker.snapshot(2000);
    assert_eq!(snapshot.overall_rps, 5);
    assert_eq!(snapshot.eta(), Some(4));

    let mut idle = StatsTracker::new(0);
    let empty = idle.snapshot(0);
    assert_eq!(empty.eta(), None);
}
