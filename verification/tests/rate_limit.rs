use proviz::rate_limit::{ErrorType, KeyState, KeyUsage, RateLimitState, UsageTracker};

const NOW: u64 = 1_700_000_000_000;

#[test]
fn test_rate_limit_cooldown() {
    let mut rl = RateLimitState::new();
    assert!(!rl.is_limited("key1", NOW));
    rl.report_error("key1", ErrorType::Rps, NOW); // 5s cooldown
    assert!(rl.is_limited("key1", NOW));
    assert!(rl.cooldown_remaining_ms("key1", NOW) > 0);
    assert!(rl.cooldown_remaining_ms("key1", NOW) <= 5000);
}

#[test]
fn test_rate_limit_different_keys() {
    let mut rl = RateLimitState::new();
    rl.report_error("key1", ErrorType::Rpm, NOW);
    assert!(rl.is_limited("key1", NOW));
    assert!(!rl.is_limited("key2", NOW));
}

#[test]
fn test_error_type_cooldown_ordering() {
    assert!(ErrorType::Rps.cooldown_secs() < ErrorType::Rpm.cooldown_secs());
    assert!(ErrorType::Rpm.cooldown_secs() < ErrorType::Rpd.cooldown_secs());
    assert!(ErrorType::Auth.cooldown_secs() > ErrorType::Empty.cooldown_secs());
}

#[test]
fn test_usage_tracker_five_min_count() {
    let mut ut = UsageTracker::new();
    assert_eq!(ut.five_min_count("key1", NOW), 0);
    ut.reserve("key1", NOW);
    ut.reserve("key1", NOW);
    assert_eq!(ut.five_min_count("key1", NOW), 2);
}

#[test]
fn cooldown_lengths_per_kind() {
    assert_eq!(ErrorType::Rps.cooldown_secs(), 5);
    assert_eq!(ErrorType::Rpm.cooldown_secs(), 60);
    assert_eq!(ErrorType::Rpd.cooldown_secs(), 3600);
    assert_eq!(ErrorType::Auth.cooldown_secs(), 300);
    assert_eq!(ErrorType::Timeout.cooldown_secs(), 30);
    assert_eq!(ErrorType::Empty.cooldown_secs(), 10);
    assert_eq!(ErrorType::Error.cooldown_secs(), 60);
}

#[test]
fn error_type_names_round_trip() {
    for et in [
        ErrorType::Rps,
        ErrorType::Rpm,
        ErrorType::Rpd,
        ErrorType::Auth,
        ErrorType::Timeout,
        ErrorType::Empty,
        ErrorType::Error,
    ] {
        assert_eq!(ErrorType::from_name(et.as_str()), et);
    }
    assert_eq!(ErrorType::from_name("something-else"), ErrorType::Error);
}

#[test]
fn cooldown_ends_after_its_length() {
    let mut rl = RateLimitState::new();
    rl.report_error("k", ErrorType::Rpm, NOW);
    assert_eq!(rl.cooldown_remaining_ms("k", NOW), 60_000);
    assert_eq!(rl.cooldown_remaining_ms("k", NOW + 59_999), 1);
    assert!(rl.is_limited("k", NOW + 59_999));
    assert!(!rl.is_limited("k", NOW + 60_000));
    assert_eq!(rl.cooldown_remaining_ms("k", NOW + 60_000), 0);
}

#[test]
fn key_state_reports_cooldown() {
    let mut rl = RateLimitState::new();
    assert_eq!(rl.key_state("k", NOW), KeyState::Available);
    rl.report_error("k", ErrorType::Timeout, NOW);
    assert_eq!(rl.key_state("k", NOW + 1_000), KeyState::Cooldown(29_000));
}

#[test]
fn later_report_replaces_cooldown() {
    let mut rl = RateLimitState::new();
    rl.report_error("k", ErrorType::Rpd, NOW);
    rl.report_error("k", ErrorType::Rps, NOW);
    assert_eq!(rl.cooldown_remaining_ms("k", NOW), 5_000);
}

#[test]
fn windows_forget_old_requests() {
    let mut ut = UsageTracker::new();
    ut.reserve("k", NOW);
    ut.reserve("k", NOW + 500);
    assert_eq!(ut.rps_count("k", NOW + 999), 2);
    assert_eq!(ut.rps_count("k", NOW + 1_200), 1);
    assert_eq!(ut.rpm_count("k", NOW + 30_000), 2);
    assert_eq!(ut.rpm_count("k", NOW + 61_000), 0);
    assert_eq!(ut.rpd_count("k", NOW + 61_000), 2);
}

#[test]
fn sync_rpm_trims_to_reported_usage() {
    let mut ut = UsageTracker::new();
    for i in 0..5 {
        ut.reserve("k", NOW + i);
    }
    ut.sync_rpm("k", 8, 10);
    assert_eq!(ut.rpm_count("k", NOW + 10), 2);
    ut.sync_rpm("k", 8, 0);
    assert_eq!(ut.rpm_count("k", NOW + 10), 2);
    ut.sync_rpm("k", 20, 10);
    assert_eq!(ut.rpm_count("k", NOW + 10), 0);
}

#[test]
fn key_usage_counts_per_window() {
    let mut u = KeyUsage::new();
    u.record(NOW);
    u.record(NOW + 2_000);
    assert_eq!(u.rps_count(NOW + 2_500), 1);
    assert_eq!(u.rpm_count(NOW + 2_500), 2);
    assert_eq!(u.five_min_count(NOW + 2_500), 2);
    assert_eq!(u.rpd_count(NOW + 2_500), 2);
}

#[test]
fn complete_undoes_the_reservation_in_flight() {
    let mut u = KeyUsage::new();
    u.in_flight = 3;
    u.record(NOW);
    assert_eq!(u.in_flight, 4);
    u.complete();
    assert_eq!(u.in_flight, 3);
    assert_eq!(u.rpm_count(NOW), 1);

    let mut t = UsageTracker::new();
    t.reserve("k1", NOW);
    t.complete("k1");
    t.complete("never-reserved");
    assert_eq!(t.rpm_count("k1", NOW), 1);
    assert_eq!(t.rps_count("k1", NOW), 1);
    assert_eq!(t.rpm_count("never-reserved", NOW), 0);
}

#[test]
fn test_usage_tracker_decrements_on_reserve() {
    let mut ut = UsageTracker::new();
    let (n, d) = ut.rpm_headroom("key1", Some(10), NOW);
    assert_eq!(n as f64 / d as f64, 1.0);
    ut.reserve("key1", NOW);
    let (n, d) = ut.rpm_headroom("key1", Some(10), NOW);
    let headroom = n as f64 / d as f64;
    assert!(headroom < 1.0);
    assert!(headroom >= 0.9);
}

#[test]
fn test_usage_tracker_headroom_no_limit() {
    let mut ut = UsageTracker::new();
    ut.reserve("key1", NOW);
    assert_eq!(ut.rpm_headroom("key1", None, NOW), (1, 1));
    assert_eq!(ut.rpd_headroom("key1", None, NOW), (1, 1));
    assert_eq!(ut.rpm_headroom("key1", Some(0), NOW), (1, 1));
    assert_eq!(ut.rpd_headroom("key1", Some(-5), NOW), (1, 1));
}

#[test]
fn headroom_counts_down_to_zero() {
    let mut ut = UsageTracker::new();
    for _ in 0..3 {
        ut.reserve("key1", NOW);
    }
    assert_eq!(ut.rpm_headroom("key1", Some(4), NOW), (1, 4));
    assert_eq!(ut.rpd_headroom("key1", Some(10), NOW), (7, 10));
    ut.reserve("key1", NOW);
    ut.reserve("key1", NOW);
    assert_eq!(ut.rpm_headroom("key1", Some(4), NOW), (0, 4));
    // A minute later the per-minute budget is whole again, the daily one is not.
    assert_eq!(ut.rpm_headroom("key1", Some(4), NOW + 60_001), (4, 4));
    assert_eq!(ut.rpd_headroom("key1", Some(10), NOW + 60_001), (5, 10));
}
