use authgate::throttle::{LoginRateLimitConfig, LoginThrottle, RateLimitStatus};

fn config() -> LoginRateLimitConfig {
    LoginRateLimitConfig {
        delay_threshold: 3,
        lock_threshold: 5,
        base_delay_seconds: 60,
        lock_duration_seconds: 900,
        enable_email_unlock: true,
        unlock_token_ttl_seconds: 3_600,
        frontend_unlock_url: "https://example.test/unlock".to_string(),
    }
}

#[test]
fn unknown_pair_is_allowed() {
    let throttle = LoginThrottle::new();
    assert_eq!(
        throttle.check(Some("u1"), "192.0.2.1", 100),
        RateLimitStatus::Allowed
    );
}

#[test]
fn escalation_allowed_delayed_locked() {
    let cfg = config();
    let mut throttle = LoginThrottle::new();
    let uid = Some("u1");
    let ip = "192.0.2.1";

    // Failures 1 and 2: still allowed on the next check.
    assert_eq!(throttle.record_failure(uid, ip, 10, &cfg), RateLimitStatus::Allowed);
    assert_eq!(throttle.check(uid, ip, 11), RateLimitStatus::Allowed);
    assert_eq!(throttle.record_failure(uid, ip, 20, &cfg), RateLimitStatus::Allowed);
    assert_eq!(throttle.check(uid, ip, 21), RateLimitStatus::Allowed);

    // Failures 3 and 4: delayed, with a wait that has not yet elapsed.
    match throttle.record_failure(uid, ip, 30, &cfg) {
        RateLimitStatus::Delayed { until } => assert_eq!(until, 30 + 60),
        other => panic!("third failure must delay, got {:?}", other),
    }
    match throttle.check(uid, ip, 31) {
        RateLimitStatus::Delayed { until } => assert!(until > 31),
        other => panic!("check after third failure must delay, got {:?}", other),
    }
    match throttle.record_failure(uid, ip, 40, &cfg) {
        RateLimitStatus::Delayed { until } => assert_eq!(until, 40 + 120),
        other => panic!("fourth failure must delay more, got {:?}", other),
    }

    // Failure 5: locked.
    match throttle.record_failure(uid, ip, 50, &cfg) {
        RateLimitStatus::Locked { until, can_unlock } => {
            assert_eq!(until, 50 + 900);
            assert!(can_unlock);
        }
        other => panic!("fifth failure must lock, got {:?}", other),
    }
    assert!(matches!(
        throttle.check(uid, ip, 51),
        RateLimitStatus::Locked { .. }
    ));

    // Success resets: counter back to zero, next check allowed.
    throttle.record_success(uid, ip, 60);
    assert_eq!(throttle.check(uid, ip, 61), RateLimitStatus::Allowed);
    assert_eq!(throttle.records.len(), 1);
    assert_eq!(throttle.records[0].consecutive_failures, 0);
    assert!(throttle.records[0].delayed_until.is_none());
    assert!(throttle.records[0].locked_until.is_none());
}

#[test]
fn delay_elapses_then_allowed() {
    let cfg = config();
    let mut throttle = LoginThrottle::new();
    let uid = Some("u2");
    let ip = "192.0.2.2";
    for t in 0..3u64 {
        throttle.record_failure(uid, ip, t, &cfg);
    }
    assert!(matches!(
        throttle.check(uid, ip, 30),
        RateLimitStatus::Delayed { .. }
    ));
    // The third failure at t=2 delays until 2 + 60.
    assert_eq!(throttle.check(uid, ip, 62), RateLimitStatus::Allowed);
}

#[test]
fn lock_expires_after_duration() {
    let cfg = config();
    let mut throttle = LoginThrottle::new();
    let uid = Some("u3");
    let ip = "192.0.2.3";
    for t in 0..5u64 {
        throttle.record_failure(uid, ip, t, &cfg);
    }
    assert!(matches!(
        throttle.check(uid, ip, 903),
        RateLimitStatus::Locked { .. }
    ));
    assert_eq!(throttle.check(uid, ip, 4 + 900), RateLimitStatus::Allowed);
}

#[test]
fn anonymous_attempts_cannot_self_unlock() {
    let cfg = config();
    let mut throttle = LoginThrottle::new();
    let ip = "192.0.2.4";
    for t in 0..5u64 {
        throttle.record_failure(None, ip, t, &cfg);
    }
    match throttle.check(None, ip, 10) {
        RateLimitStatus::Locked { can_unlock, .. } => assert!(!can_unlock),
        other => panic!("five failures must lock, got {:?}", other),
    }
}

#[test]
fn pairs_are_independent() {
    let cfg = config();
    let mut throttle = LoginThrottle::new();
    for t in 0..5u64 {
        throttle.record_failure(Some("u5"), "192.0.2.5", t, &cfg);
    }
    assert!(matches!(
        throttle.check(Some("u5"), "192.0.2.5", 10),
        RateLimitStatus::Locked { .. }
    ));
    assert_eq!(
        throttle.check(Some("u5"), "192.0.2.6", 10),
        RateLimitStatus::Allowed
    );
    assert_eq!(
        throttle.check(Some("u6"), "192.0.2.5", 10),
        RateLimitStatus::Allowed
    );
}

#[test]
fn reset_user_clears_all_addresses() {
    let cfg = config();
    let mut throttle = LoginThrottle::new();
    for t in 0..5u64 {
        throttle.record_failure(Some("u7"), "192.0.2.7", t, &cfg);
        throttle.record_failure(Some("u7"), "192.0.2.8", t, &cfg);
        throttle.record_failure(Some("u8"), "192.0.2.7", t, &cfg);
    }
    throttle.reset_user("u7", 100);
    assert_eq!(throttle.check(Some("u7"), "192.0.2.7", 101), RateLimitStatus::Allowed);
    assert_eq!(throttle.check(Some("u7"), "192.0.2.8", 101), RateLimitStatus::Allowed);
    assert!(matches!(
        throttle.check(Some("u8"), "192.0.2.7", 101),
        RateLimitStatus::Locked { .. }
    ));
}
