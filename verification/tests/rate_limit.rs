use authgate::rate_limit::{
    HttpMethod, RateLimitBucket, RateLimitConfig, RateLimitDecision, RateLimitError,
    RateLimitIdentity, RateLimiter,
};

fn ip(s: &str) -> RateLimitIdentity {
    RateLimitIdentity::Ip(s.to_string())
}

#[test]
fn rate_limiter_blocks_after_limit() {
    let mut limiter = RateLimiter::new(RateLimitConfig {
        read_limit: 2,
        mutation_limit: 1,
        window_millis: 60_000,
    });
    let identities = vec![ip("127.0.0.1")];
    assert!(matches!(
        limiter.check(&identities, RateLimitBucket::Read, 0),
        RateLimitDecision::Allow
    ));
    assert!(matches!(
        limiter.check(&identities, RateLimitBucket::Read, 10),
        RateLimitDecision::Allow
    ));
    assert!(matches!(
        limiter.check(&identities, RateLimitBucket::Read, 20),
        RateLimitDecision::Limited { .. }
    ));
}

#[test]
fn within_budget_every_request_allowed() {
    let mut limiter = RateLimiter::new(RateLimitConfig {
        read_limit: 5,
        mutation_limit: 5,
        window_millis: 1_000,
    });
    let identities = vec![ip("10.0.0.1")];
    for i in 0..5u64 {
        assert!(matches!(
            limiter.check(&identities, RateLimitBucket::Read, i * 100),
            RateLimitDecision::Allow
        ));
    }
}

#[test]
fn over_limit_retry_after_at_most_window() {
    let mut limiter = RateLimiter::new(RateLimitConfig {
        read_limit: 3,
        mutation_limit: 3,
        window_millis: 1_000,
    });
    let identities = vec![ip("10.0.0.2")];
    for i in 0..3u64 {
        assert!(matches!(
            limiter.check(&identities, RateLimitBucket::Read, i),
            RateLimitDecision::Allow
        ));
    }
    match limiter.check(&identities, RateLimitBucket::Read, 500) {
        RateLimitDecision::Limited { retry_after_millis } => {
            assert_eq!(retry_after_millis, 500);
            assert!(retry_after_millis <= 1_000);
        }
        RateLimitDecision::Allow => panic!("fourth request must be limited"),
    }
}

#[test]
fn window_reset_allows_and_counts_one() {
    let mut limiter = RateLimiter::new(RateLimitConfig {
        read_limit: 1,
        mutation_limit: 1,
        window_millis: 1_000,
    });
    let identities = vec![ip("10.0.0.3")];
    assert!(matches!(
        limiter.check(&identities, RateLimitBucket::Read, 0),
        RateLimitDecision::Allow
    ));
    assert!(matches!(
        limiter.check(&identities, RateLimitBucket::Read, 999),
        RateLimitDecision::Limited { .. }
    ));
    assert!(matches!(
        limiter.check(&identities, RateLimitBucket::Read, 1_000),
        RateLimitDecision::Allow
    ));
    assert_eq!(limiter.counters.len(), 1);
    assert_eq!(limiter.counters[0].count, 1);
    assert_eq!(limiter.counters[0].window_start, 1_000);
}

#[test]
fn burst_admits_exactly_limit() {
    let mut limiter = RateLimiter::new(RateLimitConfig {
        read_limit: 4,
        mutation_limit: 4,
        window_millis: 60_000,
    });
    let identities = vec![ip("10.0.0.4")];
    let mut allowed = 0;
    let mut denied = 0;
    for _ in 0..7 {
        match limiter.check(&identities, RateLimitBucket::Read, 42) {
            RateLimitDecision::Allow => allowed += 1,
            RateLimitDecision::Limited { .. } => denied += 1,
        }
    }
    assert_eq!(allowed, 4);
    assert_eq!(denied, 3);
}

#[test]
fn read_scenario_301_requests() {
    let mut limiter = RateLimiter::new(RateLimitConfig {
        read_limit: 300,
        mutation_limit: 60,
        window_millis: 60_000,
    });
    let identities = vec![ip("203.0.113.5")];
    for i in 0..300u64 {
        assert!(matches!(
            limiter.check(&identities, RateLimitBucket::Read, i * 100),
            RateLimitDecision::Allow
        ));
    }
    match limiter.check(&identities, RateLimitBucket::Read, 30_000) {
        RateLimitDecision::Limited { retry_after_millis } => {
            let err = RateLimitError::new(retry_after_millis);
            assert!(err.retry_after_secs >= 1);
            assert!(err.retry_after_secs <= 60);
            assert_eq!(err.retry_after_secs, 30);
        }
        RateLimitDecision::Allow => panic!("request 301 must be limited"),
    }
}

#[test]
fn multiple_identities_take_longest_wait() {
    let mut limiter = RateLimiter::new(RateLimitConfig {
        read_limit: 1,
        mutation_limit: 1,
        window_millis: 10_000,
    });
    let a = vec![ip("198.51.100.1")];
    let b = vec![RateLimitIdentity::User("alice".to_string())];
    assert!(matches!(
        limiter.check(&a, RateLimitBucket::Read, 0),
        RateLimitDecision::Allow
    ));
    assert!(matches!(
        limiter.check(&b, RateLimitBucket::Read, 4_000),
        RateLimitDecision::Allow
    ));
    let both = vec![
        ip("198.51.100.1"),
        RateLimitIdentity::User("alice".to_string()),
    ];
    match limiter.check(&both, RateLimitBucket::Read, 5_000) {
        RateLimitDecision::Limited { retry_after_millis } => {
            assert_eq!(retry_after_millis, 9_000);
        }
        RateLimitDecision::Allow => panic!("both identities are exhausted"),
    }
}

#[test]
fn under_limit_identity_charged_even_on_denial() {
    let mut limiter = RateLimiter::new(RateLimitConfig {
        read_limit: 2,
        mutation_limit: 2,
        window_millis: 60_000,
    });
    let a = vec![ip("198.51.100.2")];
    assert!(matches!(
        limiter.check(&a, RateLimitBucket::Read, 0),
        RateLimitDecision::Allow
    ));
    assert!(matches!(
        limiter.check(&a, RateLimitBucket::Read, 1),
        RateLimitDecision::Allow
    ));
    let both = vec![
        ip("198.51.100.2"),
        RateLimitIdentity::User("bob".to_string()),
    ];
    assert!(matches!(
        limiter.check(&both, RateLimitBucket::Read, 2),
        RateLimitDecision::Limited { .. }
    ));
    // The fresh user identity was still charged its admission.
    assert_eq!(limiter.counters.len(), 2);
    assert_eq!(limiter.counters[1].count, 1);
}

#[test]
fn buckets_have_independent_budgets() {
    let mut limiter = RateLimiter::new(RateLimitConfig {
        read_limit: 1,
        mutation_limit: 1,
        window_millis: 60_000,
    });
    let identities = vec![ip("198.51.100.3")];
    assert!(matches!(
        limiter.check(&identities, RateLimitBucket::Read, 0),
        RateLimitDecision::Allow
    ));
    assert!(matches!(
        limiter.check(&identities, RateLimitBucket::Mutation, 1),
        RateLimitDecision::Allow
    ));
    assert!(matches!(
        limiter.check(&identities, RateLimitBucket::Read, 2),
        RateLimitDecision::Limited { .. }
    ));
}

#[test]
fn default_config_values() {
    let config = RateLimitConfig::default();
    assert_eq!(config.read_limit, 300);
    assert_eq!(config.mutation_limit, 60);
    assert_eq!(config.window_millis, 60_000);
}

#[test]
fn bucket_from_method() {
    assert_eq!(
        RateLimitBucket::from_method(HttpMethod::Get),
        RateLimitBucket::Read
    );
    assert_eq!(
        RateLimitBucket::from_method(HttpMethod::Head),
        RateLimitBucket::Read
    );
    assert_eq!(
        RateLimitBucket::from_method(HttpMethod::Post),
        RateLimitBucket::Mutation
    );
    assert_eq!(
        RateLimitBucket::from_method(HttpMethod::Put),
        RateLimitBucket::Mutation
    );
    assert_eq!(
        RateLimitBucket::from_method(HttpMethod::Delete),
        RateLimitBucket::Mutation
    );
    assert_eq!(
        RateLimitBucket::from_method(HttpMethod::Patch),
        RateLimitBucket::Mutation
    );
}

#[test]
fn retry_after_seconds_round_up_and_floor_one() {
    assert_eq!(RateLimitError::new(0).retry_after_secs, 1);
    assert_eq!(RateLimitError::new(1).retry_after_secs, 1);
    assert_eq!(RateLimitError::new(1_000).retry_after_secs, 1);
    assert_eq!(RateLimitError::new(1_001).retry_after_secs, 2);
    assert_eq!(RateLimitError::new(1_500).retry_after_secs, 2);
    assert_eq!(RateLimitError::new(60_000).retry_after_secs, 60);
    assert_eq!(RateLimitError::new(59_001).retry_after_secs, 60);
}

#[test]
fn sweep_drops_only_long_expired_counters() {
    let mut limiter = RateLimiter::new(RateLimitConfig {
        read_limit: 10,
        mutation_limit: 10,
        window_millis: 1_000,
    });
    let a = vec![ip("10.1.0.1")];
    let b = vec![ip("10.1.0.2")];
    limiter.check(&a, RateLimitBucket::Read, 0);
    limiter.check(&b, RateLimitBucket::Read, 1_500);
    limiter.check(&b, RateLimitBucket::Read, 1_600);
    assert_eq!(limiter.counters.len(), 2);

    // At 2100 the first window has been over for a whole further window;
    // the second is still live and keeps its count.
    limiter.sweep_expired(2_100);
    assert_eq!(limiter.counters.len(), 1);
    assert_eq!(limiter.counters[0].window_start, 1_500);
    assert_eq!(limiter.counters[0].count, 2);

    // One millisecond earlier, nothing would have been dropped yet.
    let mut limiter2 = RateLimiter::new(RateLimitConfig {
        read_limit: 10,
        mutation_limit: 10,
        window_millis: 1_000,
    });
    limiter2.check(&a, RateLimitBucket::Read, 0);
    limiter2.sweep_expired(1_999);
    assert_eq!(limiter2.counters.len(), 1);
}
