use authgate::auth::{AppError, AuthConfig, AuthService};
use authgate::throttle::LoginRateLimitConfig;
use authgate::two_factor::{TwoFactorAuth, TwoFactorConfig, TwoFactorGuard};

fn config() -> AuthConfig {
    AuthConfig {
        login_rate_limit: LoginRateLimitConfig {
            delay_threshold: 3,
            lock_threshold: 5,
            base_delay_seconds: 60,
            lock_duration_seconds: 900,
            enable_email_unlock: true,
            unlock_token_ttl_seconds: 3_600,
            frontend_unlock_url: "https://example.test/unlock".to_string(),
        },
        two_factor: TwoFactorConfig {
            encryption_key: "0123456789abcdef0123456789abcdef0123456789abcdef0123456789abcdef"
                .to_string(),
            max_attempts: 3,
        },
    }
}

fn candidates() -> Vec<String> {
    vec![
        "111111".to_string(),
        "222222".to_string(),
        "333333".to_string(),
    ]
}

#[test]
fn parse_encryption_key_accepts_64_hex_digits() {
    let cfg = TwoFactorConfig {
        encryption_key: "00ff00ff00ff00ff00ff00ff00ff00ff00ff00ff00ff00ff00ff00ff00ff00ff"
            .to_string(),
        max_attempts: 3,
    };
    let key = cfg.parse_encryption_key().expect("valid key");
    assert_eq!(key.len(), 32);
    assert_eq!(key[0], 0x00);
    assert_eq!(key[1], 0xff);
    assert_eq!(key[30], 0x00);
    assert_eq!(key[31], 0xff);
}

#[test]
fn parse_encryption_key_mixed_case_exact_bytes() {
    let cfg = TwoFactorConfig {
        encryption_key: "DEADbeef00112233445566778899aAbBcCdDeEfF00112233445566778899AABB"
            .to_string(),
        max_attempts: 3,
    };
    let key = cfg.parse_encryption_key().expect("valid key");
    assert_eq!(key[0], 0xde);
    assert_eq!(key[1], 0xad);
    assert_eq!(key[2], 0xbe);
    assert_eq!(key[3], 0xef);
    assert_eq!(key[4], 0x00);
}

#[test]
fn parse_encryption_key_rejects_bad_length_and_digits() {
    let short = TwoFactorConfig {
        encryption_key: "0123".to_string(),
        max_attempts: 3,
    };
    assert!(short.parse_encryption_key().is_err());
    let bad = TwoFactorConfig {
        encryption_key: "z123456789abcdef0123456789abcdef0123456789abcdef0123456789abcdef"
            .to_string(),
        max_attempts: 3,
    };
    assert!(bad.parse_encryption_key().is_err());
}

#[test]
fn correct_totp_code_succeeds_without_backup() {
    let mut svc = AuthService::new(config());
    let r = svc.verify_two_factor("u1", "222222", &candidates(), None, None);
    assert_eq!(r.expect("code accepted"), false);
}

#[test]
fn backup_code_succeeds_and_reports_it() {
    let mut svc = AuthService::new(config());
    svc.two_factor
        .set_backup_codes("u1", vec!["backup-one".to_string(), "backup-two".to_string()]);
    let r = svc.verify_two_factor("u1", "backup-one", &candidates(), None, None);
    assert_eq!(r.expect("backup code accepted"), true);
    // The code was consumed.
    assert_eq!(svc.two_factor.entries[0].backup_codes.len(), 1);
    assert_eq!(svc.two_factor.entries[0].backup_codes[0], "backup-two");
}

#[test]
fn backup_code_cannot_be_reused() {
    let mut svc = AuthService::new(config());
    svc.two_factor
        .set_backup_codes("u1", vec!["backup-one".to_string()]);
    assert_eq!(
        svc.verify_two_factor("u1", "backup-one", &candidates(), None, None)
            .expect("first use accepted"),
        true
    );
    let again = svc.verify_two_factor("u1", "backup-one", &candidates(), None, None);
    assert!(matches!(again, Err(AppError::BadRequest(_))));
}

#[test]
fn wrong_code_counts_failure_and_writes_audit() {
    let mut svc = AuthService::new(config());
    let r = svc.verify_two_factor(
        "u1",
        "000000",
        &candidates(),
        Some("192.0.2.9".to_string()),
        Some("test-agent".to_string()),
    );
    assert!(matches!(r, Err(AppError::BadRequest(_))));
    assert_eq!(svc.two_factor.entries[0].failures, 1);
    assert_eq!(svc.audit_log.entries.len(), 1);
    let entry = &svc.audit_log.entries[0];
    assert_eq!(entry.user_id.as_deref(), Some("u1"));
    assert_eq!(entry.event, "login_failed");
    assert!(!entry.success);
    assert_eq!(entry.reason, "invalid_2fa_code");
    assert_eq!(entry.client_ip.as_deref(), Some("192.0.2.9"));
    assert_eq!(entry.user_agent.as_deref(), Some("test-agent"));
}

#[test]
fn exceeding_the_budget_rejects_even_a_correct_code() {
    let mut svc = AuthService::new(config());
    for _ in 0..3 {
        let r = svc.verify_two_factor("u1", "000000", &candidates(), None, None);
        assert!(r.is_err());
    }
    // Three failures reached the budget: a correct code is rejected with the
    // throttling message, and the counter is untouched.
    let r = svc.verify_two_factor("u1", "222222", &candidates(), None, None);
    match r {
        Err(AppError::BadRequest(m)) => {
            assert_eq!(m, "Too many failed attempts. Please try again later.")
        }
        other => panic!("expected the throttling error, got {:?}", other),
    }
    assert_eq!(svc.two_factor.entries[0].failures, 3);
}

#[test]
fn success_resets_the_failure_count() {
    let mut svc = AuthService::new(config());
    svc.verify_two_factor("u1", "000000", &candidates(), None, None)
        .expect_err("wrong code fails");
    svc.verify_two_factor("u1", "000000", &candidates(), None, None)
        .expect_err("wrong code fails");
    assert_eq!(svc.two_factor.entries[0].failures, 2);
    assert_eq!(
        svc.verify_two_factor("u1", "111111", &candidates(), None, None)
            .expect("correct code accepted"),
        false
    );
    assert_eq!(svc.two_factor.entries[0].failures, 0);
}

#[test]
fn malformed_key_is_a_configuration_error() {
    let mut cfg = config();
    cfg.two_factor.encryption_key = "not-hex".to_string();
    let mut svc = AuthService::new(cfg);
    let r = svc.verify_two_factor("u1", "111111", &candidates(), None, None);
    match r {
        Err(AppError::BadRequest(m)) => {
            assert_eq!(m, "Invalid two-factor encryption key configuration.")
        }
        other => panic!("expected a configuration error, got {:?}", other),
    }
}

#[test]
fn guard_rate_limit_thresholds() {
    let mut guard = TwoFactorGuard::new();
    assert!(!guard.check_rate_limit("u1", 2));
    guard.record_failed_attempt("u1");
    assert!(!guard.check_rate_limit("u1", 2));
    guard.record_failed_attempt("u1");
    assert!(guard.check_rate_limit("u1", 2));
    guard.reset_rate_limit("u1");
    assert!(!guard.check_rate_limit("u1", 2));
    assert!(guard.check_rate_limit("anyone", 0));
}

#[test]
fn begin_two_factor_hands_out_the_decryption_work() {
    let svc = AuthService::new(config());
    let record = TwoFactorAuth {
        encrypted_secret: vec![1, 2, 3, 4],
        encryption_nonce: vec![9, 9, 9],
    };
    let work = svc.begin_two_factor("u1", &record).expect("budget and key are fine");
    assert_eq!(work.key.len(), 32);
    assert_eq!(work.key[0], 0x01);
    assert_eq!(work.key[1], 0x23);
    assert_eq!(work.nonce, vec![9, 9, 9]);
    assert_eq!(work.ciphertext, vec![1, 2, 3, 4]);
}

#[test]
fn begin_two_factor_rejects_when_over_budget() {
    let mut svc = AuthService::new(config());
    for _ in 0..3 {
        let _ = svc.verify_two_factor("u1", "000000", &candidates(), None, None);
    }
    let record = TwoFactorAuth {
        encrypted_secret: Vec::new(),
        encryption_nonce: Vec::new(),
    };
    assert!(svc.begin_two_factor("u1", &record).is_err());
}
