use authgate::auth::{AppError, AuthConfig, AuthService};
use authgate::throttle::LoginRateLimitConfig;
use authgate::two_factor::TwoFactorConfig;

fn config(enable_email_unlock: bool) -> AuthConfig {
    AuthConfig {
        login_rate_limit: LoginRateLimitConfig {
            delay_threshold: 3,
            lock_threshold: 5,
            base_delay_seconds: 60,
            lock_duration_seconds: 900,
            enable_email_unlock,
            unlock_token_ttl_seconds: 3_600,
            frontend_unlock_url: "https://example.test/unlock".to_string(),
        },
        two_factor: TwoFactorConfig {
            encryption_key: "0123456789abcdef0123456789abcdef0123456789abcdef0123456789abcdef"
                .to_string(),
            max_attempts: 3,
        },
    }
}

#[test]
fn fresh_pair_passes_the_gate() {
    let mut svc = AuthService::new(config(true));
    let r = svc.check_login_rate_limit(
        Some("u1"),
        "192.0.2.1",
        Some("u1@example.test"),
        Some("User One"),
        100,
    );
    assert!(r.is_ok());
    assert!(svc.outbox.is_empty());
}

#[test]
fn failures_return_invalid_credentials_until_the_delay() {
    let mut svc = AuthService::new(config(true));
    for t in 0..2u64 {
        let e = svc.handle_failed_password(
            "u1",
            "u1@example.test",
            "User One",
            "192.0.2.1",
            None,
            None,
            t,
        );
        assert!(matches!(e, AppError::InvalidCredentials));
    }
    let e = svc.handle_failed_password(
        "u1",
        "u1@example.test",
        "User One",
        "192.0.2.1",
        None,
        None,
        10,
    );
    match e {
        AppError::TooManyAttempts { retry_after_seconds, .. } => {
            assert_eq!(retry_after_seconds, 60)
        }
        other => panic!("third failure must delay, got {:?}", other),
    }
    // The pre-login check now refuses the pair with the remaining wait.
    let r = svc.check_login_rate_limit(Some("u1"), "192.0.2.1", None, None, 30);
    match r {
        Err(AppError::TooManyAttempts { retry_after_seconds, .. }) => {
            assert_eq!(retry_after_seconds, 40)
        }
        other => panic!("gate must refuse a delayed pair, got {:?}", other),
    }
}

#[test]
fn every_failure_is_audited() {
    let mut svc = AuthService::new(config(true));
    svc.handle_failed_password(
        "u1",
        "u1@example.test",
        "User One",
        "192.0.2.1",
        Some("203.0.113.7".to_string()),
        Some("agent".to_string()),
        5,
    );
    assert_eq!(svc.audit_log.entries.len(), 1);
    let entry = &svc.audit_log.entries[0];
    assert_eq!(entry.user_id.as_deref(), Some("u1"));
    assert_eq!(entry.event, "login_failed");
    assert!(!entry.success);
    assert_eq!(entry.reason, "invalid_password");
    assert_eq!(entry.client_ip.as_deref(), Some("203.0.113.7"));
    assert_eq!(entry.user_agent.as_deref(), Some("agent"));
}

#[test]
fn fifth_failure_locks_and_queues_a_notification() {
    let mut svc = AuthService::new(config(true));
    for t in 0..4u64 {
        svc.handle_failed_password(
            "u1",
            "u1@example.test",
            "User One",
            "192.0.2.1",
            None,
            None,
            t,
        );
    }
    assert!(svc.outbox.is_empty());
    let e = svc.handle_failed_password(
        "u1",
        "u1@example.test",
        "User One",
        "192.0.2.1",
        None,
        None,
        100,
    );
    match e {
        AppError::AccountLocked { locked_until, .. } => assert_eq!(locked_until, 1_000),
        other => panic!("fifth failure must lock, got {:?}", other),
    }
    assert_eq!(svc.outbox.len(), 1);
    let note = &svc.outbox[0];
    assert_eq!(note.email, "u1@example.test");
    assert_eq!(note.name, "User One");
    assert_eq!(note.user_id, "u1");
    assert_eq!(note.unlock_url, "https://example.test/unlock");
    assert_eq!(svc.unlock_tokens.tokens.len(), 1);
    assert_eq!(note.token, svc.unlock_tokens.tokens[0].token);
    assert_eq!(svc.unlock_tokens.tokens[0].expires_at, 100 + 3_600);
}

#[test]
fn no_notification_when_email_unlock_is_off() {
    let mut svc = AuthService::new(config(false));
    for t in 0..5u64 {
        svc.handle_failed_password(
            "u1",
            "u1@example.test",
            "User One",
            "192.0.2.1",
            None,
            None,
            t,
        );
    }
    assert!(svc.outbox.is_empty());
    assert!(svc.unlock_tokens.tokens.is_empty());
}

#[test]
fn gate_on_locked_account_mints_token_when_caller_knows_the_user() {
    let mut svc = AuthService::new(config(true));
    for t in 0..5u64 {
        svc.handle_failed_password(
            "u1",
            "u1@example.test",
            "User One",
            "192.0.2.1",
            None,
            None,
            t,
        );
    }
    let minted_before = svc.unlock_tokens.tokens.len();
    let r = svc.check_login_rate_limit(
        Some("u1"),
        "192.0.2.1",
        Some("u1@example.test"),
        Some("User One"),
        10,
    );
    assert!(matches!(r, Err(AppError::AccountLocked { .. })));
    assert_eq!(svc.unlock_tokens.tokens.len(), minted_before + 1);
    // Without the email, the check refuses but cannot notify.
    let r2 = svc.check_login_rate_limit(Some("u1"), "192.0.2.1", None, None, 11);
    assert!(matches!(r2, Err(AppError::AccountLocked { .. })));
    assert_eq!(svc.unlock_tokens.tokens.len(), minted_before + 1);
}

#[test]
fn redeeming_the_token_reopens_the_account() {
    let mut svc = AuthService::new(config(true));
    for t in 0..5u64 {
        svc.handle_failed_password(
            "u1",
            "u1@example.test",
            "User One",
            "192.0.2.1",
            None,
            None,
            t,
        );
    }
    let token = svc.outbox[0].token.clone();
    assert!(svc
        .check_login_rate_limit(Some("u1"), "192.0.2.1", None, None, 10)
        .is_err());
    assert_eq!(svc.redeem_unlock_token(&token, 20), Some("u1".to_string()));
    assert!(svc
        .check_login_rate_limit(Some("u1"), "192.0.2.1", None, None, 21)
        .is_ok());
    // The token is spent: a second redemption is invalid.
    assert_eq!(svc.redeem_unlock_token(&token, 22), None);
}
