use authgate::unlock::UnlockTokenStore;

#[test]
fn issued_token_is_opaque_and_fresh() {
    let mut store = UnlockTokenStore::new();
    let token = store.issue_unlock_token("u1", 1_000, 3_600);
    assert_eq!(token.len(), 36);
    assert_eq!(store.tokens.len(), 1);
    assert_eq!(store.tokens[0].user_id, "u1");
    assert_eq!(store.tokens[0].expires_at, 4_600);
    assert!(!store.tokens[0].used);
    // A second token is a fresh draw.
    let token2 = store.issue_unlock_token("u1", 1_000, 3_600);
    assert_ne!(token, token2);
}

#[test]
fn valid_token_redeems_once() {
    let mut store = UnlockTokenStore::new();
    let token = store.issue_unlock_token("u1", 0, 3_600);
    assert_eq!(store.redeem(&token, 100), Some("u1".to_string()));
    assert!(store.tokens[0].used);
    // The same token a second time is invalid.
    assert_eq!(store.redeem(&token, 101), None);
}

#[test]
fn expired_token_is_invalid() {
    let mut store = UnlockTokenStore::new();
    let token = store.issue_unlock_token("u1", 0, 3_600);
    assert_eq!(store.redeem(&token, 3_600), None);
    assert!(!store.tokens[0].used);
    // Just before expiry it still works.
    assert_eq!(store.redeem(&token, 3_599), Some("u1".to_string()));
}

#[test]
fn unknown_token_is_invalid() {
    let mut store = UnlockTokenStore::new();
    store.issue_unlock_token("u1", 0, 3_600);
    assert_eq!(store.redeem("not-a-real-token", 1), None);
    assert!(!store.tokens[0].used);
}
