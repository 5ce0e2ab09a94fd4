use code_core::oauth::{
    compute_expires_at_millis, compute_store_key, find_code_home_from_env, has_valid_oauth_tokens, load_oauth_tokens,
    load_valid_access_token, save_oauth_tokens, token_is_expired, OAuthStore, StoredOAuthTokens,
};

fn tokens(server: &str, url: &str, token: &str, expires_at: Option<u64>) -> StoredOAuthTokens {
    StoredOAuthTokens {
        server_name: server.to_string(),
        url: url.to_string(),
        client_id: "client".to_string(),
        access_token: token.to_string(),
        expires_at,
    }
}

#[test]
fn store_key_is_sha256_of_name_newline_url() {
    let key = compute_store_key("server", "https://example.com/mcp");
    assert_eq!(key.len(), 64);
    assert!(key.chars().all(|c| c.is_ascii_hexdigit() && !c.is_ascii_uppercase()));
    assert_ne!(key, compute_store_key("server", "https://example.com/other"));
    assert_eq!(
        compute_store_key("", ""),
        "01ba4719c80b6fe911b091a7c05124b64eeece964e09c058ef8f9805daca546b"
    );
}

#[test]
fn saved_tokens_load_back_and_replace_earlier_ones() {
    let mut store = OAuthStore::new();
    save_oauth_tokens(&mut store, tokens("a", "https://a", "t1", None));
    save_oauth_tokens(&mut store, tokens("b", "https://b", "t2", Some(10)));
    save_oauth_tokens(&mut store, tokens("a", "https://a", "t3", None));
    assert_eq!(store.entries().len(), 2);
    let loaded = load_oauth_tokens(&store, "a", "https://a").expect("tokens");
    assert_eq!(loaded.access_token, "t3");
    assert!(load_oauth_tokens(&store, "c", "https://c").is_none());
    let keys: Vec<&str> = store.entries().iter().map(|e| e.key.as_str()).collect();
    let mut sorted = keys.clone();
    sorted.sort();
    assert_eq!(keys, sorted);
}

#[test]
fn tokens_expire_within_the_refresh_skew() {
    assert!(!token_is_expired(None, 1_000_000));
    assert!(token_is_expired(Some(1_030_000), 1_000_000));
    assert!(!token_is_expired(Some(1_030_001), 1_000_000));
    assert!(token_is_expired(Some(u64::MAX), u64::MAX - 5));
    let mut store = OAuthStore::new();
    save_oauth_tokens(&mut store, tokens("a", "https://a", "live", Some(100_000)));
    assert_eq!(load_valid_access_token(&store, "a", "https://a", 10_000).as_deref(), Some("live"));
    assert!(load_valid_access_token(&store, "a", "https://a", 70_000).is_none());
    assert!(has_valid_oauth_tokens(&store, "a", "https://a", 0));
    assert!(!has_valid_oauth_tokens(&store, "b", "https://a", 0));
}

#[test]
fn expiry_adds_durations_and_saturates() {
    assert_eq!(compute_expires_at_millis(10, 500_000_000, 5, 600_000_000), Some(16_100));
    assert_eq!(compute_expires_at_millis(u64::MAX, 0, 1, 0), None);
    assert_eq!(compute_expires_at_millis(u64::MAX, 999_999_999, 0, 1), None);
    assert_eq!(compute_expires_at_millis(u64::MAX - 1, 0, 0, 0), Some(u64::MAX));
}

#[test]
fn code_home_is_the_first_non_blank_variable() {
    assert_eq!(find_code_home_from_env(Some("/a"), Some("/b")), Some("/a".to_string()));
    assert_eq!(find_code_home_from_env(Some("  "), Some("/b")), Some("/b".to_string()));
    assert_eq!(find_code_home_from_env(None, Some(" /b ")), Some(" /b ".to_string()));
    assert_eq!(find_code_home_from_env(Some(""), Some("\t")), None);
    assert_eq!(find_code_home_from_env(None, None), None);
}
