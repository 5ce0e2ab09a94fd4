use code_core::account_switching::{
    is_usage_limit_reached_type, next_account_after_rate_limit, preferred_account_for_new_session,
    select_next_account_id, usage_reset_blocked_until, AuthMode, RateLimitReachedType, RateLimitSwitchState,
    StoredAccount, StoredRateLimitSnapshot, UsageLimits,
};

const HOUR: i64 = 3_600;

fn fixed_now() -> i64 {
    1_766_404_800
}

fn chatgpt(id: &str) -> StoredAccount {
    StoredAccount { id: id.to_string(), mode: AuthMode::ChatGPT, has_tokens: true, has_api_key: false }
}

fn api_key(id: &str) -> StoredAccount {
    StoredAccount { id: id.to_string(), mode: AuthMode::ApiKey, has_tokens: false, has_api_key: true }
}

/// A report taken at `observed_at` with both windows at `used` percent
/// (the rank is the percentage in tenths) and resets after the given
/// seconds.
fn report(
    id: &str,
    used: i64,
    primary_reset_after: Option<i64>,
    secondary_reset_after: Option<i64>,
    observed_at: i64,
) -> StoredRateLimitSnapshot {
    StoredRateLimitSnapshot {
        account_id: id.to_string(),
        snapshot: Some(UsageLimits {
            rate_limit_reached_type: None,
            primary_exhausted: used >= 1_000,
            secondary_exhausted: used >= 1_000,
            used_percent_rank: Some(used),
        }),
        primary_next_reset_at: primary_reset_after.map(|s| observed_at + s),
        secondary_next_reset_at: secondary_reset_after.map(|s| observed_at + s),
        last_usage_limit_hit_at: None,
    }
}

/// A usage limit hint noted at `at`, with the reset it announced.
fn hint(id: &str, reset_in: Option<i64>, at: i64) -> StoredRateLimitSnapshot {
    StoredRateLimitSnapshot {
        account_id: id.to_string(),
        snapshot: None,
        primary_next_reset_at: reset_in.map(|s| at + s),
        secondary_next_reset_at: None,
        last_usage_limit_hit_at: Some(at),
    }
}

#[test]
fn selects_another_chatgpt_account_when_available() {
    let accounts = vec![chatgpt("acct-a"), chatgpt("acct-b")];
    let mut state = RateLimitSwitchState::default();
    state.mark_limited("acct-a", AuthMode::ChatGPT, None);
    let next = select_next_account_id(&state, false, fixed_now(), Some("acct-a"), &accounts, &vec![]);
    assert_eq!(next.as_deref(), Some("acct-b"));
}

#[test]
fn skips_chatgpt_accounts_blocked_by_reset_time() {
    let accounts = vec![chatgpt("acct-a"), chatgpt("acct-b")];
    let now = fixed_now();
    let snapshots = vec![hint("acct-b", Some(HOUR), now)];
    let mut state = RateLimitSwitchState::default();
    state.mark_limited("acct-a", AuthMode::ChatGPT, None);
    let next = select_next_account_id(&state, false, now, Some("acct-a"), &accounts, &snapshots);
    assert!(next.is_none());
}

#[test]
fn skips_chatgpt_accounts_blocked_by_hint_without_reset() {
    let accounts = vec![chatgpt("acct-a"), chatgpt("acct-b")];
    let now = fixed_now() + HOUR;
    let snapshots = vec![hint("acct-b", None, now + HOUR)];
    let mut state = RateLimitSwitchState::default();
    state.mark_limited("acct-a", AuthMode::ChatGPT, None);
    let next = select_next_account_id(&state, false, now, Some("acct-a"), &accounts, &snapshots);
    assert!(next.is_none());
}

#[test]
fn typed_usage_limit_snapshot_blocks_only_that_account() {
    let accounts = vec![chatgpt("acct-a"), chatgpt("acct-b"), chatgpt("acct-c")];
    let now = fixed_now();
    let mut limited = report("acct-b", 950, Some(600), Some(3_600), now);
    limited.snapshot.as_mut().unwrap().rate_limit_reached_type =
        Some(RateLimitReachedType::WorkspaceMemberUsageLimitReached);
    let available = report("acct-c", 200, None, None, now);
    let snapshots = vec![limited, available];
    let mut state = RateLimitSwitchState::default();
    state.mark_limited("acct-a", AuthMode::ChatGPT, None);
    let next = select_next_account_id(&state, false, now, Some("acct-a"), &accounts, &snapshots);
    assert_eq!(next.as_deref(), Some("acct-c"));
}

#[test]
fn rate_limit_switch_prefers_candidate_with_earliest_weekly_reset() {
    let accounts = vec![chatgpt("acct-a"), chatgpt("acct-b"), chatgpt("acct-c")];
    let now = fixed_now();
    let snapshots = vec![
        report("acct-b", 50, Some(600), Some(7_200), now),
        report("acct-c", 500, Some(600), Some(3_600), now),
    ];
    let mut state = RateLimitSwitchState::default();
    state.mark_limited("acct-a", AuthMode::ChatGPT, None);
    let next = select_next_account_id(&state, false, now, Some("acct-a"), &accounts, &snapshots);
    assert_eq!(next.as_deref(), Some("acct-c"));
}

#[test]
fn new_session_switches_to_earliest_weekly_reset_account() {
    let accounts = vec![chatgpt("acct-a"), chatgpt("acct-b")];
    let now = fixed_now();
    let snapshots = vec![
        report("acct-a", 100, Some(600), Some(7_200), now),
        report("acct-b", 800, Some(600), Some(3_600), now),
    ];
    let switched = preferred_account_for_new_session(Some("acct-a"), &accounts, &snapshots, now);
    assert_eq!(switched.as_deref(), Some("acct-b"));
}

#[test]
fn new_session_does_not_switch_from_api_key_account() {
    let accounts = vec![api_key("api-key"), chatgpt("acct-chatgpt")];
    let now = fixed_now();
    let snapshots = vec![report("acct-chatgpt", 200, Some(600), Some(3_600), now)];
    let switched = preferred_account_for_new_session(Some("api-key"), &accounts, &snapshots, now);
    assert!(switched.is_none());
}

#[test]
fn temporary_block_expires_and_allows_account_again() {
    let accounts = vec![chatgpt("acct-a"), chatgpt("acct-b")];
    let now = fixed_now();
    let mut state = RateLimitSwitchState::default();
    state.mark_limited("acct-a", AuthMode::ChatGPT, Some(now + HOUR));
    let next = select_next_account_id(&state, false, now, Some("acct-b"), &accounts, &vec![]);
    assert!(next.is_none());
    let next = select_next_account_id(&state, false, now + 2 * HOUR, Some("acct-b"), &accounts, &vec![]);
    assert_eq!(next.as_deref(), Some("acct-a"));
}

#[test]
fn preferred_reset_uses_primary_when_secondary_is_stale() {
    let accounts = vec![chatgpt("acct-a"), chatgpt("acct-b"), chatgpt("acct-c")];
    let now = fixed_now();
    let snapshots = vec![
        report("acct-b", 500, Some(1_800), Some(1_800), now - HOUR),
        report("acct-c", 50, Some(600), Some(7_200), now),
        report("acct-b", 500, Some(1_800), Some(1), now - 2),
    ];
    let mut state = RateLimitSwitchState::default();
    state.mark_limited("acct-a", AuthMode::ChatGPT, None);
    let next = select_next_account_id(&state, false, now, Some("acct-a"), &accounts, &snapshots);
    assert_eq!(next.as_deref(), Some("acct-b"));
}

#[test]
fn new_limit_without_reset_consumes_expired_temporary_block() {
    let accounts = vec![chatgpt("acct-a"), chatgpt("acct-b"), chatgpt("acct-c")];
    let now = fixed_now();
    let snapshots = vec![
        report("acct-a", 300, Some(600), Some(1_800), now + 2 * HOUR),
        report("acct-c", 100, Some(600), Some(7_200), now + 2 * HOUR),
    ];
    let mut state = RateLimitSwitchState::default();
    state.mark_limited("acct-a", AuthMode::ChatGPT, Some(now + HOUR));
    let next = select_next_account_id(&state, false, now + 2 * HOUR, Some("acct-b"), &accounts, &snapshots);
    assert_eq!(next.as_deref(), Some("acct-a"));
    state.mark_limited("acct-a", AuthMode::ChatGPT, None);
    let next = select_next_account_id(&state, false, now + 2 * HOUR, Some("acct-b"), &accounts, &snapshots);
    assert_eq!(next.as_deref(), Some("acct-c"));
}

#[test]
fn api_key_fallback_requires_all_chatgpt_limited() {
    let accounts = vec![chatgpt("acct-a"), chatgpt("acct-b"), api_key("api-key")];
    let now = fixed_now();
    let mut state = RateLimitSwitchState::default();
    state.mark_limited("acct-a", AuthMode::ChatGPT, None);
    let next = select_next_account_id(&state, true, now, Some("acct-a"), &accounts, &vec![]);
    assert_eq!(next.as_deref(), Some("acct-b"));
    state.mark_limited("acct-b", AuthMode::ChatGPT, None);
    let next = select_next_account_id(&state, true, now, Some("acct-b"), &accounts, &vec![]);
    assert_eq!(next.as_deref(), Some("api-key"));
}

#[test]
fn prefers_current_account_override_over_active_account() {
    let accounts = vec![chatgpt("acct-a"), chatgpt("acct-b")];
    let mut state = RateLimitSwitchState::default();
    state.mark_limited("acct-b", AuthMode::ChatGPT, None);
    let next = select_next_account_id(&state, false, fixed_now(), Some("acct-b"), &accounts, &vec![]);
    assert_eq!(next.as_deref(), Some("acct-a"));
}

#[test]
fn switches_active_account_on_usage_limit() {
    let accounts = vec![chatgpt("acct-a"), chatgpt("acct-b")];
    let mut state = RateLimitSwitchState::default();
    let next = next_account_after_rate_limit(
        &mut state,
        false,
        fixed_now(),
        "acct-a",
        AuthMode::ChatGPT,
        None,
        &accounts,
        &vec![],
    );
    assert_eq!(next.as_deref(), Some("acct-b"));
    assert!(state.has_tried("acct-a"));
    assert!(state.is_limited("acct-a"));
}

#[test]
fn mark_limited_never_shortens_a_block() {
    let mut state = RateLimitSwitchState::default();
    state.mark_limited("acct-a", AuthMode::ApiKey, Some(100));
    state.mark_limited("acct-a", AuthMode::ApiKey, Some(50));
    assert_eq!(state.blocked_until("acct-a"), Some(100));
    assert!(!state.is_limited("acct-a"));
    state.mark_limited("acct-a", AuthMode::ApiKey, Some(150));
    assert_eq!(state.blocked_until("acct-a"), Some(150));
    state.mark_limited("acct-a", AuthMode::ApiKey, None);
    assert_eq!(state.blocked_until("acct-a"), None);
}

#[test]
fn usage_block_takes_later_reset_of_affected_windows() {
    let mut r = report("acct-a", 1_000, Some(600), Some(3_600), 0);
    assert_eq!(usage_reset_blocked_until(&r), Some(3_600));
    r.snapshot.as_mut().unwrap().secondary_exhausted = false;
    assert_eq!(usage_reset_blocked_until(&r), Some(600));
    let idle = report("acct-a", 10, Some(600), Some(3_600), 0);
    assert_eq!(usage_reset_blocked_until(&idle), None);
    assert!(is_usage_limit_reached_type(RateLimitReachedType::RateLimitReached));
    assert!(!is_usage_limit_reached_type(RateLimitReachedType::Other));
}

#[test]
fn switch_never_picks_the_current_account() {
    let accounts = vec![chatgpt("acct-a")];
    let state = RateLimitSwitchState::default();
    assert!(select_next_account_id(&state, true, fixed_now(), Some("acct-a"), &accounts, &vec![]).is_none());
}
