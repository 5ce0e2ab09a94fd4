use code_core::oauth_callback::{
    callback_bind_addr, callback_redirect_uri, callback_response, login_timeout_secs,
    parse_oauth_callback, resolve_callback_port, CallbackOutcome, OauthCallbackResult,
};

fn success(code: &str, state: &str) -> CallbackOutcome {
    CallbackOutcome::Success(OauthCallbackResult { code: code.to_string(), state: state.to_string() })
}

#[test]
fn callback_with_code_and_state_succeeds() {
    assert_eq!(parse_oauth_callback("/callback?code=abc&state=xyz"), success("abc", "xyz"));
    assert_eq!(parse_oauth_callback("/callback?state=s%2B1&extra&code=a+b"), success("a+b", "s+1"));
    assert_eq!(parse_oauth_callback("/callback?code=1&code=2&state=s"), success("2", "s"));
}

#[test]
fn callback_errors_and_invalid_requests() {
    assert_eq!(
        parse_oauth_callback("/callback?error_description=access%20denied"),
        CallbackOutcome::Error("access denied".to_string())
    );
    assert_eq!(parse_oauth_callback("/callback"), CallbackOutcome::Invalid);
    assert_eq!(parse_oauth_callback("/other?code=a&state=b"), CallbackOutcome::Invalid);
    // A value that does not decode to UTF-8 is skipped.
    assert_eq!(parse_oauth_callback("/callback?code=%FF&state=b"), CallbackOutcome::Invalid);
    assert_eq!(parse_oauth_callback("/callback?code=a%ZZ&state=b"), success("a%ZZ", "b"));
}

#[test]
fn callback_answers_the_browser() {
    assert_eq!(
        callback_response(&success("a", "b")),
        (200, "Authentication complete. You may close this window.".to_string())
    );
    assert_eq!(
        callback_response(&CallbackOutcome::Error("nope".to_string())),
        (400, "OAuth error: nope".to_string())
    );
    assert_eq!(callback_response(&CallbackOutcome::Invalid), (400, "Invalid OAuth callback".to_string()));
}

#[test]
fn callback_port_zero_is_refused() {
    assert_eq!(resolve_callback_port(None), Ok(None));
    assert_eq!(resolve_callback_port(Some(8123)), Ok(Some(8123)));
    assert_eq!(
        resolve_callback_port(Some(0)),
        Err("invalid callback port `0`: port must be between 1 and 65535".to_string())
    );
}

#[test]
fn callback_server_addresses() {
    assert_eq!(callback_bind_addr(Some(8765)), "127.0.0.1:8765");
    assert_eq!(callback_bind_addr(None), "127.0.0.1:0");
    assert_eq!(callback_redirect_uri("127.0.0.1", false, 49152), "http://127.0.0.1:49152/callback");
    assert_eq!(callback_redirect_uri("::1", true, 8080), "http://[::1]:8080/callback");
}

#[test]
fn login_waits_at_least_a_second() {
    assert_eq!(login_timeout_secs(None), 300);
    assert_eq!(login_timeout_secs(Some(0)), 1);
    assert_eq!(login_timeout_secs(Some(-5)), 1);
    assert_eq!(login_timeout_secs(Some(42)), 42);
}
