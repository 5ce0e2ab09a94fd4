use code_core::gateway_web::{
    broker_setting, dev_index_html, encode_cookie_value, enforce_auth, extract_bearer_token,
    dev_server_args, extract_cookie_token, gateway_bind_text, gateway_token, gateway_urls, hex_char,
    managed_dev_server, normalize_host, npm_candidates, request_host, request_scheme, settle_dev_port,
    token_cookie, BrokerSetting, GatewayAuthError, WebUiDevServer,
};

#[test]
fn bearer_token_needs_the_bearer_scheme() {
    assert_eq!(extract_bearer_token(Some("Bearer abc")), Some("abc".to_string()));
    assert_eq!(extract_bearer_token(Some("  bEaReR   abc  extra")), Some("abc".to_string()));
    assert_eq!(extract_bearer_token(Some("Basic abc")), None);
    assert_eq!(extract_bearer_token(Some("Bearer")), None);
    assert_eq!(extract_bearer_token(None), None);
}

#[test]
fn cookie_lookup_takes_the_first_matching_piece() {
    let header = "theme=dark; codeGatewayToken = s3cr3t ; codeGatewayToken=later";
    assert_eq!(extract_cookie_token(Some(header), "codeGatewayToken"), Some("s3cr3t".to_string()));
    assert_eq!(extract_cookie_token(Some("a=b=c"), "a"), Some("b=c".to_string()));
    assert_eq!(extract_cookie_token(Some("flag"), "flag"), Some(String::new()));
    assert_eq!(extract_cookie_token(Some("a=1"), "b"), None);
    assert_eq!(extract_cookie_token(None, "a"), None);
}

#[test]
fn auth_accepts_the_token_from_any_source() {
    let t = Some("tok");
    assert_eq!(enforce_auth(None, None, None, None, None), Ok(()));
    assert_eq!(enforce_auth(Some(""), None, None, None, None), Ok(()));
    assert_eq!(enforce_auth(t, Some("Bearer tok"), None, None, None), Ok(()));
    assert_eq!(enforce_auth(t, None, Some("tok"), None, None), Ok(()));
    assert_eq!(enforce_auth(t, None, None, Some("codeGatewayToken=tok"), None), Ok(()));
    assert_eq!(enforce_auth(t, None, None, None, Some("tok")), Ok(()));
    // A bearer header wins over the custom header, even when it is wrong.
    assert_eq!(
        enforce_auth(t, Some("Bearer nope"), Some("tok"), None, None),
        Err(GatewayAuthError::Unauthorized)
    );
    let err = enforce_auth(t, None, None, None, Some("nope")).unwrap_err();
    assert_eq!(err.status(), 401);
    assert_eq!(err.message(), "unauthorized");
}

#[test]
fn cookie_values_are_percent_encoded() {
    assert_eq!(encode_cookie_value("abc-_.~XYZ019"), "abc-_.~XYZ019");
    assert_eq!(encode_cookie_value("a b;c"), "a%20b%3Bc");
    assert_eq!(encode_cookie_value("é"), "%C3%A9");
    assert_eq!(hex_char(0), '0');
    assert_eq!(hex_char(11), 'B');
    assert_eq!(hex_char(0x1f), 'F');
    assert_eq!(token_cookie("a b"), "codeGatewayToken=a%20b; Path=/; SameSite=Lax");
}

#[test]
fn hosts_lose_their_port() {
    assert_eq!(normalize_host("example.com:8080"), "example.com");
    assert_eq!(normalize_host("[::1]:3210"), "[::1]");
    assert_eq!(normalize_host("::1"), "::1");
    assert_eq!(normalize_host("example.com"), "example.com");
    assert_eq!(request_host(Some(" proxy.example:443 , inner"), Some("local:1"), "fallback"), "proxy.example");
    assert_eq!(request_host(Some(" , x"), Some(" local:1 "), "fallback"), "local");
    assert_eq!(request_host(None, None, "fallback"), "fallback");
    assert_eq!(request_scheme(Some("https, http")), "https");
    assert_eq!(request_scheme(Some("http")), "http");
    assert_eq!(request_scheme(None), "http");
}

#[test]
fn dev_page_points_at_the_dev_server() {
    let html = dev_index_html("http://host:5173//");
    assert!(html.contains("src=\"http://host:5173/assets/@vite/client\""));
    assert!(html.contains("src=\"http://host:5173/assets/src/main.ts\""));
    assert!(html.starts_with("<!doctype html>"));
    let dev = WebUiDevServer::new("0.0.0.0".to_string(), 5173, false);
    assert_eq!(dev.origin_for("host", "https"), "https://host:5173");
}

#[test]
fn settings_pick_broker_bind_and_token() {
    assert_eq!(broker_setting(None, None), BrokerSetting::Disabled);
    assert_eq!(broker_setting(Some(" OFF "), Some("auto")), BrokerSetting::Disabled);
    assert_eq!(broker_setting(Some("0"), None), BrokerSetting::Disabled);
    assert_eq!(broker_setting(None, Some("Auto")), BrokerSetting::Auto);
    assert_eq!(broker_setting(Some(" /tmp/app.sock "), None), BrokerSetting::Path("/tmp/app.sock".to_string()));

    assert_eq!(gateway_bind_text(None, None), "127.0.0.1:3210");
    assert_eq!(gateway_bind_text(Some(" off "), Some("0.0.0.0:1")), "127.0.0.1:3210");
    assert_eq!(gateway_bind_text(None, Some(" 0.0.0.0:1 ")), "0.0.0.0:1");

    assert_eq!(gateway_token(Some("cli".to_string()), Some("env"), Some("file")), Some("cli".to_string()));
    assert_eq!(gateway_token(None, Some("  "), Some("file")), Some(String::new()));
    assert_eq!(gateway_token(None, Some(" env "), None), Some(" env ".to_string()));
    assert_eq!(gateway_token(None, None, Some(" stored\n")), Some("stored".to_string()));
    assert_eq!(gateway_token(None, None, Some("  ")), None);
}

#[test]
fn token_cookie_lets_the_browser_back_in() {
    let token = "3f2a9c1e-0b7d-4c55-9a21-6e8f0d4b2c77";
    let cookie = token_cookie(token);
    assert_eq!(cookie, format!("codeGatewayToken={token}; Path=/; SameSite=Lax"));
    let sent_back = cookie.split(';').next().unwrap();
    assert_eq!(enforce_auth(Some(token), None, None, Some(sent_back), None), Ok(()));
}

#[test]
fn gateway_urls_carry_the_token_in_the_fragment() {
    let (url, bootstrap) = gateway_urls("192.168.1.5", 7878, "a b/c");
    assert_eq!(url, "http://192.168.1.5:7878/");
    assert_eq!(bootstrap.as_deref(), Some("http://192.168.1.5:7878/#token=a%20b%2Fc"));
    let (url, bootstrap) = gateway_urls("[::1]", 80, "");
    assert_eq!(url, "http://[::1]:80/");
    assert_eq!(bootstrap, None);
}

#[test]
fn managed_dev_server_follows_what_was_found() {
    let restart = WebUiDevServer::new("127.0.0.1".to_string(), 5173, true);
    let moved = managed_dev_server(&restart, false, true, Some(5175)).expect("moved");
    assert_eq!(moved.port, 5175);
    assert_eq!(moved.bind_host, "127.0.0.1");
    assert!(moved.restart_on_start);
    assert!(managed_dev_server(&restart, false, true, None).is_none());
    assert_eq!(managed_dev_server(&restart, true, true, Some(9)).map(|d| d.port), Some(5173));
    assert_eq!(managed_dev_server(&restart, false, false, None).map(|d| d.port), Some(5173));

    let keep = WebUiDevServer::new("0.0.0.0".to_string(), 4000, false);
    assert!(managed_dev_server(&keep, false, true, Some(4001)).is_none());
    assert_eq!(managed_dev_server(&keep, false, false, None).map(|d| d.port), Some(4000));
}

#[test]
fn dev_server_moves_to_a_free_port() {
    let dev = WebUiDevServer::new("localhost".to_string(), 5173, false);
    assert_eq!(settle_dev_port(dev.clone(), Some(5180)).port, 5180);
    assert_eq!(settle_dev_port(dev.clone(), Some(5173)).port, 5173);
    let kept = settle_dev_port(dev, None);
    assert_eq!(kept.port, 5173);
    assert_eq!(kept.bind_host, "localhost");
}

#[test]
fn dev_server_is_started_with_its_host_and_port() {
    let dev = WebUiDevServer::new("0.0.0.0".to_string(), 5173, false);
    assert_eq!(
        dev_server_args(&dev),
        vec!["run", "dev", "--", "--cors", "--host", "0.0.0.0", "--port", "5173", "--strictPort"]
    );
    assert_eq!(npm_candidates(Some("/usr/local/bin/npm")), vec!["/usr/local/bin/npm", "/opt/homebrew/bin/npm"]);
    assert_eq!(npm_candidates(None), vec!["/opt/homebrew/bin/npm"]);
}
