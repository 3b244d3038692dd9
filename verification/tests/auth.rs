use soncollection::auth::{
    auth_url, callback_url, check_state, clear_flow_set_cookie, cookie_header_parts, cookie_value, flow_set_cookie,
    login_return_to, logout_set_cookie, pkce_challenge, random_url_safe, read_callback, read_sealed, secure_cookies,
    session_secret_ok, session_set_cookie, CallbackQuery, FlowState, LoginQuery, FLOW_COOKIE, SESSION_COOKIE,
};

#[test]
fn pkce_challenge_is_the_rfc_7636_example() {
    assert_eq!(
        pkce_challenge("dBjftJeZ4CVP-mB92K27uhbUJU1p1r_wW1gFWFOEjXk"),
        "E9Melhoa2OwvFrEMTJguCHaoeK1t8URWbuGJSstw-cM"
    );
}

#[test]
fn random_values_are_url_safe_and_the_right_length() {
    let v = random_url_safe(64);
    assert_eq!(v.len(), 86);
    assert!(v.chars().all(|c| c.is_ascii_alphanumeric() || c == '-' || c == '_'));
    assert_eq!(random_url_safe(32).len(), 43);
    assert_ne!(random_url_safe(32), random_url_safe(32));
}

#[test]
fn sessions_need_a_long_enough_secret() {
    assert!(!session_secret_ok("short"));
    assert!(session_secret_ok(&"x".repeat(32)));
    assert!(!session_secret_ok(&"x".repeat(31)));
}

#[test]
fn cookies_are_secure_only_over_https() {
    assert!(secure_cookies(Some("https://soncollection.com")));
    assert!(!secure_cookies(Some("http://127.0.0.1:3100")));
    assert!(!secure_cookies(None));
}

#[test]
fn the_callback_is_under_the_origin() {
    assert_eq!(callback_url(Some("https://soncollection.com/")), "https://soncollection.com/auth/google/callback");
    assert_eq!(callback_url(None), "http://127.0.0.1:3100/auth/google/callback");
}

#[test]
fn the_consent_url_asks_for_a_pkce_code() {
    let url = auth_url("cid", "https://s/auth/google/callback", "st", "ch");
    assert_eq!(
        url,
        "https://accounts.google.com/o/oauth2/v2/auth?client_id=cid&redirect_uri=https://s/auth/google/callback\
         &response_type=code&scope=openid%20email%20profile&state=st&code_challenge=ch\
         &code_challenge_method=S256&access_type=online&prompt=select_account"
    );
}

#[test]
fn a_mismatched_state_aborts_the_login() {
    let flow = FlowState { pkce_verifier: "v".into(), csrf_state: "abc".into(), return_to: "/".into() };
    assert!(check_state(&flow, "abc").is_ok());
    assert_eq!(check_state(&flow, "abd").unwrap_err(), "state mismatch \u{2014} possible CSRF, aborting login");
}

#[test]
fn a_login_only_returns_to_this_site() {
    assert_eq!(login_return_to(LoginQuery { return_to: Some("/son/x".into()) }), "/son/x");
    assert_eq!(login_return_to(LoginQuery { return_to: Some("https://evil".into()) }), "/");
    assert_eq!(login_return_to(LoginQuery { return_to: None }), "/");
}

#[test]
fn the_callback_query_decides_the_way_on() {
    let q = |code: Option<&str>, state: Option<&str>, error: Option<&str>| CallbackQuery {
        code: code.map(String::from),
        state: state.map(String::from),
        error: error.map(String::from),
    };
    assert_eq!(read_callback(q(Some("c"), Some("s"), Some("access_denied"))), Err("/?login_error=declined"));
    assert_eq!(read_callback(q(Some("c"), None, None)), Err("/?login_error=missing_params"));
    assert_eq!(read_callback(q(Some("c"), Some("s"), None)), Ok(("c".to_string(), "s".to_string())));
}

#[test]
fn a_cookie_header_splits_into_trimmed_parts() {
    assert_eq!(cookie_header_parts("a=1; b=2 ;c=3"), vec!["a=1", "b=2", "c=3"]);
    assert_eq!(cookie_header_parts(""), vec![""]);
}

const SECRET: &str = "0123456789abcdef0123456789abcdef-session";

/// The `name=value` a browser sends back for a `Set-Cookie` line.
fn pair(line: &str) -> &str {
    line.split(';').next().unwrap()
}

#[test]
fn a_session_cookie_reads_back_as_its_user() {
    let line = session_set_cookie(SECRET, "user-42", Some("https://soncollection.com"));
    assert!(line.starts_with("session="));
    assert!(line.ends_with("; HttpOnly; SameSite=Lax; Secure; Path=/; Max-Age=31536000"), "{line}");
    assert!(!line.contains("user-42"));
    assert_eq!(read_sealed(SECRET, Some(pair(&line)), SESSION_COOKIE).as_deref(), Some("user-42"));
    // Among other cookies, too.
    let header = format!("theme=dark; {}; x=1", pair(&line));
    assert_eq!(read_sealed(SECRET, Some(&header), SESSION_COOKIE).as_deref(), Some("user-42"));
}

#[test]
fn a_cookie_sealed_under_another_secret_or_tampered_with_does_not_open() {
    let line = session_set_cookie(SECRET, "user-42", None);
    assert!(line.ends_with("; HttpOnly; SameSite=Lax; Path=/; Max-Age=31536000"), "{line}");
    let other = "another secret that is long enough!!";
    assert_eq!(read_sealed(other, Some(pair(&line)), SESSION_COOKIE), None);
    // Sealed under one name, presented under another.
    let renamed = pair(&line).replacen("session=", "oauth_flow=", 1);
    assert_eq!(read_sealed(SECRET, Some(&renamed), FLOW_COOKIE), None);
    let mut tampered = pair(&line).to_string();
    tampered.push('A');
    assert_eq!(read_sealed(SECRET, Some(&tampered), SESSION_COOKIE), None);
    assert_eq!(read_sealed(SECRET, Some("session=plain"), SESSION_COOKIE), None);
    assert_eq!(read_sealed(SECRET, None, SESSION_COOKIE), None);
}

#[test]
fn the_flow_cookie_lasts_ten_minutes_and_reads_back() {
    let line = flow_set_cookie(SECRET, "{\"csrf_state\":\"s\"}", Some("http://127.0.0.1:3100"));
    assert!(line.starts_with("oauth_flow="));
    assert!(line.ends_with("; HttpOnly; SameSite=Lax; Path=/; Max-Age=600"), "{line}");
    assert_eq!(read_sealed(SECRET, Some(pair(&line)), FLOW_COOKIE).as_deref(), Some("{\"csrf_state\":\"s\"}"));
}

#[test]
fn removal_lines_empty_the_cookie_and_expire_it() {
    let flow = clear_flow_set_cookie();
    assert!(flow.starts_with("oauth_flow=; Path=/; Max-Age=0; Expires="), "{flow}");
    let out = logout_set_cookie();
    assert!(out.starts_with("session=; Max-Age=0; Expires="), "{out}");
}

#[test]
fn the_last_cookie_of_a_name_wins() {
    assert_eq!(cookie_value("a=1; b=2; a=3", "a").as_deref(), Some("3"));
    assert_eq!(cookie_value(" b = two words ; c", "b").as_deref(), Some("two words"));
    assert_eq!(cookie_value("a=1; =x; c", "c"), None);
    assert_eq!(cookie_value("", "a"), None);
}

#[test]
fn a_login_only_returns_to_a_path_on_this_site() {
    let q = |v: &str| LoginQuery { return_to: Some(v.to_string()) };
    assert_eq!(login_return_to(q("/son/x")), "/son/x");
    assert_eq!(login_return_to(q("//evil.example/x")), "/");
    assert_eq!(login_return_to(q("/\\evil.example/x")), "/");
    assert_eq!(login_return_to(q("https://evil.example/")), "/");
    assert_eq!(login_return_to(LoginQuery { return_to: None }), "/");
}
