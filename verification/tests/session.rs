use folkmoot::errors::ErrorCode;
use folkmoot::session::{
    build_session_cookie, check_logout, check_request_credentials, clear_session_cookie,
    is_safe_method, login_token, parse_bearer, parse_session_cookie, session_expiry,
    sessions_to_evict, should_renew, touch_cutoff, user_agent, SESSION_MAX_AGE_SECS,
    SESSION_RENEW_BELOW_MS, SESSION_TTL_MS,
};

#[test]
fn bearer_tokens_are_read_and_trimmed() {
    assert_eq!(parse_bearer(Some("Bearer fm1_abc")).as_deref(), Some("fm1_abc"));
    assert_eq!(parse_bearer(Some("Bearer   fm1_abc  ")).as_deref(), Some("fm1_abc"));
    assert_eq!(parse_bearer(Some("bearer fm1_abc")), None);
    assert_eq!(parse_bearer(Some("Basic dXNlcg==")), None);
    assert_eq!(parse_bearer(Some("Bearer ")).as_deref(), Some(""));
    assert_eq!(parse_bearer(None), None);
}

#[test]
fn session_cookie_is_found_among_pairs() {
    assert_eq!(
        parse_session_cookie(Some("theme=dark; folkmoot_session=s3cr3t; x=y")).as_deref(),
        Some("s3cr3t")
    );
    assert_eq!(parse_session_cookie(Some("folkmoot_session=a;folkmoot_session=b")).as_deref(), Some("a"));
    assert_eq!(parse_session_cookie(Some("folkmoot_sessionx=a")), None);
    assert_eq!(parse_session_cookie(Some("theme=dark")), None);
    assert_eq!(parse_session_cookie(None), None);
}

#[test]
fn set_cookie_values() {
    assert_eq!(
        build_session_cookie("abc", SESSION_MAX_AGE_SECS, false),
        "folkmoot_session=abc; HttpOnly; SameSite=Strict; Path=/; Max-Age=604800"
    );
    assert_eq!(
        build_session_cookie("abc", 60, true),
        "folkmoot_session=abc; HttpOnly; SameSite=Strict; Path=/; Max-Age=60; Secure"
    );
    assert_eq!(
        clear_session_cookie(),
        "folkmoot_session=; HttpOnly; SameSite=Strict; Path=/; Max-Age=0"
    );
}

#[test]
fn installed_cookie_reads_back() {
    let secret = "Zm9vYmFyLWJhei1xdXV4XzEyMzQ1Njc4OTAxMjM0NTY";
    let set = build_session_cookie(secret, SESSION_MAX_AGE_SECS, true);
    let sent = set.split(';').next().unwrap();
    assert_eq!(parse_session_cookie(Some(sent)).as_deref(), Some(secret));
}

#[test]
fn user_agents_are_capped() {
    assert_eq!(user_agent(Some("curl/8")).as_deref(), Some("curl/8"));
    let long = "u".repeat(300);
    assert_eq!(user_agent(Some(&long)).unwrap().len(), 256);
    assert_eq!(user_agent(None), None);
}

#[test]
fn credential_decisions() {
    let e = check_request_credentials(false, false, "GET", false).unwrap_err();
    assert_eq!(e.code, ErrorCode::Unauthorized);
    assert_eq!(e.message, "missing credentials");
    let e = check_request_credentials(false, true, "POST", false).unwrap_err();
    assert_eq!(e.code, ErrorCode::CsrfRejected);
    assert_eq!(e.code.http_status(), 403);
    assert_eq!(check_request_credentials(false, true, "POST", true).unwrap(), true);
    assert_eq!(check_request_credentials(false, true, "GET", false).unwrap(), true);
    assert_eq!(check_request_credentials(true, true, "DELETE", false).unwrap(), false);
    assert_eq!(check_request_credentials(true, false, "POST", false).unwrap(), false);
}

#[test]
fn safe_methods() {
    assert!(is_safe_method("GET"));
    assert!(is_safe_method("HEAD"));
    assert!(is_safe_method("OPTIONS"));
    assert!(!is_safe_method("POST"));
    assert!(!is_safe_method("get"));
}

#[test]
fn login_needs_a_bearer_token() {
    assert_eq!(login_token(Some("Bearer t1")).unwrap(), "t1");
    let e = login_token(None).unwrap_err();
    assert_eq!(e.code, ErrorCode::Unauthorized);
    assert_eq!(e.message, "login requires Bearer token");
}

#[test]
fn logout_is_cookie_only() {
    assert!(check_logout(false, true).is_ok());
    assert!(check_logout(true, true).is_ok());
    assert!(check_logout(false, false).is_ok());
    let e = check_logout(true, false).unwrap_err();
    assert_eq!(e.code, ErrorCode::ValidationError);
}

#[test]
fn session_cap_evicts_oldest() {
    assert_eq!(sessions_to_evict(0), 0);
    assert_eq!(sessions_to_evict(19), 0);
    assert_eq!(sessions_to_evict(20), 1);
    assert_eq!(sessions_to_evict(25), 6);
}

#[test]
fn sliding_renewal() {
    let now = 1_700_000_000_000i64;
    let exp = session_expiry(now);
    assert_eq!(exp, now + 7 * 24 * 3600 * 1000);
    assert!(!should_renew(exp, now));
    assert!(!should_renew(now + SESSION_RENEW_BELOW_MS, now));
    assert!(should_renew(now + SESSION_RENEW_BELOW_MS - 1, now));
    assert!(should_renew(now - 1, now));
    assert_eq!(SESSION_TTL_MS, 604_800_000);
    assert_eq!(touch_cutoff(now), now - 60_000);
}

#[test]
fn session_cookie_found_after_other_pairs() {
    let set = build_session_cookie("s3cr=t!", 60, false);
    let pair = set.split(';').next().unwrap();
    assert_eq!(pair, "folkmoot_session=s3cr=t!");
    let header = format!("theme=dark; lang=en; {pair}");
    assert_eq!(parse_session_cookie(Some(&header)), Some("s3cr=t!".to_string()));
    assert_eq!(parse_session_cookie(Some(pair)), Some("s3cr=t!".to_string()));
}
