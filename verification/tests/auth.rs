use folkmoot::auth::{
    check_token_quota, generate_session_secret, generate_token, hash_secret, hex_lower,
    registration_token_count, registration_token_label, revoke_outcome, session_secret_of_bytes,
    token_infos, token_of_bytes,
    validate_registration, TokenRow, MAX_ACTIVE_TOKENS,
};
use folkmoot::errors::ErrorCode;

fn is_b64_url(c: char) -> bool {
    c.is_ascii_alphanumeric() || c == '-' || c == '_'
}

#[test]
fn token_format() {
    let t = generate_token();
    assert!(t.starts_with("fm1_"));
    assert_eq!(t.len(), 4 + 43);
    assert_eq!(hash_secret(&t).len(), 64);
}

#[test]
fn tokens_use_the_url_safe_alphabet() {
    let t = generate_token();
    assert!(t[4..].chars().all(is_b64_url));
    let s = generate_session_secret();
    assert_eq!(s.len(), 43);
    assert!(s.chars().all(is_b64_url));
    assert_ne!(generate_token(), generate_token());
}

#[test]
fn hex_is_lowercase_two_digits_per_byte() {
    assert_eq!(hex_lower(&[0x00, 0x0f, 0xab, 0xff]), "000fabff");
    assert_eq!(hex_lower(&[]), "");
}

#[test]
fn secrets_hash_to_sha256_hex() {
    assert_eq!(
        hash_secret("abc"),
        "ba7816bf8f01cfea414140de5dae2223b00361a396177a9cb410ff61f20015ad"
    );
    assert_ne!(hash_secret("abc"), "abc");
}

#[test]
fn registration_rules() {
    assert_eq!(validate_registration("  alice  ", 3).unwrap(), "alice");
    let e = validate_registration("   ", 3).unwrap_err();
    assert_eq!(e.code, ErrorCode::ValidationError);
    assert_eq!(e.message, "name must be 1..=64 chars");
    assert!(validate_registration(&"n".repeat(64), 1).is_ok());
    assert!(validate_registration(&"n".repeat(65), 1).is_err());
    let e = validate_registration("bob", 0).unwrap_err();
    assert_eq!(e.message, "token_count must be 1..=5");
    assert!(validate_registration("bob", 6).is_err());
    assert!(validate_registration("bob", MAX_ACTIVE_TOKENS).is_ok());
}

#[test]
fn registration_defaults() {
    assert_eq!(registration_token_count(None), 3);
    assert_eq!(registration_token_count(Some(5)), 5);
    assert_eq!(registration_token_label(0), "default");
    assert_eq!(registration_token_label(1), "");
}

#[test]
fn token_quota_is_five() {
    assert!(check_token_quota(4).is_ok());
    let e = check_token_quota(5).unwrap_err();
    assert_eq!(e.code, ErrorCode::Conflict);
    assert_eq!(e.message, "active token limit reached (5)");
}

#[test]
fn revocation_outcomes() {
    let r = revoke_outcome(Some(2)).unwrap();
    assert!(r.revoked);
    assert_eq!(r.revoked_sessions, 2);
    let e = revoke_outcome(None).unwrap_err();
    assert_eq!(e.code, ErrorCode::NotFound);
    assert_eq!(e.message, "token not found");
}

#[test]
fn token_listing_marks_the_current_token() {
    let rows = vec![
        TokenRow {
            id: "t1".into(),
            account_id: "a".into(),
            label: "default".into(),
            created_at: 1,
            last_used_at: Some(5),
            last_user_agent: Some("curl".into()),
        },
        TokenRow {
            id: "t2".into(),
            account_id: "a".into(),
            label: "".into(),
            created_at: 2,
            last_used_at: None,
            last_user_agent: None,
        },
    ];
    let infos = token_infos(&rows, "t2");
    assert_eq!(infos.len(), 2);
    assert!(!infos[0].current);
    assert!(infos[1].current);
    assert_eq!(infos[0].label, "default");
    assert_eq!(infos[0].last_used_at, Some(5));
    assert_eq!(infos[0].last_user_agent.as_deref(), Some("curl"));
    assert_eq!(infos[1].created_at, 2);
}

#[test]
fn tokens_encode_the_drawn_bytes() {
    let seq: Vec<u8> = (0u8..32).collect();
    assert_eq!(token_of_bytes(&seq), "fm1_AAECAwQFBgcICQoLDA0ODxAREhMUFRYXGBkaGxwdHh8");
    assert_eq!(token_of_bytes(&[0u8; 32]), format!("fm1_{}", "A".repeat(43)));
    assert_eq!(session_secret_of_bytes(&[255u8; 32]), format!("{}8", "_".repeat(42)));
    assert_ne!(token_of_bytes(&seq), token_of_bytes(&[0u8; 32]));
}
