use jan_core::auth::{
    clear_cookie, create_session_token, create_session_token_at, hash_password, parse_cookie,
    session_cookie, verify_password, verify_session_token, verify_session_token_at, COOKIE_NAME,
    SESSION_TTL_SECS,
};

const HUNTER2_HASH: &str = "f52fbd32b2b3b86ff88ef6c490628285f482af15ddcb29541f94bcf526a3f6c7";

#[test]
fn password_hash_round_trips() {
    let hash = hash_password("hunter2");
    assert!(verify_password("hunter2", &hash));
    assert!(!verify_password("wrong", &hash));
}

#[test]
fn session_token_round_trips() {
    let hash = hash_password("hunter2");
    let token = create_session_token(&hash).expect("token");
    assert!(verify_session_token(&token, &hash));
    // Wrong key invalidates.
    assert!(!verify_session_token(&token, &hash_password("other")));
}

#[test]
fn token_rejects_garbage() {
    let hash = hash_password("hunter2");
    assert!(!verify_session_token("not-a-token", &hash));
    assert!(!verify_session_token("aaaa.bbbb", &hash));
}

#[test]
fn cookie_parsing() {
    let header = "other=1; jan_web_session=abc.def; foo=bar";
    assert_eq!(
        parse_cookie(Some(header), COOKIE_NAME),
        Some("abc.def".to_string())
    );
    assert_eq!(parse_cookie(Some(header), "missing"), None);
    assert_eq!(parse_cookie(None, COOKIE_NAME), None);
}

#[test]
fn password_hash_is_lowercase_sha256_hex() {
    assert_eq!(hash_password("hunter2"), HUNTER2_HASH);
    assert_eq!(
        hash_password(""),
        "e3b0c44298fc1c149afbf4c8996fb92427ae41e4649b934ca495991b7852b855"
    );
}

#[test]
fn verify_password_compares_whole_digest() {
    assert!(verify_password("hunter2", HUNTER2_HASH));
    assert!(!verify_password("hunter2", &HUNTER2_HASH[..63]));
    assert!(!verify_password("hunter2", &HUNTER2_HASH.to_uppercase()));
    assert!(!verify_password("hunter2", ""));
}

#[test]
fn session_token_has_exact_form() {
    // Expiry 1000 + 30 days, little-endian, unpadded URL-safe base64, then the
    // hex HMAC-SHA256 of that payload keyed by the hash.
    assert_eq!(
        create_session_token_at(HUNTER2_HASH, 1000),
        Some(
            "6JAnAAAAAAA.380bc0af99e27b3aa25193c446c13a9d71fcd080e955dca06e2b7c584d23d94d"
                .to_string()
        )
    );
}

#[test]
fn session_token_expires_after_ttl() {
    let token = create_session_token_at(HUNTER2_HASH, 1000).unwrap();
    assert!(verify_session_token_at(&token, HUNTER2_HASH, 1000));
    assert!(verify_session_token_at(&token, HUNTER2_HASH, 1000 + SESSION_TTL_SECS - 1));
    assert!(!verify_session_token_at(&token, HUNTER2_HASH, 1000 + SESSION_TTL_SECS));
    assert!(!verify_session_token_at(&token, HUNTER2_HASH, u64::MAX));
}

#[test]
fn session_token_needs_a_password() {
    assert_eq!(create_session_token_at("", 5), None);
    let token = create_session_token_at(HUNTER2_HASH, 5).unwrap();
    assert!(!verify_session_token_at(&token, "", 0));
}

#[test]
fn tampered_token_is_rejected() {
    let token = create_session_token_at(HUNTER2_HASH, 1000).unwrap();
    let mut tampered = token.clone();
    tampered.pop();
    tampered.push('0');
    assert_ne!(tampered, token);
    assert!(!verify_session_token_at(&tampered, HUNTER2_HASH, 1000));
    // A forged later expiry with the old signature fails too.
    let forged = format!("AAAAAAAAAAE{}", &token[11..]);
    assert!(!verify_session_token_at(&forged, HUNTER2_HASH, 1000));
    // Upper-case hex still decodes to the same signature.
    let upper = format!("{}{}", &token[..12], token[12..].to_uppercase());
    assert!(verify_session_token_at(&upper, HUNTER2_HASH, 1000));
}

#[test]
fn session_ttl_is_thirty_days() {
    assert_eq!(SESSION_TTL_SECS, 2_592_000);
    assert_eq!(COOKIE_NAME, "jan_web_session");
}

#[test]
fn session_cookie_format() {
    assert_eq!(
        session_cookie("abc", SESSION_TTL_SECS),
        "jan_web_session=abc; Path=/; HttpOnly; SameSite=Lax; Max-Age=2592000"
    );
    assert_eq!(
        session_cookie("", 0),
        "jan_web_session=; Path=/; HttpOnly; SameSite=Lax; Max-Age=0"
    );
}

#[test]
fn clear_cookie_format() {
    assert_eq!(
        clear_cookie(),
        "jan_web_session=; Path=/; HttpOnly; SameSite=Lax; Max-Age=0"
    );
}

#[test]
fn session_cookie_reads_back_its_value() {
    let token = create_session_token_at(HUNTER2_HASH, 7).unwrap();
    let cookie = session_cookie(&token, SESSION_TTL_SECS);
    assert_eq!(parse_cookie(Some(&cookie), COOKIE_NAME), Some(token));
}

#[test]
fn cleared_cookie_reads_back_empty_and_never_verifies() {
    let cleared = clear_cookie();
    let value = parse_cookie(Some(&cleared), COOKIE_NAME).unwrap();
    assert_eq!(value, "");
    assert!(!verify_session_token_at(&value, HUNTER2_HASH, 0));
}

#[test]
fn cookie_parsing_trims_and_takes_the_first_match() {
    assert_eq!(parse_cookie(Some(" a = 1 ; a=2"), "a"), Some("1".to_string()));
    assert_eq!(parse_cookie(Some("novalue; a"), "a"), None);
    assert_eq!(parse_cookie(Some("a=b=c"), "a"), Some("b=c".to_string()));
    assert_eq!(parse_cookie(Some(""), "a"), None);
    assert_eq!(parse_cookie(Some("A=1"), "a"), None);
}

#[test]
fn clock_token_exists_exactly_with_a_password() {
    assert_eq!(create_session_token(""), None);
    let token = create_session_token(HUNTER2_HASH).expect("token");
    assert!(verify_session_token(&token, HUNTER2_HASH));
}

#[test]
fn session_cookie_reads_back_any_value_trimmed() {
    let c = session_cookie("  a=b c\t", 5);
    assert_eq!(parse_cookie(Some(&c), COOKIE_NAME), Some("a=b c".to_string()));
    let c = session_cookie("   ", 5);
    assert_eq!(parse_cookie(Some(&c), COOKIE_NAME), Some(String::new()));
}

#[test]
fn session_token_is_seventy_six_characters() {
    for now in [0u64, 1000, 1_700_000_000, u64::MAX - SESSION_TTL_SECS] {
        let token = create_session_token_at(HUNTER2_HASH, now).unwrap();
        assert_eq!(token.len(), 76);
        assert_eq!(token.as_bytes()[11], b'.');
    }
}

#[test]
fn signature_that_is_not_hex_never_verifies() {
    let token = create_session_token_at(HUNTER2_HASH, 1000).unwrap();
    let payload = &token[..11];
    for sig in ["", "zz", "0", "not-hex-at-all"] {
        let forged = format!("{}.{}", payload, sig);
        assert!(!verify_session_token_at(&forged, HUNTER2_HASH, 1000));
    }
    // A hex signature of the wrong length fails as well.
    let short = format!("{}.{}", payload, &token[12..74]);
    assert!(!verify_session_token_at(&short, HUNTER2_HASH, 1000));
}
