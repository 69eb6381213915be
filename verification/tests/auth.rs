use rustpress::auth::{
    cookie_constants, parse_cookie_header, resolve_current_user, sign_auth_cookie,
    verify_auth_cookie, AuthError, AuthScheme, AuthSecrets,
};
use rustpress::nonce::NonceService;
use rustpress::password::{password_needs_rehash, verify_password};
use rustpress::session::SessionTokenStore;

use base64::Engine;
use hmac::Mac;

type HmacSha384 = hmac::Hmac<sha2::Sha384>;

#[test]
fn parses_cookie_header_pairs() {
    let cookies = parse_cookie_header("foo=bar; test=value");
    assert_eq!(cookies.get("foo"), Some(&"bar".to_string()));
    assert_eq!(cookies.get("test"), Some(&"value".to_string()));
}

#[test]
fn parses_cookie_header_decodes_urlencoded_values() {
    let cookies = parse_cookie_header("auth=user%7C123%7Ctoken");
    assert_eq!(cookies.get("auth"), Some(&"user|123|token".to_string()));
}

#[test]
fn signs_and_verifies_logged_in_cookie() {
    let secrets = AuthSecrets::default();
    let cookie = sign_auth_cookie(
        15,
        "admin",
        2_000_000_000,
        "session-token",
        AuthScheme::LoggedIn,
        &secrets,
    );
    let user = verify_auth_cookie(&cookie, AuthScheme::LoggedIn, 1_999_999_999, &secrets)
        .expect("cookie should verify");

    assert_eq!(user.user_id, 15);
    assert_eq!(user.username, "admin");
    assert_eq!(user.scheme, AuthScheme::LoggedIn);
}

#[test]
fn cookie_constants_include_site_hash() {
    let constants = cookie_constants(Some("https://example.com"));
    assert_eq!(constants.cookiehash, "c984d06aafbecf6bc55569f964148ea3");
    assert_eq!(
        constants.logged_in_cookie,
        "wordpress_logged_in_c984d06aafbecf6bc55569f964148ea3"
    );
    assert_eq!(constants.test_cookie, "wordpress_test_cookie");
}

#[test]
fn cookie_constants_allow_empty_hash_for_missing_site_url() {
    let constants = cookie_constants(None);
    assert_eq!(constants.cookiehash, "");
    assert_eq!(constants.auth_cookie, "wordpress_");
    assert_eq!(constants.secure_auth_cookie, "wordpress_sec_");
    assert_eq!(constants.recovery_mode_cookie, "wordpress_rec_");
}

#[test]
fn signs_and_verifies_auth_cookie() {
    let secrets = AuthSecrets::default();
    let cookie = sign_auth_cookie(9, "editor", 2_000_000_000, "auth-token", AuthScheme::Auth, &secrets);
    let user = verify_auth_cookie(&cookie, AuthScheme::Auth, 1_999_999_999, &secrets)
        .expect("auth cookie should verify");

    assert_eq!(user.user_id, 9);
    assert_eq!(user.username, "editor");
    assert_eq!(user.scheme, AuthScheme::Auth);
}

#[test]
fn signs_and_verifies_secure_auth_cookie() {
    let secrets = AuthSecrets::default();
    let cookie = sign_auth_cookie(
        11,
        "admin",
        2_000_000_000,
        "secure-token",
        AuthScheme::SecureAuth,
        &secrets,
    );
    let user = verify_auth_cookie(&cookie, AuthScheme::SecureAuth, 1_999_999_999, &secrets)
        .expect("secure auth cookie should verify");

    assert_eq!(user.user_id, 11);
    assert_eq!(user.username, "admin");
    assert_eq!(user.scheme, AuthScheme::SecureAuth);
}

#[test]
fn rejects_expired_cookie() {
    let secrets = AuthSecrets::default();
    let cookie = sign_auth_cookie(15, "admin", 1_000, "session-token", AuthScheme::LoggedIn, &secrets);
    let result = verify_auth_cookie(&cookie, AuthScheme::LoggedIn, 2_000, &secrets);
    assert!(matches!(result, Err(AuthError::ExpiredCookie)));
}

#[test]
fn resolves_user_from_cookie_header() {
    let secrets = AuthSecrets::default();
    let cookie = sign_auth_cookie(33, "author", 5_000, "token-1", AuthScheme::LoggedIn, &secrets);
    let header = format!("wordpress_logged_in_fixture={cookie}; other=1");
    let resolved = resolve_current_user(&header, 4_999, &secrets).expect("user should resolve");
    assert_eq!(resolved.user_id, 33);
    assert_eq!(resolved.username, "author");
}

#[test]
fn resolves_user_from_urlencoded_cookie_header() {
    let secrets = AuthSecrets::default();
    let cookie = sign_auth_cookie(33, "author", 5_000, "token-1", AuthScheme::LoggedIn, &secrets);
    let encoded_cookie = cookie.replace('|', "%7C");
    let header = format!("wordpress_logged_in_fixture={encoded_cookie}; other=1");
    let resolved = resolve_current_user(&header, 4_999, &secrets).expect("user should resolve");
    assert_eq!(resolved.user_id, 33);
    assert_eq!(resolved.username, "author");
}

#[test]
fn resolves_user_when_invalid_prefixed_cookie_is_present() {
    let secrets = AuthSecrets::default();
    let valid_cookie = sign_auth_cookie(44, "manager", 5_000, "token-2", AuthScheme::Auth, &secrets);
    let header = format!(
        "wordpress_test_cookie=WP+Cookie+check; wordpress_fixture=invalid; wordpress_fixture_auth={valid_cookie}"
    );
    let resolved = resolve_current_user(&header, 4_999, &secrets)
        .expect("user should resolve despite malformed prefixed cookies");
    assert_eq!(resolved.user_id, 44);
    assert_eq!(resolved.username, "manager");
    assert_eq!(resolved.scheme, AuthScheme::Auth);
}

#[test]
fn nonce_service_validates_current_and_previous_tick() {
    let service = NonceService::default();
    let now = 100_000;
    let nonce = service.create_nonce("save-post", 7, "token", now);
    assert!(service.verify_nonce(&nonce, "save-post", 7, "token", now));
    assert_eq!(service.verify_nonce_code(&nonce, "save-post", 7, "token", now), Some(1));
    assert!(!service.verify_nonce(&nonce, "delete-post", 7, "token", now));
}

#[test]
fn nonce_service_returns_previous_tick_code() {
    let service = NonceService::default();
    let issued_at = 100_000;
    let nonce = service.create_nonce("save-post", 7, "token", issued_at);
    let verify_now = issued_at + service.nonce_life.as_secs() / 2;
    assert_eq!(
        service.verify_nonce_code(&nonce, "save-post", 7, "token", verify_now),
        Some(2)
    );
}

#[test]
fn nonce_service_rejects_after_two_tick_rollovers() {
    let service = NonceService::default();
    let now = 100_000;
    let nonce = service.create_nonce("save-post", 7, "token", now);
    let half_life = service.nonce_life.as_secs() / 2;
    let verify_now = now + (half_life * 2);
    assert!(!service.verify_nonce(&nonce, "save-post", 7, "token", verify_now));
}

#[test]
fn nonce_service_uses_wordpress_tick_boundary_semantics() {
    let service = NonceService::default();
    let half_life = service.nonce_life.as_secs() / 2;
    let issued_at = 1;
    let nonce = service.create_nonce("save-post", 7, "token", issued_at);

    assert_eq!(
        service.verify_nonce_code(&nonce, "save-post", 7, "token", half_life),
        Some(1)
    );
    assert_eq!(
        service.verify_nonce_code(&nonce, "save-post", 7, "token", half_life + 1),
        Some(2)
    );
}

#[test]
fn session_token_store_round_trips_and_removes_sessions() {
    let mut sessions = SessionTokenStore::default();
    assert!(sessions.upsert_session(
        7,
        "session-a",
        2_000_003_600,
        2_000_000_000,
        Some("127.0.0.1".to_string()),
        Some("Firefox".to_string())
    ));

    let stored = sessions
        .verify_session(7, "session-a", 2_000_000_001)
        .expect("session should verify");
    assert_eq!(stored.expiration, 2_000_003_600);
    assert_eq!(stored.ip, Some("127.0.0.1".to_string()));
    assert_eq!(sessions.count_active_sessions(7, 2_000_000_001), 1);

    assert!(sessions.destroy_session(7, "session-a"));
    assert!(sessions.verify_session(7, "session-a", 2_000_000_001).is_none());
}

#[test]
fn session_token_store_prunes_expired_sessions() {
    let mut sessions = SessionTokenStore::default();
    sessions.upsert_session(7, "session-expired", 2_000_000_010, 2_000_000_000, None, None);
    assert!(sessions.verify_session(7, "session-expired", 2_000_000_011).is_none());
    assert_eq!(sessions.count_active_sessions(7, 2_000_000_011), 0);
}

#[test]
fn session_token_store_can_destroy_other_sessions() {
    let mut sessions = SessionTokenStore::default();
    sessions.upsert_session(7, "session-a", 2_000_003_600, 2_000_000_000, None, None);
    sessions.upsert_session(7, "session-b", 2_000_003_600, 2_000_000_000, None, None);
    sessions.upsert_session(7, "session-c", 2_000_003_600, 2_000_000_000, None, None);

    let removed = sessions.destroy_other_sessions(7, "session-b", 2_000_000_100);
    assert_eq!(removed, 2);
    assert!(sessions.verify_session(7, "session-b", 2_000_000_100).is_some());
    assert!(sessions.verify_session(7, "session-a", 2_000_000_100).is_none());
    assert!(sessions.verify_session(7, "session-c", 2_000_000_100).is_none());
}

#[test]
fn session_token_store_replace_with_session_keeps_single_token() {
    let mut sessions = SessionTokenStore::default();
    sessions.upsert_session(7, "session-a", 2_000_003_600, 2_000_000_000, None, None);
    sessions.upsert_session(7, "session-b", 2_000_003_600, 2_000_000_000, None, None);

    let (changed, removed_count) = sessions.replace_with_session(
        7,
        "session-c",
        2_000_003_600,
        2_000_000_200,
        Some("198.51.100.15".to_string()),
        Some("Safari".to_string()),
    );
    assert!(changed);
    assert_eq!(removed_count, 2);
    assert_eq!(sessions.count_active_sessions(7, 2_000_000_201), 1);

    let replacement = sessions
        .verify_session(7, "session-c", 2_000_000_201)
        .expect("replacement session should remain");
    assert_eq!(replacement.ip, Some("198.51.100.15".to_string()));
    assert_eq!(replacement.user_agent, Some("Safari".to_string()));
    assert!(sessions.verify_session(7, "session-a", 2_000_000_201).is_none());
    assert!(sessions.verify_session(7, "session-b", 2_000_000_201).is_none());
}

#[test]
fn verifies_modern_bcrypt_password_hashes() {
    let hash = bcrypt::hash("s3cret-pass", 4).expect("bcrypt hash should generate");
    assert!(verify_password("s3cret-pass", &hash));
    assert!(!verify_password("wrong-pass", &hash));
}

#[test]
fn verifies_wordpress_2y_bcrypt_hash_prefix() {
    let hash = bcrypt::hash("s3cret-pass", 4).expect("bcrypt hash should generate");
    let wordpress_hash = hash.replacen("$2b$", "$2y$", 1);
    assert!(verify_password("s3cret-pass", &wordpress_hash));
}

#[test]
fn verifies_legacy_phpass_password_hashes() {
    let hash = "$P$B/x5z53S8OFO34SWjip8BphQFAhFsJ1";
    assert!(verify_password("password123", hash));
    assert!(!verify_password("not-password123", hash));
}

#[test]
fn verifies_legacy_md5_password_hashes() {
    let hash = "482c811da5d5b4bc6d497ffa98491e38";
    assert!(verify_password("password123", hash));
    assert!(!verify_password("incorrect-password", hash));
}

#[test]
fn verifies_wp_prefixed_bcrypt_password_hashes() {
    let mut hmac = HmacSha384::new_from_slice(b"wp-sha384").expect("HMAC key should be valid");
    hmac.update("password123".as_bytes());
    let transformed =
        base64::engine::general_purpose::STANDARD.encode(hmac.finalize().into_bytes());
    let bcrypt_hash = bcrypt::hash(&transformed, 4).expect("bcrypt hash should generate");
    let wp_hash = format!("$wp{bcrypt_hash}");

    assert!(verify_password("password123", &wp_hash));
    assert!(!verify_password("wrong-password", &wp_hash));
}

#[test]
fn password_needs_rehash_flags_legacy_and_unprefixed_bcrypt_hashes() {
    assert!(password_needs_rehash("482c811da5d5b4bc6d497ffa98491e38"));
    assert!(password_needs_rehash("$P$B/x5z53S8OFO34SWjip8BphQFAhFsJ1"));
    assert!(password_needs_rehash(
        "$2y$04$vYwbi8PAi/C6aSx5LVikLetY8UzH0Dfljt1jT7OqvzuA1mJjseLlG"
    ));
    assert!(password_needs_rehash("$argon2id$v=19$m=65536,t=2,p=1$abc$def"));
    assert!(!password_needs_rehash(
        "$wp$2y$04$vYwbi8PAi/C6aSx5LVikLetY8UzH0Dfljt1jT7OqvzuA1mJjseLlG"
    ));
}

#[test]
fn logged_in_cookie_round_trip_resolves_current_user() {
    let secrets = AuthSecrets::default();
    let cookie = sign_auth_cookie(
        101,
        "subscriber",
        2_100_000_000,
        "token-101",
        AuthScheme::LoggedIn,
        &secrets,
    );
    let header = format!("wordpress_logged_in_fixture={cookie}");

    let user = resolve_current_user(&header, 2_000_000_000, &secrets).expect("user should resolve");
    assert_eq!(user.user_id, 101);
    assert_eq!(user.username, "subscriber");
    assert_eq!(user.scheme, AuthScheme::LoggedIn);
}

#[test]
fn tampered_cookie_is_rejected() {
    let secrets = AuthSecrets::default();
    let cookie = sign_auth_cookie(5, "editor", 2_100_000_000, "token-5", AuthScheme::LoggedIn, &secrets);
    let tampered = cookie.replacen("token-5", "token-6", 1);

    let result = verify_auth_cookie(&tampered, AuthScheme::LoggedIn, 2_000_000_000, &secrets);
    assert!(matches!(result, Err(AuthError::InvalidSignature)));
}

#[test]
fn nonce_from_previous_tick_remains_valid() {
    let service = NonceService::default();
    let action = "update-profile";
    let user_id = 22;
    let token = "session-22";
    let now = 100_000;
    let half_life = service.nonce_life.as_secs() / 2;

    let nonce = service.create_nonce(action, user_id, token, now);
    assert!(service.verify_nonce(&nonce, action, user_id, token, now + half_life));
}

// ---- further cases ----

#[test]
fn cookie_format_and_number_errors() {
    let secrets = AuthSecrets::default();
    assert!(matches!(
        verify_auth_cookie("a|b|c", AuthScheme::Auth, 0, &secrets),
        Err(AuthError::InvalidCookieFormat)
    ));
    match verify_auth_cookie("x1|admin|100|tok|sig", AuthScheme::Auth, 0, &secrets) {
        Err(AuthError::InvalidNumber(text)) => assert_eq!(text, "x1"),
        other => panic!("unexpected {other:?}"),
    }
    match verify_auth_cookie("1|admin|soon|tok|sig", AuthScheme::Auth, 0, &secrets) {
        Err(AuthError::InvalidNumber(text)) => assert_eq!(text, "soon"),
        other => panic!("unexpected {other:?}"),
    }
}

#[test]
fn cookie_signed_for_one_scheme_fails_for_another() {
    let secrets = AuthSecrets::default();
    let cookie = sign_auth_cookie(1, "a", 10, "t", AuthScheme::Auth, &secrets);
    assert!(matches!(
        verify_auth_cookie(&cookie, AuthScheme::LoggedIn, 5, &secrets),
        Err(AuthError::InvalidSignature)
    ));
    // Valid up to and including the expiration second.
    assert!(verify_auth_cookie(&cookie, AuthScheme::Auth, 10, &secrets).is_ok());
}

#[test]
fn signed_cookie_has_five_fields_and_url_safe_signature() {
    let secrets = AuthSecrets::default();
    let cookie = sign_auth_cookie(7, "bob", 99, "tok", AuthScheme::SecureAuth, &secrets);
    let parts: Vec<&str> = cookie.split('|').collect();
    assert_eq!(parts.len(), 5);
    assert_eq!(&parts[..4], &["7", "bob", "99", "tok"]);
    assert_eq!(parts[4].len(), 43);
    assert!(parts[4].chars().all(|c| c.is_ascii_alphanumeric() || c == '-' || c == '_'));
}

#[test]
fn logged_in_cookie_wins_over_auth_cookie() {
    let secrets = AuthSecrets::default();
    let auth = sign_auth_cookie(1, "one", 100, "t1", AuthScheme::Auth, &secrets);
    let logged = sign_auth_cookie(2, "two", 100, "t2", AuthScheme::LoggedIn, &secrets);
    let header = format!("wordpress_x={auth}; wordpress_logged_in_x={logged}");
    let user = resolve_current_user(&header, 50, &secrets).expect("resolves");
    assert_eq!(user.user_id, 2);
    assert_eq!(user.scheme, AuthScheme::LoggedIn);
    assert!(resolve_current_user("other=1", 50, &secrets).is_none());
}

#[test]
fn cookie_header_keeps_last_duplicate_and_skips_blank_names() {
    let cookies = parse_cookie_header(" a = 1 ; =x; a=2;b");
    assert_eq!(cookies.get("a"), Some(&"2".to_string()));
    assert_eq!(cookies.get("b"), Some(&"".to_string()));
    assert_eq!(cookies.len(), 2);
}

#[test]
fn scheme_names_and_prefixes() {
    assert_eq!(AuthScheme::Auth.as_str(), "auth");
    assert_eq!(AuthScheme::SecureAuth.as_str(), "secure_auth");
    assert_eq!(AuthScheme::LoggedIn.cookie_prefix(), "wordpress_logged_in_");
}

#[test]
fn md5_hashes_compare_without_case_and_phpass_rejects_bad_length() {
    assert!(verify_password("password123", "482C811DA5D5B4BC6D497FFA98491E38"));
    assert!(!verify_password("password123", "$P$B/x5z53S8OFO34SWjip8BphQFAhFsJ"));
    assert!(!verify_password("password123", "$2y$04$notavalidbcrypthash"));
}

#[test]
fn session_upsert_reports_unchanged_entry() {
    let mut sessions = SessionTokenStore::default();
    assert!(sessions.upsert_session(1, "t", 100, 10, None, None));
    assert!(!sessions.upsert_session(1, "t", 100, 10, None, None));
    assert!(sessions.upsert_session(1, "t", 100, 11, None, None));
    assert_eq!(sessions.destroy_all_sessions(1), 1);
    assert_eq!(sessions.count_active_sessions(1, 0), 0);
    assert!(!sessions.destroy_session(1, "t"));
}

#[test]
fn sessions_are_per_user() {
    let mut sessions = SessionTokenStore::default();
    sessions.upsert_session(1, "shared", 100, 10, None, None);
    sessions.upsert_session(2, "shared", 100, 10, None, None);
    assert_eq!(sessions.destroy_other_sessions(1, "other", 20), 1);
    assert!(sessions.verify_session(2, "shared", 20).is_some());
    assert_eq!(sessions.count_active_sessions(2, 20), 1);
}

#[test]
fn signed_cookie_signature_is_43_url_safe_characters() {
    let secrets = AuthSecrets::default();
    for scheme in [AuthScheme::Auth, AuthScheme::SecureAuth, AuthScheme::LoggedIn] {
        let cookie = sign_auth_cookie(9, "editor", 2_000_000_000, "tok", scheme, &secrets);
        let fields: Vec<&str> = cookie.split('|').collect();
        assert_eq!(fields.len(), 5);
        assert_eq!(fields[..4], ["9", "editor", "2000000000", "tok"]);
        assert_eq!(fields[4].len(), 43);
        assert!(fields[4].chars().all(|c| c.is_ascii_alphanumeric() || c == '-' || c == '_'));
    }
}
