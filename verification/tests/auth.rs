use ferrite::api::auth::{
    check_auth, check_login, extract_session_token, generate_session_token, hash_password, hash_with_salt, login,
    open_session, to_lower_hex, verify_password, LoginRequest, Sessions, TokenBucket, LOGIN_BURST, SESSION_TTL,
};
use ferrite::api::middleware::{extract_api_key, require_api_key};
use ferrite::config::ApiConfig;
use ferrite::error::FeriteError;
use ferrite::ip::{IpAddr, Ipv4, SocketAddr};

const SECOND: u64 = 1_000_000_000;

fn api(api_key: Option<&str>, password_hash: Option<&str>) -> ApiConfig {
    ApiConfig {
        bind_addr: SocketAddr { ip: IpAddr::V4(Ipv4 { a: 127, b: 0, c: 0, d: 1 }), port: 8080, scope: 0 },
        api_key: api_key.map(|s| s.to_string()),
        password_hash: password_hash.map(|s| s.to_string()),
    }
}

#[test]
fn login_rate_limiter_allows_a_burst_then_rejects() {
    let now = 5 * SECOND;
    let mut bucket = TokenBucket::full(now);
    let allowed = (0..(LOGIN_BURST as usize))
        .filter(|_| bucket.try_take(now))
        .count();
    assert_eq!(allowed, LOGIN_BURST as usize);
    assert!(!bucket.try_take(now), "drained bucket must reject");
}

#[test]
fn a_drained_bucket_refills_with_time() {
    let mut bucket = TokenBucket::full(0);
    for _ in 0..LOGIN_BURST {
        assert!(bucket.try_take(0));
    }
    assert!(!bucket.try_take(SECOND / 10));
    assert!(bucket.try_take(SECOND / 5));
    assert!(!bucket.try_take(SECOND / 5));
    let later = 1000 * SECOND;
    let allowed = (0..100).filter(|_| bucket.try_take(later)).count();
    assert_eq!(allowed, LOGIN_BURST as usize);
}

#[test]
fn password_hash_verifies_correct_password_and_rejects_wrong_password() {
    let hash = hash_password("correct horse battery staple").unwrap();

    assert!(verify_password("correct horse battery staple", &hash));
    assert!(!verify_password("wrong password", &hash));
    assert!(!verify_password("anything", "not-a-phc-hash"));
}

#[test]
fn the_same_salt_gives_the_same_hash() {
    let a = hash_with_salt("pw", &[7; 16]).unwrap();
    assert_eq!(a, hash_with_salt("pw", &[7; 16]).unwrap());
    assert_ne!(a, hash_with_salt("pw", &[8; 16]).unwrap());
    assert!(a.starts_with("$argon2id$"));
    assert!(verify_password("pw", &a));
    let refused = |salt: &[u8]| match hash_with_salt("pw", salt) {
        Err(FeriteError::Config(m)) => m,
        other => panic!("unexpected {other:?}"),
    };
    let short = refused(&[1, 2, 3]);
    assert!(short.starts_with("password hash failed: ") && short.len() > "password hash failed: ".len(), "{short}");
    let long = refused(&[0; 49]);
    assert!(long.starts_with("password salt encode failed: "), "{long}");
    assert!(long.len() > "password salt encode failed: ".len(), "{long}");
    assert_ne!(hash_password("pw").unwrap(), hash_password("pw").unwrap());
}

#[test]
fn session_token_can_be_read_from_legacy_and_bearer_headers() {
    assert_eq!(
        extract_session_token(Some("session-token"), None),
        Some("session-token".to_string())
    );
    assert_eq!(
        extract_session_token(None, Some("Bearer bearer-token")),
        Some("bearer-token".to_string())
    );
    assert_eq!(extract_session_token(None, Some("Basic x")), None);
    assert_eq!(extract_session_token(None, None), None);
}

#[test]
fn login_issues_session_and_logout_removes_it() {
    let hash = hash_password("secret").unwrap();
    let cfg = api(None, Some(&hash));
    let mut bucket = TokenBucket::full(0);
    let mut sessions = Sessions::new();

    let body = LoginRequest { password: "secret".to_string() };
    let token = login(&mut bucket, &mut sessions, &cfg, &body, 0).unwrap();
    assert!(sessions.contains(&token));
    assert!(sessions.is_authenticated(Some(&token), 0));

    sessions.remove(&token);
    assert!(!sessions.contains(&token));
    assert!(!sessions.is_authenticated(Some(&token), 0));

    let wrong = LoginRequest { password: "guess".to_string() };
    let r = login(&mut bucket, &mut sessions, &cfg, &wrong, 0);
    assert!(matches!(r, Err(FeriteError::Unauthorized)));
}

#[test]
fn too_many_logins_are_refused() {
    let cfg = api(None, Some("not-a-phc-hash"));
    let mut bucket = TokenBucket::full(0);
    let mut sessions = Sessions::new();
    let body = LoginRequest { password: "x".to_string() };
    for _ in 0..LOGIN_BURST {
        let r = login(&mut bucket, &mut sessions, &cfg, &body, 0);
        assert!(matches!(r, Err(FeriteError::Unauthorized)));
    }
    let r = login(&mut bucket, &mut sessions, &cfg, &body, 0);
    assert!(matches!(r, Err(FeriteError::RateLimited)));
    assert!(matches!(check_login(false, &cfg, "x"), Err(FeriteError::RateLimited)));
}

#[test]
fn blank_password_hash_behaves_like_no_password_configured() {
    let cfg = api(None, Some("  "));
    let mut bucket = TokenBucket::full(0);
    let mut sessions = Sessions::new();
    let body = LoginRequest { password: "secret".to_string() };

    match login(&mut bucket, &mut sessions, &cfg, &body, 0) {
        Err(FeriteError::Config(m)) => assert!(m.contains("no password configured")),
        other => panic!("unexpected {other:?}"),
    }
    let (status, _, _) = check_auth(&cfg, false);
    assert_eq!(status, 200);
    let hash = hash_password("secret").unwrap();
    assert_eq!(check_auth(&api(None, Some(&hash)), false), (401, false, true));
    assert_eq!(check_auth(&api(None, Some(&hash)), true), (200, true, true));
}

#[test]
fn expired_session_is_rejected_and_removed() {
    let mut sessions = Sessions::new();
    let now = 10 * SECOND;
    sessions.insert("expired-token".to_string(), now - SECOND);

    assert!(!sessions.is_authenticated(Some("expired-token"), now));
    assert!(!sessions.contains("expired-token"));
}

#[test]
fn sessions_end_after_a_day() {
    let mut sessions = Sessions::new();
    open_session(&mut sessions, "t".to_string(), 0);
    assert!(sessions.is_authenticated(Some("t"), (SESSION_TTL - 1) * SECOND));
    sessions.insert("old".to_string(), 5);
    sessions.evict_ended(SECOND);
    assert!(!sessions.contains("old"));
    assert!(sessions.contains("t"));
    assert!(!sessions.is_authenticated(Some("t"), (SESSION_TTL + 1) * SECOND));
}

#[test]
fn tokens_are_long_and_differ() {
    let a = generate_session_token().unwrap();
    let b = generate_session_token().unwrap();
    assert_eq!(a.len(), 64);
    assert!(a.chars().all(|c| c.is_ascii_hexdigit() && !c.is_ascii_uppercase()));
    assert_ne!(a, b);
    assert_eq!(to_lower_hex(&[0x00, 0xff, 0x1a]), "00ff1a");
}

fn passes(cfg: &ApiConfig, session: Option<&str>, key: Option<&str>, bearer: Option<&str>) -> bool {
    let mut sessions = Sessions::new();
    sessions.insert("session-token".to_string(), 60 * SECOND);
    require_api_key(cfg, &mut sessions, session, key, bearer, 0)
}

#[test]
fn protected_api_allows_requests_when_no_auth_is_configured() {
    assert!(passes(&api(None, None), None, None, None));
}

#[test]
fn protected_api_allows_requests_when_auth_secrets_are_blank() {
    assert!(passes(&api(Some("   "), Some("")), None, None, None));
}

#[test]
fn api_key_middleware_accepts_x_api_key_and_bearer_token() {
    let cfg = api(Some("secret-key"), None);
    assert!(!passes(&cfg, None, None, None));
    assert!(passes(&cfg, None, Some("secret-key"), None));
    assert!(passes(&cfg, None, None, Some("Bearer secret-key")));
    assert!(!passes(&cfg, None, Some("secret-kex"), None));
    assert!(!passes(&cfg, None, Some("secret-key1"), None));
    assert_eq!(extract_api_key(Some("k"), None).as_deref(), Some("k"));
}

#[test]
fn password_session_auth_allows_protected_api_access() {
    let hash = hash_password("secret").unwrap();
    let cfg = api(None, Some(&hash));
    assert!(!passes(&cfg, None, None, None));
    assert!(passes(&cfg, Some("session-token"), None, None));
    assert!(!passes(&cfg, Some("other-token"), None, None));
}
