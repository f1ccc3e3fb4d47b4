use homeai::auth::{
    authorize_at, bearer_secret, check_token, extract, ws_secret, AuthLimiter, ControlAuth,
    Denial, PeerIp, WsQuery, FAIL_LIMIT, FAIL_WINDOW_NS, LOCKOUT_NS,
};
use homeai::paths::Paths;
use homeai::tokens::{Scope, TokenError, TokenRecord, TokenStore};

const IP: PeerIp = PeerIp::V4(0x7f00_0001);

#[test]
fn fifth_failure_locks_the_ip() {
    let mut limiter = AuthLimiter::new();
    for _ in 0..FAIL_LIMIT - 1 {
        limiter.fail(IP);
        assert!(limiter.blocked(IP).is_none());
    }
    limiter.fail(IP);
    assert!(limiter.blocked(IP).is_some());
}

#[test]
fn lock_lasts_the_lockout_then_lifts() {
    let mut limiter = AuthLimiter::new();
    for t in 0..5u64 {
        limiter.fail_at(IP, 1_000 + t);
    }
    assert_eq!(limiter.blocked_at(IP, 1_004), Some(LOCKOUT_NS));
    assert_eq!(limiter.blocked_at(IP, 1_004 + LOCKOUT_NS - 1), Some(1));
    assert_eq!(limiter.blocked_at(IP, 1_004 + LOCKOUT_NS), None);
    // history was cleared with the lock: one more failure does not relock
    limiter.fail_at(IP, 1_004 + LOCKOUT_NS + 1);
    assert_eq!(limiter.blocked_at(IP, 1_004 + LOCKOUT_NS + 2), None);
}

#[test]
fn stale_failures_do_not_count() {
    let mut limiter = AuthLimiter::new();
    for t in 0..4u64 {
        limiter.fail_at(IP, t);
    }
    limiter.fail_at(IP, 3 + FAIL_WINDOW_NS + 1);
    assert_eq!(limiter.blocked_at(IP, 3 + FAIL_WINDOW_NS + 1), None);
    let other = PeerIp::V6(1);
    assert_eq!(limiter.blocked_at(other, 0), None);
}

#[test]
fn missing_bearer_is_none() {
    assert!(bearer_secret(None, None).is_none());
    assert_eq!(bearer_secret(None, Some("access_token=abc")), Some("abc".into()));
}

#[test]
fn bearer_header_wins_over_query() {
    assert_eq!(bearer_secret(Some("Bearer xyz"), Some("access_token=abc")), Some("xyz".into()));
    assert_eq!(bearer_secret(Some("Bearer "), Some("a=1&access_token=&access_token=q")), Some("q".into()));
    assert_eq!(bearer_secret(Some("Basic xyz"), None), None);
    assert_eq!(bearer_secret(None, Some("x=1&y=2")), None);
    assert_eq!(bearer_secret(None, Some("")), None);
}

fn store_with(rec: TokenRecord) -> TokenStore {
    TokenStore::from_records("d".to_string(), vec![rec])
}

fn reader() -> TokenRecord {
    TokenRecord { id: "reader".into(), secret: "s3cret".into(), scopes: vec![Scope::Read], created_ms: 1 }
}

#[test]
fn authorization_outcomes_and_statuses() {
    let paths = Paths::production();
    let mut limiter = AuthLimiter::new();
    let ok = authorize_at(&paths, &mut limiter, IP, Some("s3cret"), Scope::Read, 10, |dir| {
        assert_eq!(dir, "/etc/homeai/tls/tokens");
        Ok(store_with(reader()))
    });
    assert_eq!(ok.unwrap().id, "reader");

    let forbidden = authorize_at(&paths, &mut limiter, IP, Some("s3cret"), Scope::Admin, 11, |_| {
        Ok(store_with(reader()))
    });
    assert_eq!(forbidden.unwrap_err(), Denial::InsufficientScope);
    assert_eq!(Denial::InsufficientScope.status(), 403);

    let missing = authorize_at(&paths, &mut limiter, IP, None, Scope::Read, 12, |_| {
        panic!("store must not be read without a secret")
    });
    assert_eq!(missing.unwrap_err(), Denial::MissingAuthorization);
    assert_eq!(Denial::MissingAuthorization.status(), 401);
    assert_eq!(Denial::MissingAuthorization.message(), "missing authorization");

    let unreadable = authorize_at(&paths, &mut limiter, IP, Some("x"), Scope::Read, 13, |_| {
        Err(TokenError::Io("gone".into()))
    });
    assert_eq!(unreadable.unwrap_err(), Denial::StoreUnreadable);
    assert_eq!(Denial::StoreUnreadable.status(), 500);
}

#[test]
fn repeated_failed_auth_triggers_lockout() {
    let paths = Paths::production();
    let mut limiter = AuthLimiter::new();
    for t in 0..5u64 {
        let r = authorize_at(&paths, &mut limiter, IP, Some("deadbeef"), Scope::Read, t, |_| {
            Ok(store_with(reader()))
        });
        assert_eq!(r.unwrap_err(), Denial::InvalidToken);
    }
    let locked = authorize_at(&paths, &mut limiter, IP, Some("deadbeef"), Scope::Read, 6, |_| {
        Ok(store_with(reader()))
    });
    assert_eq!(locked.unwrap_err(), Denial::TooManyAttempts);
    assert_eq!(Denial::TooManyAttempts.status(), 429);
    let still = authorize_at(&paths, &mut limiter, IP, Some("s3cret"), Scope::Read, 7, |_| {
        Ok(store_with(reader()))
    });
    assert_eq!(still.unwrap_err(), Denial::TooManyAttempts);
}

#[test]
fn forbidden_scope_does_not_count_as_failure() {
    let paths = Paths::production();
    let mut limiter = AuthLimiter::new();
    for t in 0..10u64 {
        let r = authorize_at(&paths, &mut limiter, IP, Some("s3cret"), Scope::Control, t, |_| {
            Ok(store_with(reader()))
        });
        assert_eq!(r.unwrap_err(), Denial::InsufficientScope);
    }
    assert_eq!(limiter.blocked_at(IP, 11), None);
}

#[test]
fn check_token_maps_store_verdicts() {
    let store = store_with(reader());
    assert!(check_token(&store, "s3cret", Scope::Read).is_ok());
    assert_eq!(check_token(&store, "other", Scope::Read).unwrap_err(), Denial::InvalidToken);
    assert_eq!(Denial::InvalidToken.message(), "invalid token");
}

#[test]
fn request_parts_are_authenticated() {
    let paths = Paths::production();
    let mut limiter = AuthLimiter::new();
    let by_header = extract(&paths, &mut limiter, IP, Some("Bearer s3cret"), None, Scope::Read, |_| {
        Ok(store_with(reader()))
    });
    assert_eq!(by_header.unwrap().id, "reader");
    let by_query = extract(&paths, &mut limiter, IP, None, Some("x=1&access_token=s3cret"), Scope::Read, |_| {
        Ok(store_with(reader()))
    });
    assert_eq!(by_query.unwrap().id, "reader");
    let under_scoped = extract(&paths, &mut limiter, IP, Some("Bearer s3cret"), None, Scope::Control, |_| {
        Ok(store_with(reader()))
    })
    .map(ControlAuth);
    assert_eq!(under_scoped.err(), Some(Denial::InsufficientScope));
    let none = extract(&paths, &mut limiter, IP, Some("Basic abc"), Some("a=b"), Scope::Read, |_| {
        panic!("store must not be read without a secret")
    });
    assert_eq!(none.unwrap_err(), Denial::MissingAuthorization);
}

#[test]
fn event_stream_secret_prefers_the_header() {
    let q = |t: Option<&str>| WsQuery { access_token: t.map(|s| s.to_string()) };
    assert_eq!(ws_secret(Some("Bearer h"), q(Some("qq"))), Some("h".to_string()));
    assert_eq!(ws_secret(None, q(Some("qq"))), Some("qq".to_string()));
    assert_eq!(ws_secret(Some("Bearer "), q(None)), None);
    assert_eq!(ws_secret(None, q(Some(""))), Some(String::new()));
}
