use homeai::tokens::{
    hex, record_path, requested_scopes, scopes_csv, validate_id, world_readable, AuthFail, Scope,
    TokenError,
    TokenRecord, TokenStore,
};

fn record(id: &str, secret: &str, scopes: Vec<Scope>) -> TokenRecord {
    TokenRecord { id: id.into(), secret: secret.into(), scopes, created_ms: 1 }
}

#[test]
fn admin_scope_satisfies_read() {
    let rec = TokenRecord {
        id: "a".into(),
        secret: "s".into(),
        scopes: vec![Scope::Admin],
        created_ms: 1,
    };
    assert!(rec.allows(Scope::Read));
    assert!(rec.allows(Scope::Control));
    assert!(rec.allows(Scope::Admin));
}

#[test]
fn read_scope_allows_only_read() {
    let rec = record("r", "s", vec![Scope::Read]);
    assert!(rec.allows(Scope::Read));
    assert!(!rec.allows(Scope::Control));
    assert!(!rec.allows(Scope::Admin));
}

#[test]
fn created_token_is_scoped_and_revocable() {
    let mut store = TokenStore::new("/etc/homeai/tls/tokens".to_string());
    let rec = store.create("phone", vec![Scope::Read, Scope::Control]).unwrap();
    assert_eq!(rec.id, "phone");
    assert_eq!(record_path("/etc/homeai/tls/tokens", &rec.id), "/etc/homeai/tls/tokens/phone.toml");
    assert_eq!(rec.secret.len(), 64);
    assert!(rec.secret.chars().all(|c| c.is_ascii_hexdigit() && !c.is_ascii_uppercase()));
    assert!(store.authorize(&rec.secret, Scope::Read).is_ok());
    assert!(store.authorize(&rec.secret, Scope::Control).is_ok());
    assert_eq!(store.authorize(&rec.secret, Scope::Admin).err(), Some(AuthFail::Forbidden));
    assert_eq!(store.authorize("nope", Scope::Read).err(), Some(AuthFail::Unauthorized));

    let removed = store.revoke("phone").unwrap();
    assert_eq!(removed, "/etc/homeai/tls/tokens/phone.toml");
    assert!(store.get(&rec.secret).is_none());
    assert_eq!(store.authorize(&rec.secret, Scope::Read).err(), Some(AuthFail::Unauthorized));
    assert!(store.list().is_empty());
}

#[test]
fn duplicate_and_bad_ids_are_refused() {
    let mut store = TokenStore::new("d".to_string());
    store.create("a", vec![Scope::Read]).unwrap();
    assert!(matches!(
        store.create("a", vec![Scope::Admin]),
        Err(TokenError::Exists(id)) if id == "a"
    ));
    assert!(matches!(
        store.create("bad id", vec![]),
        Err(TokenError::BadId(id)) if id == "bad id"
    ));
    assert!(matches!(store.create("../x", vec![]), Err(TokenError::BadId(_))));
    assert!(matches!(store.create("", vec![]), Err(TokenError::BadId(_))));
    assert_eq!(store.list().len(), 1);
}

#[test]
fn rotation_retires_the_old_secret() {
    let mut store = TokenStore::new("d".to_string());
    let first = store.create("tab", vec![Scope::Control]).unwrap();
    let second = store.rotate("tab").unwrap();
    assert_ne!(first.secret, second.secret);
    assert_eq!(second.id, "tab");
    assert_eq!(second.scopes, vec![Scope::Control]);
    assert_eq!(store.authorize(&first.secret, Scope::Read).err(), Some(AuthFail::Unauthorized));
    assert!(store.authorize(&second.secret, Scope::Control).is_ok());
    assert!(matches!(store.rotate("none"), Err(TokenError::NotFound(_))));
    assert!(matches!(store.revoke("none"), Err(TokenError::NotFound(_))));
    assert_eq!(store.list().len(), 1);
}

#[test]
fn list_is_in_id_order() {
    let store = TokenStore::from_records(
        "d".to_string(),
        vec![
            record("zeta", "s1", vec![Scope::Read]),
            record("alpha", "s2", vec![Scope::Read]),
            record("Mid", "s3", vec![Scope::Admin]),
        ],
    );
    let ids: Vec<&str> = store.list().iter().map(|r| r.id.as_str()).collect();
    assert_eq!(ids, vec!["Mid", "alpha", "zeta"]);
    assert_eq!(store.get("s3").unwrap().id, "Mid");
}

#[test]
fn later_record_replaces_earlier_with_same_secret() {
    let store = TokenStore::from_records(
        "d".to_string(),
        vec![record("a", "same", vec![Scope::Read]), record("b", "same", vec![Scope::Admin])],
    );
    assert_eq!(store.get("same").unwrap().id, "b");
    assert_eq!(store.list().len(), 2);
}

#[test]
fn id_validation() {
    assert!(validate_id("phone-1_A").is_ok());
    assert!(validate_id("ph/one").is_err());
    assert!(validate_id("é").is_err());
}

#[test]
fn hex_is_lowercase_two_digits_per_byte() {
    assert_eq!(hex(&[0x00, 0x0f, 0xa0, 0xff]), "000fa0ff");
    assert_eq!(hex(&[]), "");
}

#[test]
fn scope_names_and_defaults() {
    assert_eq!(Scope::Read.as_str(), "read");
    assert_eq!(Scope::Control.as_str(), "control");
    assert_eq!(Scope::Admin.as_str(), "admin");
    assert_eq!(requested_scopes(vec![]), vec![Scope::Read]);
    assert_eq!(requested_scopes(vec![Scope::Admin]), vec![Scope::Admin]);
    assert_eq!(scopes_csv(&vec![Scope::Read, Scope::Control]), "read,control");
    assert_eq!(scopes_csv(&vec![]), "");
    assert_eq!(record_path("/t", "x"), "/t/x.toml");
}

#[test]
fn only_owner_readable_token_files_pass() {
    assert!(!world_readable(0o600));
    assert!(!world_readable(0o700));
    assert!(world_readable(0o644));
    assert!(world_readable(0o640));
    assert!(world_readable(0o604));
}

#[test]
fn created_token_survives_a_reload() {
    let mut store = TokenStore::new("/d".to_string());
    let rec = store.create("phone", vec![Scope::Control]).unwrap();
    let reloaded = TokenStore::from_records("/d".to_string(), vec![rec.clone()]);
    assert_eq!(reloaded.get(&rec.secret).map(|r| r.id.clone()), Some("phone".to_string()));
    for scope in [Scope::Read, Scope::Control, Scope::Admin] {
        assert_eq!(
            reloaded.authorize(&rec.secret, scope).map(|r| r.id.clone()),
            store.authorize(&rec.secret, scope).map(|r| r.id.clone())
        );
    }
    assert_eq!(reloaded.list().len(), 1);
}
