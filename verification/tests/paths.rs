use homeai::paths::{join, Paths};

#[test]
fn production_paths_match_techstack() {
    let p = Paths::production();
    assert_eq!(p.config, "/etc/homeai/config.toml");
    assert_eq!(p.db, "/var/lib/homeai/home.db");
    assert_eq!(p.core_log(), "/var/log/homeai/core.log");
    assert!(!p.is_prefixed());
}

#[test]
fn prefix_mirrors_the_same_tree() {
    let p = Paths::prefixed("/tmp/homeai-dev");
    assert_eq!(p.config, "/tmp/homeai-dev/etc/homeai/config.toml");
    assert_eq!(p.db, "/tmp/homeai-dev/var/lib/homeai/home.db");
    assert!(p.is_prefixed());
}

#[test]
fn every_production_path_reappears_under_the_prefix() {
    let prod = Paths::production();
    let dev = Paths::prefixed("/srv/dev/");
    for (a, b) in [
        (&prod.config, &dev.config),
        (&prod.house, &dev.house),
        (&prod.models, &dev.models),
        (&prod.tls_dir, &dev.tls_dir),
        (&prod.db, &dev.db),
        (&prod.log_dir, &dev.log_dir),
        (&prod.updates, &dev.updates),
    ] {
        assert_eq!(b, &format!("/srv/dev{a}"));
    }
    assert_eq!(dev.prefix(), Some("/srv/dev/"));
    assert_eq!(prod.prefix(), None);
}

#[test]
fn root_prefix_is_production() {
    let prod = Paths::production();
    let root = Paths::prefixed("/");
    assert_eq!(root.config, prod.config);
    assert_eq!(root.updates, prod.updates);
}

#[test]
fn derived_paths() {
    let p = Paths::production();
    assert_eq!(p.tls_cert(), "/etc/homeai/tls/cert.pem");
    assert_eq!(p.tls_key(), "/etc/homeai/tls/key.pem");
    assert_eq!(p.tokens_dir(), "/etc/homeai/tls/tokens");
    let d = Paths::prefixed("rel");
    assert_eq!(d.core_log(), "rel/var/log/homeai/core.log");
}

#[test]
fn join_follows_path_rules() {
    assert_eq!(join("/a", "b"), "/a/b");
    assert_eq!(join("/a/", "b"), "/a/b");
    assert_eq!(join("", "b"), "b");
    assert_eq!(join("/a", "/b"), "/b");
}
