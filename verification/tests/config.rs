use homeai::config::{check_http_url, Config, ConfigError, ServiceUrl};

#[test]
fn defaults_match_techstack() {
    let cfg = Config::default();
    assert_eq!(cfg.api.port, 8443);
    assert_eq!(cfg.grpc.port, 50051);
    assert_eq!(cfg.llm.url, "http://127.0.0.1:8200");
    assert_eq!(cfg.stt.url, "http://127.0.0.1:8100");
    assert_eq!(cfg.tts.url, "http://127.0.0.1:8300");
    assert_eq!(cfg.presence.exit_delay_ms, 30_000);
    assert_eq!(cfg.wake.keyword, "hey home");
}

#[test]
fn default_config_passes_validation() {
    assert!(Config::default().validate("/etc/homeai/config.toml").is_ok());
}

#[test]
fn bad_llm_url_is_invalid() {
    let mut cfg = Config::default();
    cfg.llm = ServiceUrl { url: "not-a-url".to_string() };
    match cfg.validate("/x/config.toml") {
        Err(ConfigError::Invalid { path, message }) => {
            assert_eq!(path, "/x/config.toml");
            assert_eq!(message, "llm.url: must start with http:// or https://");
        }
        other => panic!("unexpected {other:?}"),
    }
}

#[test]
fn zero_ports_are_rejected_in_order() {
    let mut cfg = Config::default();
    cfg.api.port = 0;
    cfg.grpc.port = 0;
    match cfg.validate("c") {
        Err(ConfigError::Invalid { message, .. }) => assert_eq!(message, "api.port must be non-zero"),
        other => panic!("unexpected {other:?}"),
    }
    cfg.api.port = 1;
    match cfg.validate("c") {
        Err(ConfigError::Invalid { message, .. }) => assert_eq!(message, "grpc.port must be non-zero"),
        other => panic!("unexpected {other:?}"),
    }
}

#[test]
fn zero_exit_delay_and_blank_wake_word_are_rejected() {
    let mut cfg = Config::default();
    cfg.presence.exit_delay_ms = 0;
    match cfg.validate("c") {
        Err(ConfigError::Invalid { message, .. }) => {
            assert_eq!(message, "presence.exit_delay_ms must be > 0")
        }
        other => panic!("unexpected {other:?}"),
    }
    cfg.presence.exit_delay_ms = 1;
    cfg.wake.keyword = " \t\u{3000}".to_string();
    match cfg.validate("c") {
        Err(ConfigError::Invalid { message, .. }) => {
            assert_eq!(message, "wake.keyword must not be empty")
        }
        other => panic!("unexpected {other:?}"),
    }
}

#[test]
fn stt_and_tts_urls_are_labelled() {
    let mut cfg = Config::default();
    cfg.stt.url = "https://".to_string();
    match cfg.validate("c") {
        Err(ConfigError::Invalid { message, .. }) => assert_eq!(message, "stt.url: missing host"),
        other => panic!("unexpected {other:?}"),
    }
    cfg.stt.url = "https://stt".to_string();
    cfg.tts.url = "http://a b".to_string();
    match cfg.validate("c") {
        Err(ConfigError::Invalid { message, .. }) => {
            assert_eq!(message, "tts.url: must not contain whitespace")
        }
        other => panic!("unexpected {other:?}"),
    }
}

#[test]
fn http_url_rules() {
    assert!(check_http_url("http://h").is_ok());
    assert!(check_http_url("https://h:1/x").is_ok());
    assert_eq!(check_http_url("ftp://h").unwrap_err(), "must start with http:// or https://");
    assert_eq!(check_http_url("http://").unwrap_err(), "missing host");
    assert_eq!(check_http_url("http://a\u{a0}b").unwrap_err(), "must not contain whitespace");
    assert_eq!(check_http_url("HTTP://h").unwrap_err(), "must start with http:// or https://");
}

#[test]
fn listener_addresses_come_from_config() {
    let mut cfg = Config::default();
    assert_eq!(cfg.api_addr(), "0.0.0.0:8443");
    assert_eq!(cfg.grpc_addr(), "0.0.0.0:50051");
    cfg.api.host = "127.0.0.1".to_string();
    cfg.api.port = 9;
    assert_eq!(cfg.api_addr(), "127.0.0.1:9");
    cfg.grpc.port = 65535;
    assert_eq!(cfg.grpc_addr(), "0.0.0.0:65535");
}
