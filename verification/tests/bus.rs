use homeai::bus::{
    core_event, core_event_at, cuts_at, is_short_lived, retained, short_lived_types, health_alert_event, payload_form, payload_form_given,
    task_restarted_event, validate, HomeEvent, InvalidField, PayloadForm, PublishError,
    SCHEMA_VERSION,
};

fn sample(id: &str, ty: &str, ts: i64) -> HomeEvent {
    HomeEvent {
        event_id: id.into(),
        event_type: ty.into(),
        source_id: "test".into(),
        room_id: "room-1".into(),
        person_id: String::new(),
        timestamp_ms: ts,
        confidence_bits: 1.0f64.to_bits(),
        payload: vec![],
        schema_version: SCHEMA_VERSION,
    }
}

fn invalid(ev: &HomeEvent) -> Option<InvalidField> {
    match validate(ev) {
        Ok(()) => None,
        Err(PublishError::Invalid(f)) => Some(f),
        Err(PublishError::Db(_)) => panic!("validation never reports storage"),
    }
}

#[test]
fn rejects_invalid_events() {
    let mut ev = sample("ok", "demo", 1);
    ev.event_id.clear();
    assert!(matches!(validate(&ev), Err(PublishError::Invalid(_))));
}

#[test]
fn each_rule_names_its_field() {
    assert_eq!(invalid(&sample("ok", "demo", 1)), None);
    assert_eq!(invalid(&sample("ok", "", 1)), Some(InvalidField::EventType));
    assert_eq!(invalid(&sample("ok", "demo", 0)), Some(InvalidField::TimestampMs));
    let mut ev = sample("ok", "demo", 1);
    ev.schema_version = 2;
    assert_eq!(invalid(&ev), Some(InvalidField::SchemaVersion));
    assert_eq!(InvalidField::SchemaVersion.as_str(), "schema_version");
}

#[test]
fn confidence_must_be_a_unit_fraction() {
    for (c, ok) in [
        (0.0f64, true),
        (-0.0, true),
        (0.5, true),
        (1.0, true),
        (f64::MIN_POSITIVE / 2.0, true),
        (1.0000001, false),
        (-0.1, false),
        (f64::NAN, false),
        (f64::INFINITY, false),
        (f64::NEG_INFINITY, false),
    ] {
        let mut ev = sample("ok", "demo", 1);
        ev.confidence_bits = c.to_bits();
        let expected = c.is_finite() && (0.0..=1.0).contains(&c);
        assert_eq!(expected, ok, "{c}");
        assert_eq!(invalid(&ev).is_none(), ok, "{c}");
    }
}

#[test]
fn retention_cuts() {
    let now = 1_700_000_000_000;
    let c = cuts_at(now);
    assert_eq!(c.default_before_ms, now - 90 * 24 * 3600 * 1000);
    assert_eq!(c.presence_raw_before_ms, now - 24 * 3600 * 1000);
}

#[test]
fn core_events_are_valid_and_named() {
    let ev = core_event("core.x", "api", "7", b"{}".to_vec());
    assert_eq!(ev.event_id, "core.x:api:7");
    assert_eq!(f64::from_bits(ev.confidence_bits), 1.0);
    assert!(ev.room_id.is_empty() && ev.person_id.is_empty());
    assert!(ev.timestamp_ms > 0);
    assert!(validate(&ev).is_ok());

    let r = task_restarted_event("boom", 3);
    assert_eq!(r.event_id, "core.task_restarted:boom:3");
    assert_eq!(r.payload, br#"{"attempt":3}"#.to_vec());
    let a = health_alert_event("loop", 5);
    assert_eq!(a.event_type, "core.health_alert");
    assert_eq!(a.source_id, "loop");
    assert_eq!(a.event_id, "core.health_alert:loop:loop-5");
    assert_eq!(a.payload, br#"{"restarts_in_window":5}"#.to_vec());
}

#[test]
fn payloads_show_as_json_or_hex() {
    assert_eq!(payload_form(b""), PayloadForm::Absent);
    assert_eq!(payload_form(br#"{"on":true}"#), PayloadForm::Json);
    assert_eq!(payload_form(b"42"), PayloadForm::Json);
    assert_eq!(payload_form(&[0xde, 0xad, 0x01]), PayloadForm::Hex("dead01".to_string()));
    assert_eq!(payload_form(b"{oops"), PayloadForm::Hex("7b6f6f7073".to_string()));
    assert_eq!(payload_form_given(b"ab", true), PayloadForm::Json);
    assert_eq!(payload_form_given(b"ab", false), PayloadForm::Hex("6162".to_string()));
    assert_eq!(payload_form_given(b"", false), PayloadForm::Absent);
}

#[test]
fn core_event_at_is_stamped_with_the_given_time() {
    let ev = core_event_at("core.test", "src", "u1", b"{}".to_vec(), 1_700_000_000_000);
    assert_eq!(ev.timestamp_ms, 1_700_000_000_000);
    assert_eq!(ev.event_id, "core.test:src:u1");
    assert!(validate(&ev).is_ok());
    let early = core_event_at("core.test", "src", "u1", vec![], 0);
    assert!(matches!(validate(&early), Err(PublishError::Invalid(InvalidField::TimestampMs))));
}

#[test]
fn retention_deletes_old_rows_by_type() {
    let now = 1_700_000_000_000i64;
    let cuts = cuts_at(now);
    let hour = 3_600_000i64;
    let events = vec![
        sample("old-pres", "presence.raw", now - 48 * hour),
        sample("old-core", "core.health_alert", now - 100 * 24 * hour),
        sample("fresh", "presence.raw", now - 1000),
        sample("mid-core", "core.health_alert", now - 48 * hour),
    ];
    let kept: Vec<String> = retained(events, &cuts).into_iter().map(|e| e.event_id).collect();
    assert_eq!(kept, vec!["fresh".to_string(), "mid-core".to_string()]);
    assert!(is_short_lived("presence.signal"));
    assert!(!is_short_lived("presence"));
    assert_eq!(short_lived_types(), vec!["presence.raw", "presence.signal"]);
}
