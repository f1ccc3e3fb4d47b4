use homeai::api::{
    api_event, command_check, command_unique_string, device_from_request, devices_in_room,
    room_from_request, sensor_from_request, sensors_in_room, status_body, stream_step,
    voice_say_check, voice_say_event, device_command_event, device_command_reply, voice_say_reply, ApiRefusal, StreamAction, StreamInput,
};
use homeai::bus::validate;
use homeai::config::Config;
use homeai::model::{Device, Sensor};
use homeai::tokens::{Scope, TokenRecord};

#[test]
fn status_reports_config_and_caller() {
    let rec = TokenRecord { id: "tester".into(), secret: "s".into(), scopes: vec![Scope::Read], created_ms: 1 };
    let body = status_body(&Config::default(), &rec);
    assert_eq!(body.status, "ok");
    assert_eq!(body.llm, "http://127.0.0.1:8200");
    assert_eq!(body.stt, "http://127.0.0.1:8100");
    assert_eq!(body.tts, "http://127.0.0.1:8300");
    assert_eq!(body.wake, "hey home");
    assert_eq!(body.token_id, "tester");
}

#[test]
fn created_rows_get_defaults() {
    let room = room_from_request(None, "floor-1".into(), "Kitchen".into(), None, 1_700);
    assert_eq!(room.id, "room-1700");
    assert_eq!(room.kind, "indoor");
    let room = room_from_request(Some("room-kitchen".into()), "f".into(), "K".into(), Some("garage".into()), 1);
    assert_eq!(room.id, "room-kitchen");
    assert_eq!(room.kind, "garage");
    let dev = device_from_request(None, "room-kitchen".into(), "Kitchen light".into(), None, None, -5);
    assert_eq!(dev.id, "device--5");
    assert_eq!(dev.kind, "unknown");
    assert_eq!(dev.protocol, None);
    let s = sensor_from_request(None, Some("r".into()), None, "motion".into(), 42);
    assert_eq!(s.id, "sensor-42");
    assert_eq!(s.room_id.as_deref(), Some("r"));
}

#[test]
fn room_detail_lists_its_devices_and_sensors() {
    let devices = vec![
        Device { id: "a".into(), room_id: "k".into(), name: "A".into(), kind: "light".into(), protocol: None },
        Device { id: "b".into(), room_id: "x".into(), name: "B".into(), kind: "light".into(), protocol: None },
        Device { id: "c".into(), room_id: "k".into(), name: "C".into(), kind: "plug".into(), protocol: Some("matter".into()) },
    ];
    let in_k: Vec<String> = devices_in_room(devices.clone(), "k").into_iter().map(|d| d.id).collect();
    assert_eq!(in_k, vec!["a".to_string(), "c".to_string()]);
    let sensors = vec![
        Sensor { id: "s1".into(), room_id: None, device_id: Some("a".into()), kind: "t".into() },
        Sensor { id: "s2".into(), room_id: Some("k".into()), device_id: None, kind: "t".into() },
    ];
    let in_k: Vec<String> = sensors_in_room(sensors.clone(), "k").into_iter().map(|s| s.id).collect();
    assert_eq!(in_k, vec!["s2".to_string()]);
    let kept = devices_in_room(devices, "k");
    assert_eq!(kept[1].name, "C");
    assert_eq!(kept[1].kind, "plug");
    assert_eq!(kept[1].protocol.as_deref(), Some("matter"));
    let kept = sensors_in_room(sensors, "k");
    assert_eq!(kept[0].kind, "t");
}

#[test]
fn command_events_come_from_the_token() {
    let unique = command_unique_string(1_700_000, 3);
    assert_eq!(unique, "1700000-3");
    let ev = api_event("voice.say", "reader", "room-kitchen", &unique, br#"{"text":"hi"}"#.to_vec(), 1_700_000);
    assert_eq!(ev.timestamp_ms, 1_700_000);
    assert_eq!(ev.event_id, "voice.say:token:reader:1700000-3");
    assert_eq!(ev.source_id, "token:reader");
    assert_eq!(ev.room_id, "room-kitchen");
    assert!(validate(&ev).is_ok());
}

#[test]
fn device_command_needs_a_device_then_an_action() {
    assert_eq!(command_check(false, "on"), Err(ApiRefusal::DeviceNotFound));
    assert_eq!(command_check(false, "  "), Err(ApiRefusal::DeviceNotFound));
    assert_eq!(command_check(true, " \t "), Err(ApiRefusal::ActionRequired));
    assert_eq!(command_check(true, ""), Err(ApiRefusal::ActionRequired));
    assert_eq!(command_check(true, " on "), Ok(()));
    assert_eq!(ApiRefusal::DeviceNotFound.status(), 404);
    assert_eq!(ApiRefusal::DeviceNotFound.message(), "device not found");
    assert_eq!(ApiRefusal::ActionRequired.status(), 400);
    assert_eq!(ApiRefusal::ActionRequired.message(), "action required");
}

#[test]
fn voice_request_needs_text_then_a_room() {
    assert_eq!(voice_say_check("   ", false), Err(ApiRefusal::TextRequired));
    assert_eq!(voice_say_check("\u{3000}", true), Err(ApiRefusal::TextRequired));
    assert_eq!(voice_say_check("hello", false), Err(ApiRefusal::UnknownRoom));
    assert_eq!(voice_say_check("hello", true), Ok(()));
    assert_eq!(ApiRefusal::UnknownRoom.status(), 400);
    assert_eq!(ApiRefusal::UnknownRoom.message(), "room not found");
    assert_eq!(ApiRefusal::RoomNotFound.status(), 404);
    assert_eq!(ApiRefusal::TextRequired.message(), "text required");
}

#[test]
fn event_stream_stops_when_either_side_goes() {
    assert_eq!(stream_step(StreamInput::ClientGone), StreamAction::Stop);
    assert_eq!(stream_step(StreamInput::BusClosed), StreamAction::Stop);
    assert_eq!(stream_step(StreamInput::SendFailed), StreamAction::Stop);
    assert_eq!(stream_step(StreamInput::ClientFrame), StreamAction::Wait);
    assert_eq!(stream_step(StreamInput::Lagged), StreamAction::Wait);
    assert_eq!(stream_step(StreamInput::Event { encoded: false }), StreamAction::Wait);
    assert_eq!(stream_step(StreamInput::Event { encoded: true }), StreamAction::Send);
}

#[test]
fn voice_request_publishes_its_event() {
    let ev = voice_say_event("room-kitchen", "good \"evening\"", "reader", 1_700, 4);
    assert_eq!(ev.event_type, "voice.say");
    assert_eq!(ev.event_id, "voice.say:token:reader:1700-4");
    assert_eq!(ev.source_id, "token:reader");
    assert_eq!(ev.room_id, "room-kitchen");
    assert_eq!(ev.timestamp_ms, 1_700);
    let mut body = serde_json::Map::new();
    body.insert("room_id".to_string(), serde_json::Value::String("room-kitchen".into()));
    body.insert("text".to_string(), serde_json::Value::String("good \"evening\"".into()));
    body.insert("token_id".to_string(), serde_json::Value::String("reader".into()));
    let expected = serde_json::Value::Object(body).to_string();
    assert_eq!(String::from_utf8(ev.payload.clone()).unwrap(), expected);
    assert_eq!(
        String::from_utf8(ev.payload.clone()).unwrap(),
        r#"{"room_id":"room-kitchen","text":"good \"evening\"","token_id":"reader"}"#
    );
    assert!(validate(&ev).is_ok());
    assert_eq!(voice_say_reply("room-kitchen"), r#"{"room_id":"room-kitchen","status":"accepted"}"#);
}

#[test]
fn device_command_publishes_its_event() {
    let params = serde_json::Value::Null.to_string();
    let ev = device_command_event("light-kitchen", "room-kitchen", "on", &params, "writer", 5, 2);
    assert_eq!(ev.event_type, "device.command");
    assert_eq!(ev.event_id, "device.command:token:writer:5-2");
    assert_eq!(ev.room_id, "room-kitchen");
    let mut body = serde_json::Map::new();
    body.insert("device_id".to_string(), serde_json::Value::String("light-kitchen".into()));
    body.insert("action".to_string(), serde_json::Value::String("on".into()));
    body.insert("params".to_string(), serde_json::Value::Null);
    body.insert("token_id".to_string(), serde_json::Value::String("writer".into()));
    assert_eq!(String::from_utf8(ev.payload).unwrap(), serde_json::Value::Object(body).to_string());
    assert_eq!(
        device_command_reply("on", "light-kitchen"),
        r#"{"action":"on","device_id":"light-kitchen","status":"accepted"}"#
    );
}
