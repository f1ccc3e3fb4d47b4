//! What the local API's handlers compute: the status summary, rows built
//! from create requests, a room's devices and sensors, and the events that
//! commands publish.

use vstd::prelude::*;

use crate::bus::{core_event_at, core_event_id, json_string, json_string_text, HomeEvent, FULL_CONFIDENCE_BITS,
    SCHEMA_VERSION};
use vstd::utf8::encode_utf8;
use crate::config::Config;
use crate::house::opt_view;
use crate::model::{Device, Room, Sensor};
use crate::text::{all_space, decimal, only_space, push_char, push_decimal};
use crate::tokens::TokenRecord;

verus! {

/// Body of `GET /api/v1/status`.
#[derive(Debug)]
pub struct StatusBody {
    pub status: &'static str,
    pub llm: String,
    pub stt: String,
    pub tts: String,
    pub wake: String,
    pub token_id: String,
}

/// The status summary for a caller holding `rec`: worker URLs and wake
/// word from the configuration, and the caller's token id.
pub fn status_body(config: &Config, rec: &TokenRecord) -> (r: StatusBody)
    ensures
        r.status@ == "ok"@,
        r.llm@ == config.llm.url@,
        r.stt@ == config.stt.url@,
        r.tts@ == config.tts.url@,
        r.wake@ == config.wake.keyword@,
        r.token_id@ == rec.id@,
{
    StatusBody {
        status: "ok",
        llm: config.llm.url.clone(),
        stt: config.stt.url.clone(),
        tts: config.tts.url.clone(),
        wake: config.wake.keyword.clone(),
        token_id: rec.id.clone(),
    }
}

/// Decimal notation of a signed number.
pub open spec fn signed_decimal(n: int) -> Seq<char> {
    if n < 0 {
        seq!['-'] + decimal((-n) as nat)
    } else {
        decimal(n as nat)
    }
}

/// `<prefix>-<n>`: the id given to a row created without one.
pub open spec fn generated_id(prefix: Seq<char>, n: i64) -> Seq<char> {
    prefix + seq!['-'] + signed_decimal(n as int)
}

fn generated_id_string(prefix: &str, n: i64) -> (r: String)
    ensures
        r@ == generated_id(prefix@, n),
{
    let mut s = String::from_str(prefix);
    push_char(&mut s, '-');
    if n < 0 {
        push_char(&mut s, '-');
        let m: u64 = (0i128 - (n as i128)) as u64;
        push_decimal(&mut s, m);
    } else {
        push_decimal(&mut s, n as u64);
    }
    assert(s@ =~= generated_id(prefix@, n));
    s
}

fn or_default(given: Option<String>, fallback: &str) -> (r: String)
    ensures
        r@ == match given {
            Some(s) => s@,
            None => fallback@,
        },
{
    match given {
        Some(s) => s,
        None => String::from_str(fallback),
    }
}

/// The room a create request describes; without an id it is named after
/// the request time `now_ms`, without a kind it is indoor.
pub fn room_from_request(
    id: Option<String>,
    floor_id: String,
    name: String,
    kind: Option<String>,
    now_ms: i64,
) -> (r: Room)
    ensures
        r.id@ == match id {
            Some(s) => s@,
            None => generated_id("room"@, now_ms),
        },
        r.floor_id@ == floor_id@,
        r.name@ == name@,
        r.kind@ == match kind {
            Some(s) => s@,
            None => "indoor"@,
        },
{
    let id = match id {
        Some(s) => s,
        None => generated_id_string("room", now_ms),
    };
    Room { id, floor_id, name, kind: or_default(kind, "indoor") }
}

/// The device a create request describes; without an id it is named after
/// the request time, without a kind it is of unknown kind.
pub fn device_from_request(
    id: Option<String>,
    room_id: String,
    name: String,
    kind: Option<String>,
    protocol: Option<String>,
    now_ms: i64,
) -> (r: Device)
    ensures
        r.id@ == match id {
            Some(s) => s@,
            None => generated_id("device"@, now_ms),
        },
        r.room_id@ == room_id@,
        r.name@ == name@,
        r.kind@ == match kind {
            Some(s) => s@,
            None => "unknown"@,
        },
        opt_view(r.protocol) == opt_view(protocol),
{
    let id = match id {
        Some(s) => s,
        None => generated_id_string("device", now_ms),
    };
    Device { id, room_id, name, kind: or_default(kind, "unknown"), protocol }
}

/// The sensor a create request describes; without an id it is named after
/// the request time.
pub fn sensor_from_request(
    id: Option<String>,
    room_id: Option<String>,
    device_id: Option<String>,
    kind: String,
    now_ms: i64,
) -> (r: Sensor)
    ensures
        r.id@ == match id {
            Some(s) => s@,
            None => generated_id("sensor"@, now_ms),
        },
        opt_view(r.room_id) == opt_view(room_id),
        opt_view(r.device_id) == opt_view(device_id),
        r.kind@ == kind@,
{
    let id = match id {
        Some(s) => s,
        None => generated_id_string("sensor", now_ms),
    };
    Sensor { id, room_id, device_id, kind }
}

/// Whether device `d` is attached to room `room`.
pub open spec fn device_in(room: Seq<char>) -> spec_fn(Device) -> bool {
    |d: Device| d.room_id@ == room
}

/// Whether sensor `s` is attached to room `room`.
pub open spec fn sensor_in(room: Seq<char>) -> spec_fn(Sensor) -> bool {
    |s: Sensor| opt_view(s.room_id) == Some(room)
}

/// The devices attached to room `room`, in their order, each as it was.
pub fn devices_in_room(devices: Vec<Device>, room: &str) -> (r: Vec<Device>)
    ensures
        r@ == devices@.filter(device_in(room@)),
        forall|i: int| 0 <= i < r.len() ==> (#[trigger] r[i]).room_id@ == room@,
        forall|i: int| 0 <= i < devices.len() && devices[i].room_id@ == room@ ==> r@.contains(#[trigger] devices@[i]),
        forall|d: Device| #[trigger] r@.contains(d) ==> devices@.contains(d) && d.room_id@ == room@,
{
    let ghost orig = devices@;
    let n = devices.len();
    let mut rest = devices;
    let mut out: Vec<Device> = Vec::new();
    let mut i: usize = 0;
    while i < n
        invariant
            n == orig.len(),
            i <= n,
            rest@ == orig.skip(i as int),
            out@ == orig.take(i as int).filter(device_in(room@)),
        decreases n - i,
    {
        let d = rest.remove(0);
        assert(d == orig[i as int]);
        assert(orig.take(i + 1).drop_last() =~= orig.take(i as int));
        assert(orig.take(i + 1).last() == orig[i as int]);
        let ghost before = out@;
        proof {
            reveal(Seq::filter);
        }
        assert(orig.take(i + 1).filter(device_in(room@)) == if device_in(room@)(d) {
            before.push(d)
        } else {
            before
        });
        assert(rest@ =~= orig.skip(i + 1));
        if crate::text::str_eq(d.room_id.as_str(), room) {
            out.push(d);
        }
        i = i + 1;
    }
    assert(orig.take(n as int) =~= orig);
    proof {
        law_room_devices_exact(orig, room@);
    }
    out
}

/// The sensors attached to room `room`, in their order, each as it was.
pub fn sensors_in_room(sensors: Vec<Sensor>, room: &str) -> (r: Vec<Sensor>)
    ensures
        r@ == sensors@.filter(sensor_in(room@)),
        forall|i: int| 0 <= i < r.len() ==> opt_view((#[trigger] r[i]).room_id) == Some(room@),
        forall|i: int| 0 <= i < sensors.len() && opt_view(sensors[i].room_id) == Some(room@) ==> r@.contains(#[trigger] sensors@[i]),
        forall|s: Sensor| #[trigger] r@.contains(s) ==> sensors@.contains(s) && opt_view(s.room_id) == Some(room@),
{
    let ghost orig = sensors@;
    let n = sensors.len();
    let mut rest = sensors;
    let mut out: Vec<Sensor> = Vec::new();
    let mut i: usize = 0;
    while i < n
        invariant
            n == orig.len(),
            i <= n,
            rest@ == orig.skip(i as int),
            out@ == orig.take(i as int).filter(sensor_in(room@)),
        decreases n - i,
    {
        let s = rest.remove(0);
        assert(s == orig[i as int]);
        assert(orig.take(i + 1).drop_last() =~= orig.take(i as int));
        assert(orig.take(i + 1).last() == orig[i as int]);
        let ghost before = out@;
        proof {
            reveal(Seq::filter);
        }
        assert(orig.take(i + 1).filter(sensor_in(room@)) == if sensor_in(room@)(s) {
            before.push(s)
        } else {
            before
        });
        assert(rest@ =~= orig.skip(i + 1));
        let here = match &s.room_id {
            Some(r) => crate::text::str_eq(r.as_str(), room),
            None => false,
        };
        if here {
            out.push(s);
        }
        i = i + 1;
    }
    assert(orig.take(n as int) =~= orig);
    proof {
        law_room_sensors_exact(orig, room@);
    }
    out
}

/// A room's devices are exactly the devices whose room is that room: every
/// one listed has `room_id` equal to the room, every device with that
/// `room_id` is listed, and nothing else is (a device of room `R + "0"` is
/// never listed for `R`).
pub proof fn law_room_devices_exact(devices: Seq<Device>, room: Seq<char>)
    ensures
        forall|i: int|
            0 <= i < devices.filter(device_in(room)).len() ==> (#[trigger] devices.filter(device_in(room))[i]).room_id@
                == room,
        forall|i: int|
            0 <= i < devices.len() && devices[i].room_id@ == room ==> devices.filter(device_in(room)).contains(
                #[trigger] devices[i],
            ),
        forall|d: Device| #[trigger] devices.filter(device_in(room)).contains(d) ==> devices.contains(d) && d.room_id@ == room,
{
    let f = devices.filter(device_in(room));
    assert forall|i: int| 0 <= i < f.len() implies (#[trigger] f[i]).room_id@ == room by {
        devices.lemma_filter_pred(device_in(room), i);
    }
    assert forall|i: int| 0 <= i < devices.len() && devices[i].room_id@ == room implies f.contains(#[trigger] devices[i]) by {
        devices.lemma_filter_contains(device_in(room), i);
    }
    assert forall|d: Device| #[trigger] f.contains(d) implies devices.contains(d) && d.room_id@ == room by {
        devices.lemma_filter_contains_rev(device_in(room), d);
        let i = choose|i: int| 0 <= i < f.len() && f[i] == d;
        devices.lemma_filter_pred(device_in(room), i);
    }
}

/// A room's sensors are exactly the sensors attached to that room: every
/// one listed has `room_id == Some(room)`, every such sensor is listed, and
/// nothing else is.
pub proof fn law_room_sensors_exact(sensors: Seq<Sensor>, room: Seq<char>)
    ensures
        forall|i: int|
            0 <= i < sensors.filter(sensor_in(room)).len() ==> opt_view(
                (#[trigger] sensors.filter(sensor_in(room))[i]).room_id,
            ) == Some(room),
        forall|i: int|
            0 <= i < sensors.len() && opt_view(sensors[i].room_id) == Some(room) ==> sensors.filter(
                sensor_in(room),
            ).contains(#[trigger] sensors[i]),
        forall|s: Sensor|
            #[trigger] sensors.filter(sensor_in(room)).contains(s) ==> sensors.contains(s) && opt_view(s.room_id)
                == Some(room),
{
    let f = sensors.filter(sensor_in(room));
    assert forall|i: int| 0 <= i < f.len() implies opt_view((#[trigger] f[i]).room_id) == Some(room) by {
        sensors.lemma_filter_pred(sensor_in(room), i);
    }
    assert forall|i: int| 0 <= i < sensors.len() && opt_view(sensors[i].room_id) == Some(room) implies f.contains(
        #[trigger] sensors[i],
    ) by {
        sensors.lemma_filter_contains(sensor_in(room), i);
    }
    assert forall|s: Sensor| #[trigger] f.contains(s) implies sensors.contains(s) && opt_view(s.room_id) == Some(room) by {
        sensors.lemma_filter_contains_rev(sensor_in(room), s);
        let i = choose|i: int| 0 <= i < f.len() && f[i] == s;
        sensors.lemma_filter_pred(sensor_in(room), i);
    }
}

/// Why a handler refused a request.
#[derive(Debug, Clone, Copy, PartialEq, Eq, Structural)]
pub enum ApiRefusal {
    /// The room named in the path does not exist.
    RoomNotFound,
    /// The room named in the body does not exist.
    UnknownRoom,
    /// The device named in the path does not exist.
    DeviceNotFound,
    /// A device command without an action.
    ActionRequired,
    /// A voice request without text.
    TextRequired,
}

pub open spec fn refusal_status(r: ApiRefusal) -> u16 {
    match r {
        ApiRefusal::RoomNotFound => 404,
        ApiRefusal::DeviceNotFound => 404,
        _ => 400,
    }
}

pub open spec fn refusal_message(r: ApiRefusal) -> Seq<char> {
    match r {
        ApiRefusal::RoomNotFound => "room not found"@,
        ApiRefusal::UnknownRoom => "room not found"@,
        ApiRefusal::DeviceNotFound => "device not found"@,
        ApiRefusal::ActionRequired => "action required"@,
        ApiRefusal::TextRequired => "text required"@,
    }
}

impl ApiRefusal {
    /// The HTTP status of the refusal.
    pub fn status(self) -> (r: u16)
        ensures
            r == refusal_status(self),
    {
        match self {
            ApiRefusal::RoomNotFound => 404,
            ApiRefusal::DeviceNotFound => 404,
            _ => 400,
        }
    }

    /// The body text of the refusal.
    pub fn message(self) -> (r: &'static str)
        ensures
            r@ == refusal_message(self),
    {
        match self {
            ApiRefusal::RoomNotFound => "room not found",
            ApiRefusal::UnknownRoom => "room not found",
            ApiRefusal::DeviceNotFound => "device not found",
            ApiRefusal::ActionRequired => "action required",
            ApiRefusal::TextRequired => "text required",
        }
    }
}

/// Whether a command for a device may be published: the device must
/// exist (`device_found`), then the action must hold a non-space character.
pub fn command_check(device_found: bool, action: &str) -> (r: Result<(), ApiRefusal>)
    ensures
        !device_found ==> r == Err::<(), ApiRefusal>(ApiRefusal::DeviceNotFound),
        device_found && all_space(action@) ==> r == Err::<(), ApiRefusal>(ApiRefusal::ActionRequired),
        device_found && !all_space(action@) ==> r is Ok,
{
    if !device_found {
        Err(ApiRefusal::DeviceNotFound)
    } else if only_space(action) {
        Err(ApiRefusal::ActionRequired)
    } else {
        Ok(())
    }
}

/// Whether a voice request may be published: the text must hold a
/// non-space character, then the room (`room_found`) must exist.
pub fn voice_say_check(text: &str, room_found: bool) -> (r: Result<(), ApiRefusal>)
    ensures
        all_space(text@) ==> r == Err::<(), ApiRefusal>(ApiRefusal::TextRequired),
        !all_space(text@) && !room_found ==> r == Err::<(), ApiRefusal>(ApiRefusal::UnknownRoom),
        !all_space(text@) && room_found ==> r is Ok,
{
    if only_space(text) {
        Err(ApiRefusal::TextRequired)
    } else if !room_found {
        Err(ApiRefusal::UnknownRoom)
    } else {
        Ok(())
    }
}

/// What the live event stream just observed.
#[derive(Debug, Clone, Copy, PartialEq, Eq, Structural)]
pub enum StreamInput {
    /// The client's side ended: the socket closed, failed, or sent Close.
    ClientGone,
    /// Some other frame from the client.
    ClientFrame,
    /// The bus delivered an event; `encoded` tells whether it became JSON text.
    Event { encoded: bool },
    /// The subscriber fell behind and missed events.
    Lagged,
    /// The bus shut down.
    BusClosed,
    /// A frame could not be sent to the client.
    SendFailed,
}

/// What the event stream does next.
#[derive(Debug, Clone, Copy, PartialEq, Eq, Structural)]
pub enum StreamAction {
    /// Close the stream.
    Stop,
    /// Keep waiting for the next input.
    Wait,
    /// Send the encoded event to the client.
    Send,
}

pub open spec fn stream_next(input: StreamInput) -> StreamAction {
    match input {
        StreamInput::ClientGone => StreamAction::Stop,
        StreamInput::ClientFrame => StreamAction::Wait,
        StreamInput::Event { encoded } => if encoded {
            StreamAction::Send
        } else {
            StreamAction::Wait
        },
        StreamInput::Lagged => StreamAction::Wait,
        StreamInput::BusClosed => StreamAction::Stop,
        StreamInput::SendFailed => StreamAction::Stop,
    }
}

/// The event stream's decision on one input: it ends when either side
/// goes away or a send fails, forwards every event that encodes, and skips
/// the rest.
pub fn stream_step(input: StreamInput) -> (r: StreamAction)
    ensures
        r == stream_next(input),
{
    match input {
        StreamInput::ClientGone => StreamAction::Stop,
        StreamInput::ClientFrame => StreamAction::Wait,
        StreamInput::Event { encoded } => if encoded {
            StreamAction::Send
        } else {
            StreamAction::Wait
        },
        StreamInput::Lagged => StreamAction::Wait,
        StreamInput::BusClosed => StreamAction::Stop,
        StreamInput::SendFailed => StreamAction::Stop,
    }
}

/// `token:<id>`: the source of events a token holder causes.
pub open spec fn token_source(token_id: Seq<char>) -> Seq<char> {
    "token:"@ + token_id
}

/// The event a command from token `token_id` publishes for room `room_id`
/// at `now`: a core event from `token:<id>` with the given unique suffix
/// and payload, placed in the room.
pub fn api_event(event_type: &str, token_id: &str, room_id: &str, unique: &str, payload: Vec<u8>, now: i64) -> (r: HomeEvent)
    ensures
        r.event_type@ == event_type@,
        r.source_id@ == token_source(token_id@),
        r.event_id@ == core_event_id(event_type@, token_source(token_id@), unique@),
        r.room_id@ == room_id@,
        r.person_id@.len() == 0,
        r.timestamp_ms == now,
        r.payload@ == payload@,
        r.confidence_bits == FULL_CONFIDENCE_BITS,
        r.schema_version == SCHEMA_VERSION,
{
    let mut source = String::from_str("token:");
    source.append(token_id);
    let mut event = core_event_at(event_type, source.as_str(), unique, payload, now);
    event.room_id = String::from_str(room_id);
    event
}

/// `{"room_id":..,"text":..,"token_id":..}`: the payload of a voice
/// request, keys in order, each value a JSON string.
pub open spec fn voice_say_payload(room_id: Seq<char>, text: Seq<char>, token_id: Seq<char>) -> Seq<char> {
    "{\"room_id\":"@ + json_string_text(room_id) + ",\"text\":"@ + json_string_text(text) + ",\"token_id\":"@
        + json_string_text(token_id) + "}"@
}

/// The event a voice request from token `token_id` publishes: a
/// `voice.say` event in room `room_id`, stamped `now`, whose unique suffix
/// is `<now>-<seq>` and whose payload names the room, the text and the token.
pub fn voice_say_event(room_id: &str, text: &str, token_id: &str, now: i64, seq: u64) -> (r: HomeEvent)
    ensures
        r.event_type@ == "voice.say"@,
        r.source_id@ == token_source(token_id@),
        r.event_id@ == core_event_id("voice.say"@, token_source(token_id@), command_unique(now, seq)),
        r.room_id@ == room_id@,
        r.person_id@.len() == 0,
        r.timestamp_ms == now,
        r.payload@ == encode_utf8(voice_say_payload(room_id@, text@, token_id@)),
        r.confidence_bits == FULL_CONFIDENCE_BITS,
        r.schema_version == SCHEMA_VERSION,
{
    let mut body = String::from_str("{\"room_id\":");
    body.append(json_string(room_id).as_str());
    body.append(",\"text\":");
    body.append(json_string(text).as_str());
    body.append(",\"token_id\":");
    body.append(json_string(token_id).as_str());
    body.append("}");
    assert(body@ =~= voice_say_payload(room_id@, text@, token_id@));
    let payload = body.as_str().as_bytes_vec();
    let unique = command_unique_string(now, seq);
    api_event("voice.say", token_id, room_id, unique.as_str(), payload, now)
}

/// `{"action":..,"device_id":..,"params":..,"token_id":..}`: the payload of
/// a device command, keys in order; `params` is the command's parameters
/// as JSON text, the other values JSON strings.
pub open spec fn device_command_payload(
    action: Seq<char>,
    device_id: Seq<char>,
    params: Seq<char>,
    token_id: Seq<char>,
) -> Seq<char> {
    "{\"action\":"@ + json_string_text(action) + ",\"device_id\":"@ + json_string_text(device_id)
        + ",\"params\":"@ + params + ",\"token_id\":"@ + json_string_text(token_id) + "}"@
}

/// The event a command from token `token_id` to device `device_id` (in
/// room `room_id`) publishes: a `device.command` event in the device's
/// room, stamped `now`, with unique suffix `<now>-<seq>`, whose payload
/// names the action, the device, the parameters (`params`, JSON text) and
/// the token.
pub fn device_command_event(
    device_id: &str,
    room_id: &str,
    action: &str,
    params: &str,
    token_id: &str,
    now: i64,
    seq: u64,
) -> (r: HomeEvent)
    ensures
        r.event_type@ == "device.command"@,
        r.source_id@ == token_source(token_id@),
        r.event_id@ == core_event_id("device.command"@, token_source(token_id@), command_unique(now, seq)),
        r.room_id@ == room_id@,
        r.person_id@.len() == 0,
        r.timestamp_ms == now,
        r.payload@ == encode_utf8(device_command_payload(action@, device_id@, params@, token_id@)),
        r.confidence_bits == FULL_CONFIDENCE_BITS,
        r.schema_version == SCHEMA_VERSION,
{
    let mut body = String::from_str("{\"action\":");
    body.append(json_string(action).as_str());
    body.append(",\"device_id\":");
    body.append(json_string(device_id).as_str());
    body.append(",\"params\":");
    body.append(params);
    body.append(",\"token_id\":");
    body.append(json_string(token_id).as_str());
    body.append("}");
    assert(body@ =~= device_command_payload(action@, device_id@, params@, token_id@));
    let payload = body.as_str().as_bytes_vec();
    let unique = command_unique_string(now, seq);
    api_event("device.command", token_id, room_id, unique.as_str(), payload, now)
}

/// `{"action":..,"device_id":..,"status":"accepted"}`: the reply to an
/// accepted device command.
pub open spec fn device_command_reply_text(action: Seq<char>, device_id: Seq<char>) -> Seq<char> {
    "{\"action\":"@ + json_string_text(action) + ",\"device_id\":"@ + json_string_text(device_id)
        + ",\"status\":\"accepted\"}"@
}

/// The reply body to an accepted command `action` for device `device_id`.
pub fn device_command_reply(action: &str, device_id: &str) -> (r: String)
    ensures
        r@ == device_command_reply_text(action@, device_id@),
{
    let mut body = String::from_str("{\"action\":");
    body.append(json_string(action).as_str());
    body.append(",\"device_id\":");
    body.append(json_string(device_id).as_str());
    body.append(",\"status\":\"accepted\"}");
    assert(body@ =~= device_command_reply_text(action@, device_id@));
    body
}

/// `{"room_id":..,"status":"accepted"}`: the reply to an accepted voice request.
pub open spec fn voice_say_reply_text(room_id: Seq<char>) -> Seq<char> {
    "{\"room_id\":"@ + json_string_text(room_id) + ",\"status\":\"accepted\"}"@
}

/// The reply body to an accepted voice request for room `room_id`.
pub fn voice_say_reply(room_id: &str) -> (r: String)
    ensures
        r@ == voice_say_reply_text(room_id@),
{
    let mut body = String::from_str("{\"room_id\":");
    body.append(json_string(room_id).as_str());
    body.append(",\"status\":\"accepted\"}");
    assert(body@ =~= voice_say_reply_text(room_id@));
    body
}

/// `<now>-<seq>`: the unique suffix of a command event.
pub open spec fn command_unique(now_ms: i64, seq: u64) -> Seq<char> {
    signed_decimal(now_ms as int) + seq!['-'] + decimal(seq as nat)
}

pub fn command_unique_string(now_ms: i64, seq: u64) -> (r: String)
    ensures
        r@ == command_unique(now_ms, seq),
{
    let mut s = String::new();
    if now_ms < 0 {
        push_char(&mut s, '-');
        let m: u64 = (0i128 - (now_ms as i128)) as u64;
        push_decimal(&mut s, m);
    } else {
        push_decimal(&mut s, now_ms as u64);
    }
    push_char(&mut s, '-');
    push_decimal(&mut s, seq);
    assert(s@ =~= command_unique(now_ms, seq));
    s
}

} // verus!
