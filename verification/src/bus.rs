//! Home events on the in-process bus: what makes one valid, how the core
//! builds its own, and how long the event log keeps them.

use vstd::prelude::*;
use vstd::utf8::encode_utf8;

use crate::clock::now_ms;
use crate::text::{decimal, push_char, push_decimal};
use crate::tokens::{hex, hex_seq};

verus! {

/// Version of the event schema this core speaks.
pub const SCHEMA_VERSION: u32 = 1;

/// Ordinary events stay in the log for 90 days (milliseconds).
pub const DEFAULT_RETENTION_MS: i64 = 7_776_000_000;

/// Raw presence signals stay for one day (milliseconds).
pub const PRESENCE_RAW_RETENTION_MS: i64 = 86_400_000;

/// IEEE-754 bit pattern of `1.0f64`.
pub const FULL_CONFIDENCE_BITS: u64 = 0x3ff0_0000_0000_0000;

/// IEEE-754 bit pattern of `-0.0f64`.
pub const NEGATIVE_ZERO_BITS: u64 = 0x8000_0000_0000_0000;

/// One event. `confidence_bits` holds the IEEE-754 bit pattern of the
/// event's `f64` confidence.
#[derive(Debug, Clone, PartialEq)]
pub struct HomeEvent {
    pub event_id: String,
    pub event_type: String,
    pub source_id: String,
    pub room_id: String,
    pub person_id: String,
    pub timestamp_ms: i64,
    pub confidence_bits: u64,
    pub payload: Vec<u8>,
    pub schema_version: u32,
}

/// The field that made an event invalid.
#[derive(Debug, Clone, Copy, PartialEq, Eq, Structural)]
pub enum InvalidField {
    EventId,
    EventType,
    TimestampMs,
    SchemaVersion,
    Confidence,
}

pub open spec fn field_name(f: InvalidField) -> Seq<char> {
    match f {
        InvalidField::EventId => "event_id"@,
        InvalidField::EventType => "event_type"@,
        InvalidField::TimestampMs => "timestamp_ms"@,
        InvalidField::SchemaVersion => "schema_version"@,
        InvalidField::Confidence => "confidence"@,
    }
}

impl InvalidField {
    pub fn as_str(self) -> (r: &'static str)
        ensures
            r@ == field_name(self),
    {
        match self {
            InvalidField::EventId => "event_id",
            InvalidField::EventType => "event_type",
            InvalidField::TimestampMs => "timestamp_ms",
            InvalidField::SchemaVersion => "schema_version",
            InvalidField::Confidence => "confidence",
        }
    }
}

/// Why an event was not published.
#[derive(Debug)]
pub enum PublishError {
    Invalid(InvalidField),
    /// Storing the event failed; the text says why.
    Db(String),
}

/// The `f64` with bit pattern `bits` is a finite number in `[0.0, 1.0]`:
/// a non-negative value no larger than `1.0` (positive floats order as
/// their bit patterns), or negative zero.
pub open spec fn confidence_ok(bits: u64) -> bool {
    bits <= FULL_CONFIDENCE_BITS || bits == NEGATIVE_ZERO_BITS
}

/// The first rule an event breaks, if any.
pub open spec fn event_problem(e: HomeEvent) -> Option<InvalidField> {
    if e.event_id@.len() == 0 {
        Some(InvalidField::EventId)
    } else if e.event_type@.len() == 0 {
        Some(InvalidField::EventType)
    } else if e.timestamp_ms <= 0 {
        Some(InvalidField::TimestampMs)
    } else if e.schema_version != SCHEMA_VERSION {
        Some(InvalidField::SchemaVersion)
    } else if !confidence_ok(e.confidence_bits) {
        Some(InvalidField::Confidence)
    } else {
        None
    }
}

/// Checks an event before it is stored and fanned out.
pub fn validate(event: &HomeEvent) -> (r: Result<(), PublishError>)
    ensures
        match event_problem(*event) {
            None => r is Ok,
            Some(f) => r matches Err(PublishError::Invalid(g)) && g == f,
        },
{
    if event.event_id.as_str().unicode_len() == 0 {
        return Err(PublishError::Invalid(InvalidField::EventId));
    }
    if event.event_type.as_str().unicode_len() == 0 {
        return Err(PublishError::Invalid(InvalidField::EventType));
    }
    if event.timestamp_ms <= 0 {
        return Err(PublishError::Invalid(InvalidField::TimestampMs));
    }
    if event.schema_version != SCHEMA_VERSION {
        return Err(PublishError::Invalid(InvalidField::SchemaVersion));
    }
    let c = event.confidence_bits;
    if !(c <= FULL_CONFIDENCE_BITS || c == NEGATIVE_ZERO_BITS) {
        return Err(PublishError::Invalid(InvalidField::Confidence));
    }
    Ok(())
}

/// Whether `bytes` is one JSON text, as `serde_json` reads it.
pub uninterp spec fn parses_as_json(bytes: Seq<u8>) -> bool;

/// Asks `serde_json::from_slice::<serde_json::Value>` whether `bytes` is
/// one JSON text; the answer is `parses_as_json(bytes)`, which depends on
/// the bytes alone.
#[verifier::external_body]
fn is_json_text(bytes: &[u8]) -> (r: bool)
    ensures
        r == parses_as_json(bytes@),
{
    serde_json::from_slice::<serde_json::Value>(bytes).is_ok()
}

/// The JSON text of the string `s`, as `serde_json` writes it.
pub uninterp spec fn json_string_text(s: Seq<char>) -> Seq<char>;

/// Writes `s` as a JSON string with `serde_json` (`Value::String` through
/// its `Display`); the text is `json_string_text(s)`, which depends on `s`
/// alone.
#[verifier::external_body]
pub(crate) fn json_string(s: &str) -> (r: String)
    ensures
        r@ == json_string_text(s@),
{
    serde_json::Value::String(s.to_string()).to_string()
}

/// How an event's payload appears in its JSON form.
#[derive(Debug, PartialEq, Eq)]
pub enum PayloadForm {
    /// An empty payload: `null`.
    Absent,
    /// The payload is JSON text and is embedded as it is.
    Json,
    /// Any other payload: a string of lowercase hex.
    Hex(String),
}

/// The form of a non-empty or empty `payload`, given whether it parses as
/// JSON (`parses`).
pub fn payload_form_given(payload: &[u8], parses: bool) -> (r: PayloadForm)
    ensures
        payload@.len() == 0 ==> r is Absent,
        payload@.len() > 0 && parses ==> r is Json,
        payload@.len() > 0 && !parses ==> (r matches PayloadForm::Hex(h) && h@ == hex_seq(payload@)),
{
    if payload.len() == 0 {
        PayloadForm::Absent
    } else if parses {
        PayloadForm::Json
    } else {
        PayloadForm::Hex(hex(payload))
    }
}

/// The form an event's payload takes on the wire: `null` when empty, the
/// JSON itself when it parses, otherwise lowercase hex.
pub fn payload_form(payload: &[u8]) -> (r: PayloadForm)
    ensures
        payload@.len() == 0 ==> r is Absent,
        payload@.len() > 0 && parses_as_json(payload@) ==> r is Json,
        payload@.len() > 0 && !parses_as_json(payload@) ==> (r matches PayloadForm::Hex(h) && h@ == hex_seq(payload@)),
{
    if payload.len() == 0 {
        PayloadForm::Absent
    } else {
        let parses = is_json_text(payload);
        payload_form_given(payload, parses)
    }
}

/// Cut-off timestamps (ms): rows older than these are deleted.
#[derive(Debug, Clone, Copy, PartialEq, Eq, Structural)]
pub struct RetentionCuts {
    pub default_before_ms: i64,
    pub presence_raw_before_ms: i64,
}

/// The cut-offs at `now_ms`: 90 days back for ordinary events, one day
/// back for raw presence signals.
pub fn cuts_at(now_ms: i64) -> (r: RetentionCuts)
    requires
        now_ms >= i64::MIN + DEFAULT_RETENTION_MS,
    ensures
        r.default_before_ms == now_ms - DEFAULT_RETENTION_MS,
        r.presence_raw_before_ms == now_ms - PRESENCE_RAW_RETENTION_MS,
{
    RetentionCuts {
        default_before_ms: now_ms - DEFAULT_RETENTION_MS,
        presence_raw_before_ms: now_ms - PRESENCE_RAW_RETENTION_MS,
    }
}

/// Event types kept only for the short presence window.
pub open spec fn short_lived(event_type: Seq<char>) -> bool {
    event_type == "presence.raw"@ || event_type == "presence.signal"@
}

/// The event types kept only for the short presence window, for the
/// event log's purge.
pub fn short_lived_types() -> (r: Vec<&'static str>)
    ensures
        r@.map_values(|t: &'static str| t@) == seq!["presence.raw"@, "presence.signal"@],
{
    let mut v: Vec<&'static str> = Vec::new();
    v.push("presence.raw");
    v.push("presence.signal");
    assert(v@.map_values(|t: &'static str| t@) =~= seq!["presence.raw"@, "presence.signal"@]);
    v
}

/// Whether events of `event_type` are kept only for the short window.
pub fn is_short_lived(event_type: &str) -> (r: bool)
    ensures
        r == short_lived(event_type@),
{
    crate::text::str_eq(event_type, "presence.raw") || crate::text::str_eq(event_type, "presence.signal")
}

/// An event older than the cut-off of its type.
pub open spec fn expired(cuts: RetentionCuts, e: HomeEvent) -> bool {
    e.timestamp_ms < if short_lived(e.event_type@) {
        cuts.presence_raw_before_ms
    } else {
        cuts.default_before_ms
    }
}

/// Whether `event` is past its type's cut-off and is to be deleted.
pub fn is_expired(cuts: &RetentionCuts, event: &HomeEvent) -> (r: bool)
    ensures
        r == expired(*cuts, *event),
        (event.event_type@ == "presence.raw"@ || event.event_type@ == "presence.signal"@) ==> (r == (
        event.timestamp_ms < cuts.presence_raw_before_ms)),
        !(event.event_type@ == "presence.raw"@ || event.event_type@ == "presence.signal"@) ==> (r == (
        event.timestamp_ms < cuts.default_before_ms)),
{
    proof {
        law_expiry_by_type(*cuts, *event);
    }
    if is_short_lived(event.event_type.as_str()) {
        event.timestamp_ms < cuts.presence_raw_before_ms
    } else {
        event.timestamp_ms < cuts.default_before_ms
    }
}

/// The expiry rule by type: a raw presence event (`presence.raw` or
/// `presence.signal`, the types of [`short_lived_types`]) expires exactly
/// when it is older than the presence cut-off; any other event exactly when
/// it is older than the default cut-off. The rule agrees with
/// [`is_short_lived`] for every type.
pub proof fn law_expiry_by_type(cuts: RetentionCuts, e: HomeEvent)
    ensures
        (e.event_type@ == "presence.raw"@ || e.event_type@ == "presence.signal"@) ==> (expired(cuts, e) <==> e.timestamp_ms
            < cuts.presence_raw_before_ms),
        !(e.event_type@ == "presence.raw"@ || e.event_type@ == "presence.signal"@) ==> (expired(cuts, e) <==> e.timestamp_ms
            < cuts.default_before_ms),
        short_lived(e.event_type@) ==> (expired(cuts, e) <==> e.timestamp_ms < cuts.presence_raw_before_ms),
        !short_lived(e.event_type@) ==> (expired(cuts, e) <==> e.timestamp_ms < cuts.default_before_ms),
{
}

/// A purge keeps exactly the events inside their type's window: every kept
/// raw presence event is no older than the presence cut-off, every other
/// kept event no older than the default cut-off, and every event inside its
/// window is kept.
pub proof fn law_purge_keeps_by_type(events: Seq<HomeEvent>, cuts: RetentionCuts)
    ensures
        forall|e: HomeEvent| #[trigger] events.filter(unexpired(cuts)).contains(e) ==> events.contains(e) && if e.event_type@
            == "presence.raw"@ || e.event_type@ == "presence.signal"@ {
            e.timestamp_ms >= cuts.presence_raw_before_ms
        } else {
            e.timestamp_ms >= cuts.default_before_ms
        },
        forall|i: int|
            0 <= i < events.len() && (if events[i].event_type@ == "presence.raw"@ || events[i].event_type@
                == "presence.signal"@ {
                events[i].timestamp_ms >= cuts.presence_raw_before_ms
            } else {
                events[i].timestamp_ms >= cuts.default_before_ms
            }) ==> events.filter(unexpired(cuts)).contains(#[trigger] events[i]),
{
    let f = events.filter(unexpired(cuts));
    assert forall|e: HomeEvent| #[trigger] f.contains(e) implies events.contains(e) && if e.event_type@ == "presence.raw"@
        || e.event_type@ == "presence.signal"@ {
        e.timestamp_ms >= cuts.presence_raw_before_ms
    } else {
        e.timestamp_ms >= cuts.default_before_ms
    } by {
        events.lemma_filter_contains_rev(unexpired(cuts), e);
        let i = choose|i: int| 0 <= i < f.len() && f[i] == e;
        events.lemma_filter_pred(unexpired(cuts), i);
        law_expiry_by_type(cuts, e);
    }
    assert forall|i: int|
        0 <= i < events.len() && (if events[i].event_type@ == "presence.raw"@ || events[i].event_type@
            == "presence.signal"@ {
            events[i].timestamp_ms >= cuts.presence_raw_before_ms
        } else {
            events[i].timestamp_ms >= cuts.default_before_ms
        }) implies f.contains(#[trigger] events[i]) by {
        law_expiry_by_type(cuts, events[i]);
        events.lemma_filter_contains(unexpired(cuts), i);
    }
}

/// Keeps the events that are not expired.
pub open spec fn unexpired(cuts: RetentionCuts) -> spec_fn(HomeEvent) -> bool {
    |e: HomeEvent| !expired(cuts, e)
}

/// What a purge leaves of `events`: each event not past its type's
/// cut-off, as it was and in order.
pub fn retained(events: Vec<HomeEvent>, cuts: &RetentionCuts) -> (r: Vec<HomeEvent>)
    ensures
        r@ == events@.filter(unexpired(*cuts)),
        forall|e: HomeEvent| #[trigger] r@.contains(e) ==> events@.contains(e) && if e.event_type@ == "presence.raw"@
            || e.event_type@ == "presence.signal"@ {
            e.timestamp_ms >= cuts.presence_raw_before_ms
        } else {
            e.timestamp_ms >= cuts.default_before_ms
        },
        forall|i: int|
            0 <= i < events.len() && (if events[i].event_type@ == "presence.raw"@ || events[i].event_type@
                == "presence.signal"@ {
                events[i].timestamp_ms >= cuts.presence_raw_before_ms
            } else {
                events[i].timestamp_ms >= cuts.default_before_ms
            }) ==> r@.contains(#[trigger] events@[i]),
{
    let ghost orig = events@;
    let n = events.len();
    let mut rest = events;
    let mut out: Vec<HomeEvent> = Vec::new();
    let mut i: usize = 0;
    while i < n
        invariant
            n == orig.len(),
            i <= n,
            rest@ == orig.skip(i as int),
            out@ == orig.take(i as int).filter(unexpired(*cuts)),
        decreases n - i,
    {
        let e = rest.remove(0);
        assert(e == orig[i as int]);
        assert(orig.take(i + 1).drop_last() =~= orig.take(i as int));
        assert(orig.take(i + 1).last() == orig[i as int]);
        assert(rest@ =~= orig.skip(i + 1));
        let ghost before = out@;
        proof {
            reveal(Seq::filter);
        }
        assert(orig.take(i + 1).filter(unexpired(*cuts)) == if unexpired(*cuts)(e) {
            before.push(e)
        } else {
            before
        });
        if !is_expired(cuts, &e) {
            out.push(e);
        }
        i = i + 1;
    }
    assert(orig.take(n as int) =~= orig);
    proof {
        law_purge_keeps_by_type(orig, *cuts);
    }
    out
}

/// `<type>:<source>:<unique>`, the id of an event the core raises itself.
pub open spec fn core_event_id(event_type: Seq<char>, source: Seq<char>, unique: Seq<char>) -> Seq<char> {
    event_type + seq![':'] + source + seq![':'] + unique
}

/// An event raised by the core itself at `now` (ms since the epoch): full
/// confidence, no room or person.
pub fn core_event_at(event_type: &str, source: &str, unique: &str, payload: Vec<u8>, now: i64) -> (r: HomeEvent)
    ensures
        r.event_id@ == core_event_id(event_type@, source@, unique@),
        r.event_type@ == event_type@,
        r.source_id@ == source@,
        r.room_id@.len() == 0,
        r.person_id@.len() == 0,
        r.timestamp_ms == now,
        r.confidence_bits == FULL_CONFIDENCE_BITS,
        r.payload@ == payload@,
        r.schema_version == SCHEMA_VERSION,
{
    let mut id = String::from_str(event_type);
    push_char(&mut id, ':');
    id.append(source);
    push_char(&mut id, ':');
    id.append(unique);
    assert(id@ =~= core_event_id(event_type@, source@, unique@));
    HomeEvent {
        event_id: id,
        event_type: String::from_str(event_type),
        source_id: String::from_str(source),
        room_id: String::new(),
        person_id: String::new(),
        timestamp_ms: now,
        confidence_bits: FULL_CONFIDENCE_BITS,
        payload,
        schema_version: SCHEMA_VERSION,
    }
}

/// [`core_event_at`], stamped with the current time.
pub fn core_event(event_type: &str, source: &str, unique: &str, payload: Vec<u8>) -> (r: HomeEvent)
    ensures
        r.event_id@ == core_event_id(event_type@, source@, unique@),
        r.event_type@ == event_type@,
        r.source_id@ == source@,
        r.room_id@.len() == 0,
        r.person_id@.len() == 0,
        r.confidence_bits == FULL_CONFIDENCE_BITS,
        r.payload@ == payload@,
        r.schema_version == SCHEMA_VERSION,
{
    core_event_at(event_type, source, unique, payload, now_ms())
}

/// `{"<key>":<n>}`.
pub open spec fn count_json(key: Seq<char>, n: nat) -> Seq<char> {
    seq!['{', '"'] + key + seq!['"', ':'] + decimal(n) + seq!['}']
}

fn count_json_bytes(key: &str, n: u64) -> (r: Vec<u8>)
    ensures
        r@ == encode_utf8(count_json(key@, n as nat)),
{
    let mut s = String::new();
    push_char(&mut s, '{');
    push_char(&mut s, '"');
    s.append(key);
    push_char(&mut s, '"');
    push_char(&mut s, ':');
    push_decimal(&mut s, n);
    push_char(&mut s, '}');
    assert(s@ =~= count_json(key@, n as nat));
    s.as_str().as_bytes_vec()
}

/// The event published each time task `name` is restarted, for the
/// `attempt`-th time.
pub fn task_restarted_event(name: &str, attempt: u32) -> (r: HomeEvent)
    ensures
        r.event_type@ == "core.task_restarted"@,
        r.source_id@ == name@,
        r.event_id@ == core_event_id("core.task_restarted"@, name@, decimal(attempt as nat)),
        r.payload@ == encode_utf8(count_json("attempt"@, attempt as nat)),
        r.confidence_bits == FULL_CONFIDENCE_BITS,
        r.schema_version == SCHEMA_VERSION,
{
    let mut unique = String::new();
    push_decimal(&mut unique, attempt as u64);
    let payload = count_json_bytes("attempt", attempt as u64);
    core_event("core.task_restarted", name, unique.as_str(), payload)
}

/// The health alert published when task `name` has crashed `in_window`
/// times within the alert window.
pub fn health_alert_event(name: &str, in_window: u32) -> (r: HomeEvent)
    ensures
        r.event_type@ == "core.health_alert"@,
        r.source_id@ == name@,
        r.event_id@ == core_event_id("core.health_alert"@, name@, "loop-"@ + decimal(in_window as nat)),
        r.payload@ == encode_utf8(count_json("restarts_in_window"@, in_window as nat)),
        r.confidence_bits == FULL_CONFIDENCE_BITS,
        r.schema_version == SCHEMA_VERSION,
{
    let mut unique = String::from_str("loop-");
    push_decimal(&mut unique, in_window as u64);
    let payload = count_json_bytes("restarts_in_window", in_window as u64);
    core_event("core.health_alert", name, unique.as_str(), payload)
}

/// An event the core raises itself passes validation whenever the clock
/// reads after the epoch.
pub proof fn law_core_events_are_valid(e: HomeEvent)
    requires
        e.event_id@.len() > 0,
        e.event_type@.len() > 0,
        e.timestamp_ms > 0,
        e.confidence_bits == FULL_CONFIDENCE_BITS,
        e.schema_version == SCHEMA_VERSION,
    ensures
        event_problem(e) is None,
{
}

} // verus!
