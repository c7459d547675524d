use std::borrow::Cow;

use watcher::crash_reporting::{
    crash, init_cocoa_sentry, run_minidump_server, set_client_type_tag, set_tag, uninit_cocoa_sentry,
    uninit_sentry,
};
use watcher::telemetry::{
    create_event, flush_events, record_app_active_event, record_event, record_identify_user_event,
    EventPayload, UtcTimestamp,
};

#[test]
fn create_event_builds_a_named_event() {
    let at = UtcTimestamp { seconds: 1_700_000_000, nanoseconds: 250 };
    let mut value = serde_json::Map::new();
    value.insert("kind".to_string(), serde_json::Value::String("simple".to_string()));
    let payload = serde_json::Value::Object(value);
    let event = create_event(
        Some("user".to_string()),
        "anonymous-id".to_string(),
        Cow::Borrowed("test telemetry event"),
        Some(payload.clone()),
        true,
        at,
    );
    assert_eq!(event.timestamp, at);
    assert_eq!(event.session_created_at, at);
    assert!(event.contains_ugc);
    assert_eq!(
        event.payload,
        EventPayload::NamedEvent {
            user_id: Some("user".to_string()),
            anonymous_id: "anonymous-id".to_string(),
            name: Cow::Borrowed("test telemetry event"),
            value: Some(payload),
        }
    );
    let copy = event.clone();
    assert_eq!(copy.payload, event.payload);
    assert_eq!(copy.timestamp, event.timestamp);
}

#[test]
fn recording_keeps_nothing_to_flush() {
    let at = UtcTimestamp { seconds: 0, nanoseconds: 0 };
    record_event(None, "anon".to_string(), Cow::Owned("event".to_string()), None, false, at);
    record_identify_user_event("user".to_string(), "anon".to_string(), at);
    record_app_active_event(None, "anon".to_string(), at);
    assert!(flush_events().is_empty());
}

#[test]
fn payload_clone_is_equal() {
    let p = EventPayload::AppActive { user_id: None, anonymous_id: "anon".to_string() };
    assert_eq!(p.clone(), p);
    let q = EventPayload::IdentifyUser { user_id: "u".to_string(), anonymous_id: "a".to_string() };
    assert_eq!(q.clone(), q);
}

#[test]
fn crash_reporting_is_a_noop_that_succeeds() {
    assert!(run_minidump_server("/tmp/minidump.sock").is_ok());
    set_tag("key", "value");
    set_client_type_tag("client");
    init_cocoa_sentry();
    uninit_cocoa_sentry();
    uninit_sentry();
    crash();
}
