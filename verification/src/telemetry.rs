//! Telemetry events. Events are built but never recorded or sent in this
//! build: recording is a no-op and flushing yields nothing.

use std::borrow::Cow;

use serde_json::Value;
use vstd::prelude::*;

verus! {

/// An instant in UTC: whole seconds since the Unix epoch, and the
/// nanoseconds past that second.
#[derive(Clone, Copy, PartialEq, Eq, Debug, Structural)]
pub struct UtcTimestamp {
    pub seconds: i64,
    pub nanoseconds: u32,
}

/// What a telemetry event says.
#[derive(PartialEq, Eq, Debug)]
pub enum EventPayload {
    IdentifyUser { user_id: String, anonymous_id: String },
    AppActive { user_id: Option<String>, anonymous_id: String },
    NamedEvent {
        user_id: Option<String>,
        anonymous_id: String,
        name: Cow<'static, str>,
        value: Option<Value>,
    },
}

/// A telemetry event with its timestamps.
#[derive(Debug)]
pub struct Event {
    pub payload: EventPayload,
    pub session_created_at: UtcTimestamp,
    pub timestamp: UtcTimestamp,
    pub contains_ugc: bool,
}

/// `<serde_json::Value as Clone>::clone`, which serde_json derives: the copy
/// is the same JSON value.
pub assume_specification[ <Value as Clone>::clone ](value: &Value) -> (r: Value)
    ensures
        r == *value,
;

fn clone_string_option(s: &Option<String>) -> (r: Option<String>)
    ensures
        r == *s,
{
    match s {
        Some(s) => Some(s.clone()),
        None => None,
    }
}

impl Clone for EventPayload {
    fn clone(&self) -> (r: Self)
        ensures
            r == *self,
    {
        match self {
            EventPayload::IdentifyUser { user_id, anonymous_id } => EventPayload::IdentifyUser {
                user_id: user_id.clone(),
                anonymous_id: anonymous_id.clone(),
            },
            EventPayload::AppActive { user_id, anonymous_id } => EventPayload::AppActive {
                user_id: clone_string_option(user_id),
                anonymous_id: anonymous_id.clone(),
            },
            EventPayload::NamedEvent { user_id, anonymous_id, name, value } => {
                let name = match name {
                    Cow::Borrowed(s) => Cow::Borrowed(*s),
                    Cow::Owned(s) => Cow::Owned(s.clone()),
                };
                let value = match value {
                    Some(v) => Some(v.clone()),
                    None => None,
                };
                EventPayload::NamedEvent {
                    user_id: clone_string_option(user_id),
                    anonymous_id: anonymous_id.clone(),
                    name,
                    value,
                }
            },
        }
    }
}

impl Clone for Event {
    fn clone(&self) -> (r: Self)
        ensures
            r == *self,
    {
        Event {
            payload: self.payload.clone(),
            session_created_at: self.session_created_at,
            timestamp: self.timestamp,
            contains_ugc: self.contains_ugc,
        }
    }
}

/// Builds a named event; its session starts at the event's own timestamp.
pub fn create_event(
    user_id: Option<String>,
    anonymous_id: String,
    name: Cow<'static, str>,
    payload: Option<Value>,
    contains_ugc: bool,
    timestamp: UtcTimestamp,
) -> (e: Event)
    ensures
        e.payload == (EventPayload::NamedEvent {
            user_id: user_id,
            anonymous_id: anonymous_id,
            name: name,
            value: payload,
        }),
        e.session_created_at == timestamp,
        e.timestamp == timestamp,
        e.contains_ugc == contains_ugc,
{
    Event {
        payload: EventPayload::NamedEvent { user_id, anonymous_id, name, value: payload },
        session_created_at: timestamp,
        timestamp,
        contains_ugc,
    }
}

/// Would record a named event; this build drops it.
pub fn record_event(
    _user_id: Option<String>,
    _anonymous_id: String,
    _name: Cow<'static, str>,
    _payload: Option<Value>,
    _contains_ugc: bool,
    _timestamp: UtcTimestamp,
) {
}

/// Would record that a user identified; this build drops it.
pub fn record_identify_user_event(
    _user_id: String,
    _anonymous_id: String,
    _timestamp: UtcTimestamp,
) {
}

/// Would record that the app is active; this build drops it.
pub fn record_app_active_event(
    _user_id: Option<String>,
    _anonymous_id: String,
    _timestamp: UtcTimestamp,
) {
}

/// The events recorded since the last flush: none, since nothing is recorded.
pub fn flush_events() -> (r: Vec<Event>)
    ensures
        r@.len() == 0,
{
    Vec::new()
}

} // verus!
