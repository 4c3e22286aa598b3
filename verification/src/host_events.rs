//! Events that the host process emits, on their way to the bus.

use vstd::prelude::*;

use crate::key::{type_identity, TypeKey};
use crate::text::{cut, debug_text, debugged, str_eq, truncate};

verus! {

/// The payload of a host event; the caller keeps it.
pub type PayloadId = u64;

/// Where a frame came from.
pub struct EventOrigin {
    pub scope_id: Option<String>,
    pub session_id: Option<String>,
    pub turn_id: Option<String>,
}

/// An event of the host. Its name is that of the key it is sent under, so that a
/// listener, which does not see the key, can tell.
pub struct HostEvent {
    pub name: String,
    /// Nothing stands for a null payload.
    pub payload: Option<PayloadId>,
    pub origin: EventOrigin,
}

/// What is read of the parameters of a notification.
pub struct NotifyParams {
    /// The `event` field, where it is a text.
    pub event: Option<String>,
    /// The `params` field.
    pub params: Option<PayloadId>,
    /// All of it as text, for a summary.
    pub summary: String,
}

/// What becomes of a notification.
pub enum Forwarding {
    /// It is no host event.
    Nothing,
    /// It is sent to the bus under the key.
    Emit { key: TypeKey, event: HostEvent },
    /// It is malformed; the line says so.
    Dropped { line: String },
}

/// The diagnostic form of an optional text.
pub open spec fn shown_option(text: Option<String>) -> Seq<char> {
    match text {
        Some(t) => "Some("@ + debugged(t@) + ")"@,
        None => "None"@,
    }
}

/// The diagnostic form of an origin.
pub open spec fn shown_origin(o: EventOrigin) -> Seq<char> {
    "EventOrigin { scope_id: "@ + shown_option(o.scope_id) + ", session_id: "@ + shown_option(
        o.session_id,
    ) + ", turn_id: "@ + shown_option(o.turn_id) + " }"@
}

/// The line about a malformed notification.
pub open spec fn dropped_line(p: NotifyParams, o: EventOrigin) -> Seq<char> {
    "[rutis-cordis] malformed evt/emit dropped (no string event field) origin="@ + shown_origin(o)
        + ": "@ + cut(p.summary@, 200)
}

fn option_text(text: &Option<String>) -> (out: String)
    ensures
        out@ == shown_option(*text),
{
    match text {
        Some(t) => {
            let mut out = "Some(".to_owned();
            out.push_str(debug_text(t.as_str()).as_str());
            out.push_str(")");
            out
        },
        None => "None".to_owned(),
    }
}

/// Turns a notification of the host into an event. Only `evt/emit` carries one,
/// and only where its `event` field is a text that is not empty.
pub fn forward_host_events(
    method: &str,
    params: NotifyParams,
    origin: EventOrigin,
    label: &'static str,
) -> (result: Forwarding)
    ensures
        if method@ != "evt/emit"@ {
            result is Nothing
        } else {
            match params.event {
                Some(name) => if name@.len() > 0 {
                    &&& result matches Forwarding::Emit { key, event }
                    &&& key.identity().type_id == type_identity::<HostEvent>()
                    &&& key.identity().qualifier == Some(name@)
                    &&& key.identity().instance is None
                    &&& key.type_label() == label@
                    &&& event.name@ == name@
                    &&& event.payload == params.params
                    &&& event.origin == origin
                } else {
                    result matches Forwarding::Dropped { line } && line@ == dropped_line(
                        params,
                        origin,
                    )
                },
                None => result matches Forwarding::Dropped { line } && line@ == dropped_line(
                    params,
                    origin,
                ),
            }
        },
{
    if !str_eq(method, "evt/emit") {
        return Forwarding::Nothing;
    }
    if let Some(name) = &params.event {
        if !name.as_str().is_empty() {
            return Forwarding::Emit {
                key: TypeKey::keyed_dynamic::<HostEvent>(label, name.clone()),
                event: HostEvent { name: name.clone(), payload: params.params, origin },
            };
        }
    }
    let mut line =
        "[rutis-cordis] malformed evt/emit dropped (no string event field) origin=".to_owned();
    let ghost start = line@;
    let mut shown = "EventOrigin { scope_id: ".to_owned();
    shown.push_str(option_text(&origin.scope_id).as_str());
    shown.push_str(", session_id: ");
    shown.push_str(option_text(&origin.session_id).as_str());
    shown.push_str(", turn_id: ");
    shown.push_str(option_text(&origin.turn_id).as_str());
    shown.push_str(" }");
    assert(shown@ == shown_origin(origin));
    line.push_str(shown.as_str());
    line.push_str(": ");
    line.push_str(truncate(params.summary.as_str(), 200).as_str());
    Forwarding::Dropped { line }
}

} // verus!
