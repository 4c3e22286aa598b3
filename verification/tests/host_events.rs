use rutis::host_events::{
    forward_host_events, EventOrigin, Forwarding, HostEvent, NotifyParams,
};
use rutis::key::TypeKey;
use rutis::text::truncate;

fn origin(scope: Option<&str>, session: Option<&str>, turn: Option<&str>) -> EventOrigin {
    EventOrigin {
        scope_id: scope.map(str::to_string),
        session_id: session.map(str::to_string),
        turn_id: turn.map(str::to_string),
    }
}

fn params(event: Option<&str>, payload: Option<u64>) -> NotifyParams {
    NotifyParams {
        event: event.map(str::to_string),
        params: payload,
        summary: "{\"params\":{}}".to_string(),
    }
}

#[test]
fn host_events_keep_name_payload_and_origin() {
    let result = forward_host_events(
        "evt/emit",
        params(Some("session/event"), Some(4)),
        origin(None, Some("s-1"), Some("t-9")),
        "HostEvent",
    );
    match result {
        Forwarding::Emit { key, event } => {
            assert_eq!(
                key,
                TypeKey::keyed::<HostEvent>("HostEvent", "session/event")
            );
            assert_eq!(event.name, "session/event");
            assert_eq!(event.payload, Some(4));
            assert_eq!(event.origin.session_id, Some("s-1".to_string()));
            assert_eq!(event.origin.turn_id, Some("t-9".to_string()));
            assert_eq!(event.origin.scope_id, None);
        }
        _ => panic!("not emitted"),
    }
}

#[test]
fn other_notifications_are_no_events() {
    let result = forward_host_events(
        "log/line",
        params(Some("x"), None),
        origin(None, None, None),
        "HostEvent",
    );
    assert!(matches!(result, Forwarding::Nothing));
}

#[test]
fn malformed_events_are_dropped_with_a_line() {
    for event in [None, Some("")] {
        let result = forward_host_events(
            "evt/emit",
            params(event, None),
            origin(Some("a\"b"), None, None),
            "HostEvent",
        );
        match result {
            Forwarding::Dropped { line } => assert_eq!(
                line,
                "[rutis-cordis] malformed evt/emit dropped (no string event field) \
                 origin=EventOrigin { scope_id: Some(\"a\\\"b\"), session_id: None, turn_id: None }: \
                 {\"params\":{}}"
            ),
            _ => panic!("not dropped"),
        }
    }
}

#[test]
fn long_summaries_are_cut_by_characters() {
    assert_eq!(truncate("abc", 3), "abc");
    assert_eq!(truncate("abcd", 3), "abc…");
    assert_eq!(truncate("äöüß", 2), "äö…");
    assert_eq!(truncate("", 0), "");
    let mut long = params(None, None);
    long.summary = "x".repeat(500);
    match forward_host_events("evt/emit", long, origin(None, None, None), "HostEvent") {
        Forwarding::Dropped { line } => {
            assert!(line.ends_with(&format!("{}…", "x".repeat(200))));
            assert!(!line.ends_with(&format!("{}…", "x".repeat(201))));
        }
        _ => panic!("not dropped"),
    }
}
