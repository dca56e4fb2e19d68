//! The herdr event mapping.

use iris::herdr::{map_event, thread_uuid, HerdrEvent, HerdrIntent, HerdrMapping};
use iris::json::{Json, JsonNumber};
use iris::time::Timestamp;

fn value(v: &serde_json::Value) -> Json {
    match v {
        serde_json::Value::Null => Json::Null,
        serde_json::Value::Bool(b) => Json::Bool(*b),
        serde_json::Value::Number(n) => match (n.as_u64(), n.as_i64()) {
            (Some(u), _) => Json::Number(JsonNumber::Unsigned(u)),
            (None, Some(i)) => Json::Number(JsonNumber::Negative(i)),
            (None, None) => Json::Number(JsonNumber::Decimal(n.to_string())),
        },
        serde_json::Value::String(s) => Json::Text(s.clone()),
        serde_json::Value::Array(items) => Json::Array(items.iter().map(value).collect()),
        serde_json::Value::Object(members) => {
            Json::Object(members.iter().map(|(k, v)| (k.clone(), value(v))).collect())
        }
    }
}

/// The JSON value that a text stands for.
fn json(text: &str) -> Json {
    value(&serde_json::from_str::<serde_json::Value>(text).expect("JSON text"))
}

fn received_at() -> Timestamp {
    Timestamp::from_seconds(1_700_000_000).unwrap()
}

fn map(id: &str, event: &str, data: &str) -> HerdrMapping {
    let payload = json(&format!(r#"{{"event": "{event}", "data": {data}}}"#));
    map_event(&HerdrEvent { event_id: id, payload: &payload, received_at: received_at() })
}

#[test]
fn maps_agent_status_with_deterministic_contact_thread_and_message() {
    let mapping = map(
        "evt-1",
        "pane_agent_status_changed",
        r#"{
            "workspace_id": "workspace-1", "pane_id": "pane-2", "agent": "codex",
            "agent_status": "working", "state_labels": {"branch": "main", "task": "COD-438"}
        }"#,
    );
    assert_eq!(mapping.dedupe_key, "herdr:evt-1");
    assert_eq!(mapping.intents.len(), 3);
    let HerdrIntent::AppendMessage(message) = &mapping.intents[2] else {
        panic!("message intent")
    };
    assert_eq!(message.body, "codex: working (branch=main, task=COD-438)");
    assert_eq!(message.sender.source_id, "unknown-host:codex");
    assert_eq!(message.source_id, "evt-1");
    assert_eq!(message.thread_id, thread_uuid("workspace-1"));
}

#[test]
fn accepts_dotted_kind_and_data_type_fallback_and_rejects_invalid_bridge_identity() {
    let dotted = map(
        "evt-dotted",
        "pane.agent_status_changed",
        r#"{"workspace_id":"w", "pane_id":"p", "agent_status":"idle"}"#,
    );
    assert!(matches!(dotted.intents.last(), Some(HerdrIntent::AppendMessage(_))));
    let fallback_payload = json(
        r#"{"data":{"type":"pane_agent_status_changed","workspace_id":"w","pane_id":"p","agent_status":"idle"}}"#,
    );
    let fallback = map_event(&HerdrEvent {
        event_id: "evt-fallback",
        payload: &fallback_payload,
        received_at: received_at(),
    });
    assert!(matches!(fallback.intents.last(), Some(HerdrIntent::AppendMessage(_))));
    let empty = map_event(&HerdrEvent {
        event_id: " ",
        payload: &fallback_payload,
        received_at: received_at(),
    });
    assert!(matches!(
        empty.intents.as_slice(),
        [HerdrIntent::Dropped { reason: "missing bridge event_id", .. }]
    ));
}

#[test]
fn pane_moved_preserves_embedded_workspace_lifecycle() {
    let mapping = map(
        "move-1",
        "pane_moved",
        r#"{
            "closed_workspace_id":"old", "created_workspace":{"workspace_id":"new","label":"New"},
            "pane":{"workspace_id":"current","pane_id":"p"}
        }"#,
    );
    assert!(
        matches!(&mapping.intents[0], HerdrIntent::UpsertThread(thread) if thread.source_id == "new")
    );
    assert!(
        matches!(&mapping.intents[1], HerdrIntent::ArchiveThread { source_id, .. } if source_id == "old")
    );
    assert!(
        matches!(&mapping.intents[2], HerdrIntent::UpsertThread(thread) if thread.source_id == "current")
    );
}

#[test]
fn status_without_pane_identity_is_dropped() {
    let mapping = map(
        "missing-pane",
        "pane_agent_status_changed",
        r#"{"workspace_id":"w","agent_status":"idle"}"#,
    );
    assert!(matches!(
        mapping.intents.as_slice(),
        [HerdrIntent::Dropped { reason: "missing pane_id", .. }]
    ));
}

#[test]
fn maps_every_protocol_19_kind_or_explicitly_drops_it() {
    let cases = [
        ("workspace_created", r#"{"workspace":{"workspace_id":"w","label":"W"}}"#, false),
        ("workspace_updated", r#"{"workspace":{"workspace_id":"w"}}"#, false),
        ("workspace_metadata_updated", r#"{"workspace":{"workspace_id":"w"}}"#, false),
        ("workspace_closed", r#"{"workspace_id":"w"}"#, false),
        ("workspace_renamed", r#"{"workspace_id":"w","label":"W"}"#, false),
        ("workspace_moved", r#"{"workspace_id":"w"}"#, false),
        ("workspace_reordered", r#"{"workspace_ids":["w"]}"#, false),
        ("workspace_focused", r#"{"workspace_id":"w"}"#, false),
        ("worktree_created", "{}", true),
        ("worktree_opened", "{}", true),
        ("worktree_removed", "{}", true),
        ("tab_created", r#"{"tab":{"workspace_id":"w","tab_id":"t"}}"#, false),
        ("tab_closed", r#"{"workspace_id":"w","tab_id":"t"}"#, false),
        ("tab_renamed", r#"{"workspace_id":"w","tab_id":"t","label":"T"}"#, false),
        ("tab_moved", r#"{"workspace_id":"w","tab_id":"t"}"#, false),
        ("tab_focused", r#"{"workspace_id":"w","tab_id":"t"}"#, false),
        ("pane_created", r#"{"pane":{"workspace_id":"w","pane_id":"p"}}"#, false),
        ("pane_closed", r#"{"workspace_id":"w","pane_id":"p"}"#, true),
        ("pane_updated", r#"{"pane":{"workspace_id":"w","pane_id":"p"}}"#, false),
        ("pane_focused", r#"{"workspace_id":"w","pane_id":"p"}"#, false),
        ("pane_moved", r#"{"pane":{"workspace_id":"w","pane_id":"p"}}"#, false),
        ("pane_output_changed", r#"{"workspace_id":"w","pane_id":"p"}"#, true),
        ("pane.output_matched", r#"{"pane_id":"p"}"#, true),
        ("pane.scroll_changed", r#"{"workspace_id":"w","pane_id":"p"}"#, true),
        ("pane_exited", r#"{"workspace_id":"w","pane_id":"p"}"#, false),
        ("pane_agent_detected", r#"{"workspace_id":"w","pane_id":"p"}"#, false),
        (
            "pane_agent_status_changed",
            r#"{"workspace_id":"w","pane_id":"p","agent_status":"idle"}"#,
            false,
        ),
        ("layout_updated", "{}", true),
    ];
    for (index, (kind, data, should_drop)) in cases.into_iter().enumerate() {
        let mapping = map(&format!("event-{index}"), kind, data);
        assert!(!mapping.intents.is_empty(), "{kind}");
        assert_eq!(
            matches!(mapping.intents[0], HerdrIntent::Dropped { .. }),
            should_drop,
            "{kind}"
        );
    }
}

#[test]
fn unknown_and_malformed_events_drop_without_panicking() {
    for payload in [
        r#"{"event":"future_event","data":{}}"#,
        r#"{"event":"workspace_created","data":{}}"#,
        "{}",
    ] {
        let payload = json(payload);
        let mapping = map_event(&HerdrEvent {
            event_id: "evt",
            payload: &payload,
            received_at: received_at(),
        });
        assert!(matches!(mapping.intents.as_slice(), [HerdrIntent::Dropped { .. }]));
    }
}

#[test]
fn identical_replays_keep_the_same_ids_and_dedupe_key() {
    let data = r#"{"workspace_id":"w","pane_id":"p","agent_status":"done","agent":"hermes"}"#;
    let first = map("spool-42", "pane_agent_status_changed", data);
    let second = map("spool-42", "pane_agent_status_changed", data);
    assert_eq!(first, second);
}
