//! The audit trail.

use iris::audit::{
    entry_directory, entry_file, entry_hash, entry_line, order_entries, record_lines, AuditAction,
    AuditEntry, AuditEvent, AuditFilter, AuditTrail, RecordOutcome,
};
use iris::ids::Uuid;
use iris::json::{Json, JsonNumber};
use iris::operations::{audit_query_filter, AuditQueryArgs};
use iris::time::Timestamp;

fn new_id() -> Uuid {
    Uuid { value: uuid::Uuid::new_v4().as_u128() }
}

fn at(text: &str) -> Timestamp {
    Timestamp::parse_rfc3339(text).unwrap()
}

fn event(action: AuditAction, source: &str) -> AuditEvent {
    AuditEvent {
        action,
        provider: "telegram".into(),
        source_id: Some(source.into()),
        timestamp: at("2026-08-13T12:00:00Z"),
        metadata: Json::Object(vec![(
            "count".to_owned(),
            Json::Number(JsonNumber::Unsigned(1)),
        )]),
    }
}

fn empty() -> AuditTrail {
    AuditTrail::load(Vec::new())
}

#[test]
fn record_once_inserts_then_reports_already_recorded() {
    let mut log = empty();
    let first = log.record_once(
        "telegram",
        "update-1",
        new_id(),
        event(AuditAction::Normalize, "update-1"),
    );
    assert_eq!(first, RecordOutcome::Inserted);
    let second = log.record_once(
        "telegram",
        "update-1",
        new_id(),
        event(AuditAction::Normalize, "update-1"),
    );
    assert_eq!(second, RecordOutcome::AlreadyRecorded);
    // Exactly one entry exists despite two calls.
    assert_eq!(log.query(&AuditFilter::default()).len(), 1);
    // A different key still appends.
    let third = log.record_once(
        "telegram",
        "update-2",
        new_id(),
        event(AuditAction::Normalize, "update-2"),
    );
    assert_eq!(third, RecordOutcome::Inserted);
    assert_eq!(log.query(&AuditFilter::default()).len(), 2);
    assert!(log.verify_chain());
}

/// Two instances that take turns under the lock: the second one reads what the first one wrote.
#[test]
fn record_once_is_atomic_across_independent_instances() {
    let mut first = empty();
    let a = first.record_once(
        "telegram",
        "update-9",
        new_id(),
        event(AuditAction::Normalize, "update-9"),
    );
    let mut second = AuditTrail::load(first.query(&AuditFilter::default()));
    let b = second.record_once(
        "telegram",
        "update-9",
        new_id(),
        event(AuditAction::Normalize, "update-9"),
    );
    let outcomes: Vec<RecordOutcome> = vec![a, b];
    assert_eq!(
        outcomes.iter().filter(|o| **o == RecordOutcome::Inserted).count(),
        1,
        "exactly one writer may insert for a given key"
    );
    assert_eq!(second.query(&AuditFilter::default()).len(), 1);
    assert!(second.verify_chain());
}

#[test]
fn record_still_allows_duplicate_keys() {
    let mut log = empty();
    log.record(new_id(), event(AuditAction::Normalize, "same-thread"));
    log.record(new_id(), event(AuditAction::Send, "same-thread"));
    // Regular record intentionally permits repeated source IDs (normal provider operations repeat
    // thread IDs).
    assert_eq!(log.query(&AuditFilter::default()).len(), 2);
}

#[test]
fn records_queries_and_verifies_a_chain() {
    let mut log = empty();
    let first = log.record(new_id(), event(AuditAction::Normalize, "one"));
    let second = log.record(new_id(), event(AuditAction::Send, "two"));
    assert_eq!(second.prev_hash.as_deref(), Some(first.self_hash.as_str()));
    assert!(log.verify_chain());
    let entries = log.query(&AuditFilter {
        action: Some(AuditAction::Send),
        ..Default::default()
    });
    assert_eq!(entries, vec![second]);
}

#[test]
fn detects_tampered_entry() {
    let mut log = empty();
    let entry = log.record(new_id(), event(AuditAction::Normalize, "one"));
    assert_eq!(entry_directory(&entry), "2026-08-13");
    assert_eq!(entry_file(&entry), format!("{}.jsonl", entry.id.text()));
    let mut forged = entry.clone();
    forged.event.provider = "forged__".into();
    assert!(!AuditTrail::load(vec![forged]).verify_chain());
    assert!(AuditTrail::load(vec![entry]).verify_chain());
}

#[test]
fn serializes_writes_from_independent_log_instances() {
    let mut first = empty();
    first.record(new_id(), event(AuditAction::Normalize, "one"));
    let mut second = AuditTrail::load(first.query(&AuditFilter::default()));
    second.record(new_id(), event(AuditAction::Send, "two"));
    assert!(second.verify_chain());
    assert_eq!(second.query(&AuditFilter::default()).len(), 2);
}

#[test]
fn audit_query_returns_filtered_entries_from_the_cli_runtime() {
    let mut log = empty();
    log.record(
        new_id(),
        AuditEvent {
            action: AuditAction::Normalize,
            provider: "telegram".into(),
            source_id: Some("incoming-1".into()),
            timestamp: at("2026-08-14T12:00:00Z"),
            metadata: Json::Object(vec![]),
        },
    );
    let expected = log.record(
        new_id(),
        AuditEvent {
            action: AuditAction::Send,
            provider: "telegram".into(),
            source_id: Some("outgoing-1".into()),
            timestamp: at("2026-08-14T12:01:00Z"),
            metadata: Json::Object(vec![]),
        },
    );
    let filter = audit_query_filter(AuditQueryArgs {
        provider: Some("telegram".into()),
        action: Some("send".into()),
        since: None,
        until: None,
        source_id: None,
        limit: Some(1),
    })
    .unwrap();
    assert_eq!(log.query(&filter), vec![expected]);
}

fn query(action: Option<&str>, since: Option<&str>, until: Option<&str>) -> Result<AuditFilter, String> {
    audit_query_filter(AuditQueryArgs {
        provider: None,
        action: action.map(ToOwned::to_owned),
        since: since.map(ToOwned::to_owned),
        until: until.map(ToOwned::to_owned),
        source_id: None,
        limit: None,
    })
}

#[test]
fn audit_queries_are_refused_with_their_first_error() {
    assert_eq!(
        query(Some("delete"), Some("bad"), None).unwrap_err(),
        "unknown variant `delete`, expected one of `normalize`, `send`, `fetch_attachment`"
    );
    assert_eq!(
        query(None, Some("bad"), None).unwrap_err(),
        "premature end of input"
    );
    assert_eq!(
        query(None, Some("2026-08-14T12:00:01Z"), Some("2026-08-14T12:00:00Z")).unwrap_err(),
        "since must be before or equal to until"
    );
    let same = query(
        Some("fetch_attachment"),
        Some("2026-08-14T12:00:00Z"),
        Some("2026-08-14T14:00:00+02:00"),
    )
    .unwrap();
    assert_eq!(same.since, same.until);
    assert_eq!(same.action, Some(AuditAction::FetchAttachment));
}

#[test]
fn audit_windows_hold_their_ends() {
    let mut log = empty();
    let entry = log.record(new_id(), event(AuditAction::Send, "one"));
    let exactly = query(None, Some("2026-08-13T12:00:00Z"), Some("2026-08-13T12:00:00Z")).unwrap();
    assert_eq!(log.query(&exactly), vec![entry]);
    let later = query(None, Some("2026-08-13T12:00:01Z"), None).unwrap();
    assert!(log.query(&later).is_empty());
}

#[test]
fn the_order_of_the_chain_is_rebuilt() {
    let mut log = empty();
    let first = log.record(new_id(), event(AuditAction::Normalize, "one"));
    let second = log.record(new_id(), event(AuditAction::Send, "two"));
    let third = log.record(new_id(), event(AuditAction::Send, "three"));
    let ordered = order_entries(vec![third.clone(), first.clone(), second.clone()]);
    assert_eq!(ordered, vec![first.clone(), second.clone(), third.clone()]);
    assert!(!AuditTrail::load(vec![first, third]).verify_chain());
}

#[test]
fn changes_are_detected_in_whatever_order_entries_are_read() {
    let mut log = empty();
    let first = log.record(new_id(), event(AuditAction::Normalize, "one"));
    let second = log.record(new_id(), event(AuditAction::Send, "two"));
    let third = log.record(new_id(), event(AuditAction::Send, "three"));
    let read = |second: AuditEntry| {
        AuditTrail::load(vec![third.clone(), second, first.clone()]).verify_chain()
    };
    assert!(read(second.clone()));
    let mut changed = second.clone();
    changed.id = new_id();
    assert!(!read(changed));
    let mut changed = second.clone();
    changed.event.source_id = Some("four".into());
    assert!(!read(changed));
    for previous in [None, Some(third.self_hash.clone()), Some("anything".to_owned())] {
        let mut changed = second.clone();
        changed.prev_hash = previous;
        assert!(!read(changed));
    }
    let mut changed = second.clone();
    changed.self_hash = "anything".into();
    assert!(!read(changed));
}

#[test]
fn an_entry_is_hashed_without_its_own_hash() {
    let entry = AuditEntry {
        id: Uuid::parse("00000000-0000-0000-0000-000000000001").unwrap(),
        event: event(AuditAction::Send, "one"),
        prev_hash: None,
        self_hash: String::new(),
    };
    let mut other = entry.clone();
    other.self_hash = "anything".into();
    assert_eq!(entry_hash(&entry), entry_hash(&other));
    assert_eq!(entry_hash(&entry).len(), 64);
    let line = entry_line(&entry);
    assert!(line.contains("\"provider\":\"telegram\""), "{line}");
    assert!(line.contains("\"timestamp\":\"2026-08-13T12:00:00Z\""), "{line}");
    assert_eq!(record_lines("a\n\n  \nb\n"), vec!["a".to_owned(), "b".to_owned()]);
}
