//! Who may reach the HTTP server, and what it stores and streams.

use iris::error::IrisError;
use iris::ids::Uuid;
use iris::ingest::{IngestBatch, IngestMutation, IngestOutcome, ReplayLedger};
use iris::operations::provider_json;
use iris::serve::{admits, check_bind, stream_error_json, BindHost, DEFAULT_ADDR};
use iris::storage::{attachment_reference, AttachmentContent};
use iris::time::Timestamp;

fn host(address: &str) -> BindHost {
    match address.parse::<core::net::IpAddr>() {
        Ok(core::net::IpAddr::V4(v4)) => BindHost::V4(v4.to_bits()),
        Ok(core::net::IpAddr::V6(v6)) => BindHost::V6(v6.to_bits()),
        Err(_) => BindHost::Named,
    }
}

#[test]
fn only_sheltered_addresses_are_served_without_a_token() {
    for address in [
        "127.0.0.1", "10.1.2.3", "172.16.0.1", "172.31.255.255", "192.168.1.1", "100.64.0.1",
        "100.127.255.255", "::1", "fc00::1", "fdff::1",
    ] {
        assert!(check_bind(address, host(address), false).is_ok(), "{address}");
    }
    for address in [
        "0.0.0.0", "8.8.8.8", "172.32.0.1", "100.128.0.1", "192.169.0.1", "::", "2001:db8::1",
        "fe80::1", "localhost",
    ] {
        assert_eq!(
            check_bind(address, host(address), false).unwrap_err(),
            format!("refusing to serve without IRIS_API_TOKEN on {address}")
        );
        assert!(check_bind(address, host(address), true).is_ok(), "{address}");
    }
    assert_eq!(DEFAULT_ADDR, "127.0.0.1:9876");
}

#[test]
fn every_request_but_the_health_check_bears_the_token() {
    assert!(admits(None, "GET", "/providers", None));
    assert!(admits(Some("t"), "GET", "/health", None));
    assert!(!admits(Some("t"), "POST", "/health", None));
    assert!(!admits(Some("t"), "GET", "/providers", None));
    assert!(!admits(Some("t"), "GET", "/providers", Some("Bearer tt")));
    assert!(!admits(Some("t"), "GET", "/providers", Some("bearer t")));
    assert!(!admits(Some("t"), "GET", "/providers", Some("")));
    assert!(admits(Some("t"), "GET", "/providers", Some("Bearer t")));
}

#[test]
fn errors_of_a_stream_have_codes() {
    let conflict = IrisError::Provider {
        provider: "fake".into(),
        message: "telegram getUpdates conflict (HTTP 409)".into(),
    };
    assert_eq!(stream_error_json(&conflict).get_str("code"), Some("telegram_conflict"));
    assert_eq!(
        stream_error_json(&IrisError::SlowConsumer).render(),
        r#"{"code":"slow_consumer","message":"slow realtime consumer"}"#
    );
    assert_eq!(
        stream_error_json(&IrisError::Storage("x".into())).get_str("code"),
        Some("provider_failed")
    );
    assert_eq!(
        provider_json("email.ops-codefold", "email", "Email").render(),
        r#"{"id":"email.ops-codefold","name":"Email","provider_type":"email"}"#
    );
}

fn batch(replay_key: &str, source_id: &str) -> IngestBatch {
    IngestBatch {
        source: "alpha".into(),
        replay_key: replay_key.into(),
        mutations: vec![IngestMutation::ArchiveThread {
            source: "alpha".into(),
            source_id: source_id.into(),
        }],
        cursor: None,
        audit: None,
    }
}

#[test]
fn replays_are_answered_with_the_first_commit() {
    let at = |text: &str| Timestamp::parse_rfc3339(text).unwrap();
    let first = at("2026-08-13T12:00:00Z");
    let later = at("2026-08-13T13:00:00Z");
    let mut ledger = ReplayLedger { records: Vec::new() };
    assert_eq!(
        ledger.apply_batch(&batch("k", "one"), first),
        IngestOutcome::Applied { committed_at: first }
    );
    assert_eq!(
        ledger.apply_batch(&batch("k", "one"), later),
        IngestOutcome::AlreadyApplied { committed_at: first }
    );
    assert_eq!(ledger.apply_batch(&batch("k", "two"), later), IngestOutcome::ReplayConflict);
    assert_eq!(ledger.records.len(), 1);
    assert_eq!(
        ledger.apply_batch(&batch("other", "two"), later),
        IngestOutcome::Applied { committed_at: later }
    );
}

#[test]
fn stored_content_is_named_by_its_identifier() {
    let content = AttachmentContent {
        mime_type: "text/plain".into(),
        filename: Some("a.txt".into()),
        bytes: b"abc".to_vec(),
    };
    let reference = attachment_reference(Uuid { value: 1 }, &content);
    assert_eq!(reference.url, "iris://attachment/00000000-0000-0000-0000-000000000001");
    assert_eq!(reference.size, 3);
    assert_eq!(reference.filename.as_deref(), Some("a.txt"));
}
