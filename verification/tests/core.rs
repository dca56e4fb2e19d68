//! The message model's own rules: outgoing attachments, wire forms, ingest hashes, audit metadata.

use iris::audit::{AuditAction, AuditEvent};
use iris::error::IrisError;
use iris::ids::Uuid;
use iris::ingest::{IngestBatch, IngestCursor, IngestMutation};
use iris::json::{Json, JsonNumber};
use iris::model::MessageKind;
use iris::outbound::{
    audit_summaries, enforce_capability, resolve_attachments, OutboundAttachment, OutboundMessage,
    ResolvedAttachment, StoredContents,
};
use iris::provider::{unsupported_realtime, ProviderMetadata};
use iris::realtime::{RealtimeAttachmentSummary, RealtimeAuditMetadata, RealtimeEventKind};
use iris::storage::AttachmentContent;
use iris::time::Timestamp;
use iris::wire::{decode_attachments, infer_mime_type, plan_attachments, PlannedAttachment};

fn value(v: &serde_json::Value) -> Json {
    match v {
        serde_json::Value::Null => Json::Null,
        serde_json::Value::Bool(b) => Json::Bool(*b),
        serde_json::Value::Number(n) => match (n.as_u64(), n.as_i64()) {
            (Some(u), _) => Json::Number(JsonNumber::Unsigned(u)),
            (None, Some(i)) => Json::Number(JsonNumber::Negative(i)),
            (None, None) => Json::Number(JsonNumber::Decimal(n.to_string())),
        },
        serde_json::Value::String(s) => Json::Text(s.clone()),
        serde_json::Value::Array(items) => Json::Array(items.iter().map(value).collect()),
        serde_json::Value::Object(members) => {
            Json::Object(members.iter().map(|(k, v)| (k.clone(), value(v))).collect())
        }
    }
}

/// The JSON value that a text stands for.
fn json(text: &str) -> Json {
    value(&serde_json::from_str::<serde_json::Value>(text).expect("JSON text"))
}

fn new_id() -> Uuid {
    Uuid { value: uuid::Uuid::new_v4().as_u128() }
}

fn store_with(entries: Vec<(Uuid, AttachmentContent)>) -> StoredContents {
    StoredContents { entries }
}

fn content(mime_type: &str, filename: Option<&str>, bytes: &[u8]) -> AttachmentContent {
    AttachmentContent {
        mime_type: mime_type.to_owned(),
        filename: filename.map(ToOwned::to_owned),
        bytes: bytes.to_vec(),
    }
}

#[test]
fn text_only_message_has_no_attachments() {
    let message = OutboundMessage::text("hello");
    assert!(message.is_text_only());
    assert_eq!(message.body, "hello");
}

#[test]
fn inline_attachment_requires_non_empty_mime() {
    let message = OutboundMessage {
        body: String::new(),
        attachments: vec![OutboundAttachment::Bytes {
            mime_type: "  ".to_owned(),
            filename: None,
            bytes: vec![1, 2, 3],
        }],
    };
    let store = store_with(vec![]);
    let error = resolve_attachments(&message, Some(&store)).unwrap_err();
    assert!(
        matches!(error, IrisError::Config(ref message) if message.contains("MIME")),
        "unexpected error: {error:?}"
    );
}

#[test]
fn inline_attachment_requires_non_empty_bytes() {
    let message = OutboundMessage {
        body: String::new(),
        attachments: vec![OutboundAttachment::Bytes {
            mime_type: "image/png".to_owned(),
            filename: None,
            bytes: Vec::new(),
        }],
    };
    let store = store_with(vec![]);
    let error = resolve_attachments(&message, Some(&store)).unwrap_err();
    assert!(
        matches!(error, IrisError::Config(ref message) if message.contains("bytes")),
        "unexpected error: {error:?}"
    );
}

#[test]
fn stored_attachment_missing_id_fails_resolution() {
    let missing = new_id();
    let message = OutboundMessage {
        body: String::new(),
        attachments: vec![OutboundAttachment::Stored(missing)],
    };
    let store = store_with(vec![]);
    let error = resolve_attachments(&message, Some(&store)).unwrap_err();
    assert!(
        matches!(error, IrisError::Config(ref message) if message.contains(&missing.text())),
        "unexpected error: {error:?}"
    );
}

#[test]
fn resolution_preserves_user_order() {
    let stored_id = new_id();
    let store = store_with(vec![(
        stored_id,
        content("text/plain", Some("stored.txt"), b"stored-bytes"),
    )]);
    let message = OutboundMessage {
        body: "see files".to_owned(),
        attachments: vec![
            OutboundAttachment::Bytes {
                mime_type: "image/png".to_owned(),
                filename: Some("inline.png".to_owned()),
                bytes: vec![1, 2, 3],
            },
            OutboundAttachment::Stored(stored_id),
        ],
    };
    let resolved = resolve_attachments(&message, Some(&store)).unwrap();
    assert_eq!(resolved.len(), 2);
    assert_eq!(resolved[0].filename.as_deref(), Some("inline.png"));
    assert_eq!(resolved[0].bytes, vec![1, 2, 3]);
    assert_eq!(resolved[1].filename.as_deref(), Some("stored.txt"));
    assert_eq!(resolved[1].bytes, b"stored-bytes".to_vec());
}

#[test]
fn stored_attachments_need_a_store() {
    let id = new_id();
    let message = OutboundMessage {
        body: String::new(),
        attachments: vec![OutboundAttachment::Stored(id)],
    };
    assert!(matches!(resolve_attachments(&message, None), Err(IrisError::Config(_))));
}

#[test]
fn audit_summaries_hold_no_bytes() {
    let resolved = vec![ResolvedAttachment {
        mime_type: "image/png".to_owned(),
        filename: Some("a.png".to_owned()),
        bytes: b"secret-bytes".to_vec(),
    }];
    let summaries = audit_summaries(&resolved);
    assert_eq!(
        summaries[0].render(),
        r#"{"byte_count":12,"filename":"a.png","mime_type":"image/png"}"#
    );
}

#[test]
fn capability_gating_rejects_attachments_without_support() {
    let message = OutboundMessage {
        body: String::new(),
        attachments: vec![OutboundAttachment::Stored(new_id())],
    };
    let error = enforce_capability(&message, "sms", false).unwrap_err();
    assert!(
        matches!(error, IrisError::UnsupportedCapability { ref provider, ref capability }
            if provider == "sms" && capability == "SendAttachments"),
        "unexpected error: {error:?}"
    );
}

#[test]
fn capability_gating_passes_text_only_without_support() {
    let message = OutboundMessage::text("plain");
    enforce_capability(&message, "sms", false).expect("text-only send is allowed");
}

#[test]
fn capability_gating_passes_attachments_with_support() {
    let message = OutboundMessage {
        body: String::new(),
        attachments: vec![OutboundAttachment::Bytes {
            mime_type: "image/png".to_owned(),
            filename: None,
            bytes: vec![1],
        }],
    };
    enforce_capability(&message, "mock", true).expect("attachment send is allowed");
}

fn batch(mutations: Vec<IngestMutation>, metadata: &str) -> IngestBatch {
    IngestBatch {
        source: "herdr".into(),
        replay_key: "replay-1".into(),
        mutations,
        cursor: Some(IngestCursor { source: "herdr".into(), value: "cursor-1".into() }),
        audit: Some(AuditEvent {
            action: AuditAction::Normalize,
            provider: "herdr".into(),
            source_id: Some("event-1".into()),
            timestamp: Timestamp::from_seconds(1_700_000_000).unwrap(),
            metadata: json_in_order(metadata),
        }),
    }
}

/// An object with one nested object, whose members keep the order of the text.
fn json_in_order(order: &str) -> Json {
    let members = order
        .chars()
        .map(|c| (c.to_string(), Json::Number(JsonNumber::Unsigned(if c == 'a' { 1 } else { 2 }))))
        .collect();
    Json::Object(vec![("nested".to_owned(), Json::Object(members))])
}

#[test]
fn canonical_hash_is_stable_across_object_key_order() {
    let first = batch(vec![], "az");
    let second = batch(vec![], "za");
    assert_eq!(first.canonical_hash().unwrap(), second.canonical_hash().unwrap());
}

#[test]
fn canonical_hash_preserves_mutation_order() {
    let first = batch(
        vec![IngestMutation::ArchiveThread { source: "herdr".into(), source_id: "one".into() }],
        "za",
    );
    let second = batch(
        vec![
            IngestMutation::ArchiveThread { source: "herdr".into(), source_id: "one".into() },
            IngestMutation::ArchiveThread { source: "herdr".into(), source_id: "two".into() },
        ],
        "za",
    );
    assert_ne!(first.canonical_hash().unwrap(), second.canonical_hash().unwrap());
}

#[test]
fn canonical_hash_tells_what_a_batch_holds() {
    let archive = |id: &str| IngestMutation::ArchiveThread {
        source: "herdr".into(),
        source_id: id.to_owned(),
    };
    let given = || batch(vec![archive("one"), archive("two")], "az");
    let hash = given().canonical_hash().unwrap();
    let reordered = batch(vec![archive("two"), archive("one")], "az");
    assert_ne!(reordered.canonical_hash().unwrap(), hash);
    let mut other = given();
    other.source = "other".into();
    assert_ne!(other.canonical_hash().unwrap(), hash);
    let mut other = given();
    other.cursor = None;
    assert_ne!(other.canonical_hash().unwrap(), hash);
    let mut other = given();
    other.audit = None;
    assert_ne!(other.canonical_hash().unwrap(), hash);
    assert_eq!(given().canonical_hash().unwrap(), hash);
}

#[test]
fn canonical_hash_ignores_the_replay_key() {
    let first = batch(vec![], "az");
    let mut second = batch(vec![], "az");
    second.replay_key = "another".into();
    assert_eq!(first.canonical_hash().unwrap(), second.canonical_hash().unwrap());
    assert_eq!(first.canonical_hash().unwrap().len(), 64);
}

#[test]
fn non_realtime_provider_rejects_subscription_by_default() {
    let metadata = ProviderMetadata {
        id: "nonrealtime",
        name: "Non-Realtime Provider",
        capabilities: &[],
    };
    assert!(!metadata.has_realtime());
    let error = unsupported_realtime(&metadata);
    assert!(matches!(
        error,
        IrisError::UnsupportedCapability { ref provider, ref capability }
            if provider == "nonrealtime" && capability == "ReceiveRealtime"
    ));
}

#[test]
fn audit_metadata_is_content_free() {
    let now = Timestamp::parse_rfc3339("2026-08-13T12:00:00Z").unwrap();
    let metadata =
        RealtimeAuditMetadata::new(RealtimeEventKind::Message, "telegram", "12345", now)
            .with_source_id("42")
            .with_thread_id("00000000-0000-0000-0000-000000000001")
            .with_message_kind(MessageKind::Text)
            .with_attachments(vec![RealtimeAttachmentSummary {
                mime_type: "image/png".into(),
                name: Some("screenshot.png".into()),
                byte_count: Some(2048),
            }]);

    let text = metadata.to_json().render();
    assert_eq!(text, text.replace("secret-token", ""));
    let value = metadata.to_json();
    assert_eq!(value.get("schema_version"), Some(&json("1")));
    assert_eq!(value.get_str("event_kind"), Some("message"));
    assert_eq!(value.get_str("provider"), Some("telegram"));
    assert_eq!(value.get_str("update_id"), Some("12345"));
    let Some(Json::Array(attachments)) = value.get("attachments") else {
        panic!("attachments are a list");
    };
    assert_eq!(attachments[0].get("byte_count"), Some(&json("2048")));
    // No body/URL fields exist in the schema.
    assert!(value.get("body").is_none());
    assert!(value.get("url").is_none());
}

#[test]
fn event_kinds_have_stable_wire_names() {
    assert_eq!(RealtimeEventKind::Message.as_str(), "message");
    assert_eq!(RealtimeEventKind::IgnoredUpdate.as_str(), "ignored_update");
    assert_eq!(RealtimeEventKind::InvalidUpdate.as_str(), "invalid_update");
}

fn decode(text: &str) -> Result<Vec<OutboundAttachment>, IrisError> {
    decode_attachments(Some(&json(text)))
}

fn inline(data_base64: &str) -> String {
    format!(
        r#"{{"mime_type": "image/png", "filename": "chart.png", "data_base64": "{data_base64}"}}"#
    )
}

#[test]
fn absent_and_null_attachments_decode_to_empty() {
    assert!(decode_attachments(None).unwrap().is_empty());
    assert!(decode("null").unwrap().is_empty());
    assert!(decode("[]").unwrap().is_empty());
}

#[test]
fn inline_attachment_decodes_with_optional_filename() {
    let attachments = decode(&format!("[{}]", inline("aGk="))).unwrap();
    assert_eq!(
        attachments,
        vec![OutboundAttachment::Bytes {
            mime_type: "image/png".to_owned(),
            filename: Some("chart.png".to_owned()),
            bytes: b"hi".to_vec(),
        }]
    );
    let attachments =
        decode(r#"[{"mime_type": "text/plain", "data_base64": "aGk="}]"#).unwrap();
    assert_eq!(
        attachments,
        vec![OutboundAttachment::Bytes {
            mime_type: "text/plain".to_owned(),
            filename: None,
            bytes: b"hi".to_vec(),
        }]
    );
}

#[test]
fn stored_attachment_decodes_uuid() {
    let id = new_id();
    let attachments = decode(&format!(r#"[{{ "stored_id": "{}" }}]"#, id.text())).unwrap();
    assert_eq!(attachments, vec![OutboundAttachment::Stored(id)]);
}

#[test]
fn order_is_preserved_across_variants() {
    let id = new_id();
    let attachments =
        decode(&format!(r#"[{}, {{ "stored_id": "{}" }}]"#, inline("aGk="), id.text())).unwrap();
    assert_eq!(attachments.len(), 2);
    assert!(matches!(attachments[0], OutboundAttachment::Bytes { .. }));
    assert_eq!(attachments[1], OutboundAttachment::Stored(id));
}

#[test]
fn non_array_attachments_are_rejected() {
    assert!(decode(r#""nope""#).is_err());
    assert!(decode(r#"{ "mime_type": "a" }"#).is_err());
}

#[test]
fn mixed_variants_are_rejected() {
    let mixed = format!(
        r#"[{{"mime_type": "image/png", "data_base64": "aGk=", "stored_id": "{}"}}]"#,
        new_id().text()
    );
    let error = decode(&mixed).unwrap_err();
    assert!(error.describe().contains("mixes"), "{error:?}");
}

#[test]
fn unknown_fields_are_rejected_on_both_variants() {
    assert!(decode(
        r#"[{"mime_type": "image/png", "data_base64": "aGk=", "caption": "nope"}]"#
    )
    .is_err());
    let unknown_stored =
        format!(r#"[{{ "stored_id": "{}", "filename": "nope" }}]"#, new_id().text());
    let error = decode(&unknown_stored).unwrap_err();
    assert!(error.describe().contains("only stored_id"), "{error:?}");
}

#[test]
fn inline_requires_mime_type_and_data_base64() {
    assert!(decode(r#"[{ "mime_type": "image/png" }]"#).is_err());
    assert!(decode(r#"[{ "data_base64": "aGk=" }]"#).is_err());
    assert!(decode(r#"[{ "mime_type": "   ", "data_base64": "aGk=" }]"#).is_err());
    assert!(decode(r#"[{ "mime_type": "image/png", "data_base64": 7 }]"#).is_err());
}

#[test]
fn malformed_base64_and_empty_bytes_are_rejected() {
    let error = decode(&format!("[{}]", inline("!!!not-base64!!!"))).unwrap_err();
    assert!(error.describe().contains("base64"), "{error:?}");
    let error = decode(&format!("[{}]", inline(""))).unwrap_err();
    assert!(error.describe().contains("non-empty"), "{error:?}");
}

#[test]
fn invalid_stored_uuid_is_rejected() {
    let error = decode(r#"[{ "stored_id": "not-a-uuid" }]"#).unwrap_err();
    assert!(error.describe().contains("invalid UUID"), "{error:?}");
}

#[test]
fn null_filename_is_rejected() {
    // `filename` is optional but not nullable in the declared union schema; an explicit null is
    // outside the closed contract.
    let error = decode(
        r#"[{"mime_type": "image/png", "filename": null, "data_base64": "aGVsbG8="}]"#,
    )
    .unwrap_err();
    assert!(error.describe().contains("null is not allowed"), "{error:?}");
}

#[test]
fn non_object_items_are_rejected() {
    assert!(decode(r#"["path.png"]"#).is_err());
    assert!(decode("[7]").is_err());
}

#[test]
fn cli_blank_attach_mime_override_is_rejected() {
    // --attach-mime overrides must be non-empty MIME types, matching the HTTP/MCP inline contract
    // (which rejects blank mime_type values).
    let error =
        plan_attachments(&vec!["/tmp/photo.png".to_owned()], &vec!["   ".to_owned()]).unwrap_err();
    assert!(error.describe().contains("non-empty MIME"), "{error:?}");
    let error =
        plan_attachments(&vec!["/tmp/photo.png".to_owned()], &vec![String::new()]).unwrap_err();
    assert!(error.describe().contains("non-empty MIME"), "{error:?}");
}

#[test]
fn cli_plan_splits_local_paths_and_stored_refs() {
    let id = new_id();
    let plan = plan_attachments(
        &vec![
            "/tmp/photo.png".to_owned(),
            format!("iris://attachment/{}", id.text()),
            "/tmp/notes.txt".to_owned(),
        ],
        &vec![],
    )
    .unwrap();
    assert_eq!(
        plan,
        vec![
            PlannedAttachment::LocalFile {
                path: "/tmp/photo.png".to_owned(),
                mime_type: "image/png".to_owned(),
                filename: Some("photo.png".to_owned()),
            },
            PlannedAttachment::Stored(id),
            PlannedAttachment::LocalFile {
                path: "/tmp/notes.txt".to_owned(),
                mime_type: "text/plain".to_owned(),
                filename: Some("notes.txt".to_owned()),
            },
        ]
    );
}

#[test]
fn cli_mime_overrides_apply_in_local_path_order() {
    let plan = plan_attachments(
        &vec![
            "/tmp/a.dat".to_owned(),
            "iris://attachment/00000000-0000-0000-0000-000000000001".to_owned(),
            "/tmp/b.dat".to_owned(),
        ],
        &vec!["application/x-first".to_owned(), "application/x-second".to_owned()],
    )
    .unwrap();
    let mimes: Vec<_> = plan
        .iter()
        .filter_map(|item| match item {
            PlannedAttachment::LocalFile { mime_type, .. } => Some(mime_type.clone()),
            PlannedAttachment::Stored(_) => None,
        })
        .collect();
    assert_eq!(
        mimes,
        vec!["application/x-first".to_owned(), "application/x-second".to_owned()]
    );
}

#[test]
fn cli_mime_count_must_match_local_paths_exactly() {
    let error = plan_attachments(
        &vec!["/tmp/a.png".to_owned(), "/tmp/b.png".to_owned()],
        &vec!["image/png".to_owned()],
    )
    .unwrap_err();
    assert!(error.describe().contains("must match"), "{error:?}");
    let error = plan_attachments(
        &vec!["iris://attachment/00000000-0000-0000-0000-000000000002".to_owned()],
        &vec!["image/png".to_owned()],
    )
    .unwrap_err();
    assert!(error.describe().contains("must match"), "{error:?}");
    assert_eq!(
        plan_attachments(
            &vec!["iris://attachment/00000000-0000-0000-0000-000000000003".to_owned()],
            &vec![]
        )
        .unwrap()
        .len(),
        1
    );
}

#[test]
fn cli_unknown_extensions_fall_back_to_octet_stream() {
    let mime = infer_mime_type("/tmp/blob.what");
    assert_eq!(mime, "application/octet-stream");
    let mime = infer_mime_type("/tmp/noext");
    assert_eq!(mime, "application/octet-stream");
    let mime = infer_mime_type("/tmp/Photo.PNG");
    assert_eq!(mime, "image/png");
}

#[test]
fn cli_invalid_iris_refs_are_rejected() {
    let error =
        plan_attachments(&vec!["iris://attachment/not-a-uuid".to_owned()], &vec![]).unwrap_err();
    assert!(error.describe().contains("invalid stored"), "{error:?}");
    let error = plan_attachments(&vec!["iris://other/thing".to_owned()], &vec![]).unwrap_err();
    assert!(error.describe().contains("unsupported iris://"), "{error:?}");
}

#[test]
fn errors_are_described_in_words() {
    let cases = vec![
        (
            IrisError::Provider { provider: "sms".into(), message: "down".into() },
            "provider 'sms' error: down",
        ),
        (IrisError::ProviderNotFound("sms.x".into()), "provider not found: sms.x"),
        (
            IrisError::UnsupportedCapability {
                provider: "sms".into(),
                capability: "SendAttachments".into(),
            },
            "provider 'sms' does not support capability: SendAttachments",
        ),
        (IrisError::NotFound("x".into()), "not found: x"),
        (IrisError::Config("x".into()), "configuration error: x"),
        (IrisError::Transport("x".into()), "transport error: x"),
        (IrisError::Serialization("x".into()), "serialization error: x"),
        (IrisError::Storage("x".into()), "storage error: x"),
        (
            IrisError::RealtimeUnavailable { provider: "telegram".into(), code: "c".into() },
            "provider 'telegram' realtime unavailable: c",
        ),
        (
            IrisError::RealtimeRetryExhausted { attempts: 3, last_error: "x".into() },
            "realtime retries exhausted after 3 attempts: x",
        ),
        (IrisError::SlowConsumer, "slow realtime consumer"),
    ];
    for (error, words) in cases {
        assert_eq!(error.describe(), words);
    }
}

#[test]
fn random_ids_are_marked_as_such() {
    let id = Uuid::fresh();
    assert_ne!(id, Uuid::fresh());
    let text = id.text();
    assert_eq!(&text[14..15], "4");
    assert!(matches!(&text[19..20], "8" | "9" | "a" | "b"), "{text}");
    assert_eq!(Uuid::parse(&text), Ok(id));
}

#[test]
fn json_texts_are_escaped() {
    let text = "a\"b\\c/\u{8}\t\n\u{c}\r\u{0}\u{1f} \u{7f}é😀";
    assert_eq!(
        Json::Text(text.to_owned()).render(),
        "\"a\\\"b\\\\c/\\b\\t\\n\\f\\r\\u0000\\u001f \u{7f}é😀\""
    );
    assert_eq!(Json::Text(String::new()).render(), "\"\"");
}
