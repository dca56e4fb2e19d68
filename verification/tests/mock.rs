//! The mock provider.

use iris::audit::AuditAction;
use iris::error::IrisError;
use iris::ids::Uuid;
use iris::mock::{metadata, MessageIds, MockProvider};
use iris::outbound::{OutboundAttachment, OutboundMessage, StoredContents};
use iris::storage::AttachmentContent;
use iris::time::Timestamp;

fn new_id() -> Uuid {
    Uuid { value: uuid::Uuid::new_v4().as_u128() }
}

fn ids() -> MessageIds {
    MessageIds { message: new_id(), thread: new_id(), sender: new_id() }
}

fn now() -> Timestamp {
    Timestamp::parse_rfc3339("2026-08-13T12:00:00Z").unwrap()
}

#[test]
fn audit_records_operation_metadata_without_message_body() {
    let mut provider = MockProvider::new();
    let (_, event) = provider
        .send_message(
            "thread-1",
            &OutboundMessage::text("this must not be audited"),
            None,
            ids(),
            now(),
        )
        .expect("send succeeds");
    assert_eq!(event.action, AuditAction::Send);
    assert_eq!(event.source_id.as_deref(), Some("thread-1"));
    assert_eq!(event.metadata.get_str("operation"), Some("send_message"));
    assert!(!event.metadata.render().contains("this must not be audited"));
}

#[test]
fn mock_records_complete_outbound_message_with_attachments() {
    let stored_id = new_id();
    let store = StoredContents {
        entries: vec![(
            stored_id,
            AttachmentContent {
                mime_type: "text/plain".to_owned(),
                filename: Some("stored.txt".to_owned()),
                bytes: b"stored-bytes".to_vec(),
            },
        )],
    };
    let mut provider = MockProvider::new();
    provider
        .send_message(
            "thread-7",
            &OutboundMessage {
                body: "see files".to_owned(),
                attachments: vec![
                    OutboundAttachment::Bytes {
                        mime_type: "image/png".to_owned(),
                        filename: Some("inline.png".to_owned()),
                        bytes: vec![1, 2, 3],
                    },
                    OutboundAttachment::Stored(stored_id),
                ],
            },
            Some(&store),
            ids(),
            now(),
        )
        .expect("send succeeds");

    let sends = provider.recorded_sends();
    assert_eq!(sends.len(), 1);
    assert_eq!(sends[0].thread_id, "thread-7");
    assert_eq!(sends[0].body, "see files");
    assert_eq!(sends[0].attachments.len(), 2);
    assert_eq!(sends[0].attachments[0].filename.as_deref(), Some("inline.png"));
    assert_eq!(sends[0].attachments[0].bytes, vec![1, 2, 3]);
    assert_eq!(sends[0].attachments[1].filename.as_deref(), Some("stored.txt"));
    assert_eq!(sends[0].attachments[1].bytes, b"stored-bytes".to_vec());

    // The returned message mirrors the resolved attachments.
    let (message, _) = provider
        .send_message("thread-7", &OutboundMessage::text("plain"), Some(&store), ids(), now())
        .expect("text send succeeds");
    assert!(message.attachments.is_empty());
    assert_eq!(provider.recorded_sends().len(), 2);
}

#[test]
fn mock_without_store_rejects_stored_references() {
    let mut provider = MockProvider::new();
    let error = provider
        .send_message(
            "thread-1",
            &OutboundMessage {
                body: String::new(),
                attachments: vec![OutboundAttachment::Stored(new_id())],
            },
            None,
            ids(),
            now(),
        )
        .expect_err("stored reference without store must fail");
    assert!(
        matches!(error, IrisError::Config(ref message) if message.contains("no attachment store")),
        "unexpected error: {error:?}"
    );
    assert!(provider.recorded_sends().is_empty());
}

#[test]
fn mock_without_store_accepts_inline_attachments() {
    let mut provider = MockProvider::default();
    provider
        .send_message(
            "thread-2",
            &OutboundMessage {
                body: "inline only".to_owned(),
                attachments: vec![OutboundAttachment::Bytes {
                    mime_type: "image/png".to_owned(),
                    filename: Some("inline.png".to_owned()),
                    bytes: vec![9, 9, 9],
                }],
            },
            None,
            ids(),
            now(),
        )
        .expect("inline attachments resolve without a store");

    let sends = provider.recorded_sends();
    assert_eq!(sends.len(), 1);
    assert_eq!(sends[0].attachments.len(), 1);
    assert_eq!(sends[0].attachments[0].bytes, vec![9, 9, 9]);
}

#[test]
fn listings_are_canned() {
    let provider = MockProvider::new();
    assert_eq!(metadata().id, "mock");
    let threads = provider.list_threads(new_id(), now(), Some(1));
    assert_eq!(threads.len(), 1);
    assert_eq!(threads[0].source, "mock");
    assert_eq!(provider.list_threads(new_id(), now(), Some(0)).len(), 0);
    let messages = provider.list_messages("thread-1", ids(), now(), None);
    assert_eq!(messages[0].source, "mock");
    assert_eq!(provider.list_contacts(new_id()).len(), 1);
}
