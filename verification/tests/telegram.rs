//! The Telegram provider: normalization, listings, attachments and sends.

use iris::audit::{operation_event, AuditAction};
use iris::error::IrisError;
use iris::ids::Uuid;
use iris::json::Json;
use iris::maps::StringMap;
use iris::model::{Attachment, Message, MessageKind};
use iris::outbound::{resolve_attachments, OutboundAttachment, OutboundMessage};
use iris::storage::{attachment_reference, AttachmentContent};
use iris::telegram::download::{
    after_bytes, after_file, store_message_attachments, DownloadStep, HttpReply, StoreAction,
    StoreEvent,
};
use iris::telegram::send::{SendAction, SendRun, SendState};
use iris::telegram::{
    chat_lookup, default_filename, find_chat, get_updates_query, list_contacts, list_threads,
    order_messages, poll_messages, select_messages, telegram_media_method, thread_uuid,
    unix_timestamp, ChatLookup, TelegramChat, TelegramFile, TelegramFilePayload, TelegramMessage,
    TelegramPhotoSize, TelegramProvider, TelegramResponse, TelegramUpdate, TelegramUser,
};
use iris::time::Timestamp;

fn text_of(value: &serde_json::Value, key: &str) -> Option<String> {
    value.get(key).and_then(serde_json::Value::as_str).map(ToOwned::to_owned)
}

fn user(value: &serde_json::Value) -> Option<TelegramUser> {
    Some(TelegramUser {
        id: value.get("id")?.as_i64()?,
        is_bot: value.get("is_bot").and_then(serde_json::Value::as_bool).unwrap_or(false),
        first_name: text_of(value, "first_name")?,
        last_name: text_of(value, "last_name"),
        username: text_of(value, "username"),
    })
}

fn photo_sizes(value: Option<&serde_json::Value>) -> Option<Vec<TelegramPhotoSize>> {
    Some(
        value?
            .as_array()?
            .iter()
            .map(|size| TelegramPhotoSize {
                file_id: text_of(size, "file_id").unwrap(),
                file_unique_id: text_of(size, "file_unique_id").unwrap(),
                width: size["width"].as_u64().unwrap() as u32,
                height: size["height"].as_u64().unwrap() as u32,
                file_size: size.get("file_size").and_then(serde_json::Value::as_u64),
            })
            .collect(),
    )
}

fn payload(value: Option<&serde_json::Value>) -> Option<TelegramFilePayload> {
    let value = value?;
    Some(TelegramFilePayload {
        file_id: text_of(value, "file_id")?,
        file_unique_id: text_of(value, "file_unique_id"),
        mime_type: text_of(value, "mime_type"),
        file_name: text_of(value, "file_name"),
        file_size: value.get("file_size").and_then(serde_json::Value::as_u64),
    })
}

/// The message that a decoded value stands for, if it is one.
fn message_of(value: &serde_json::Value) -> Option<TelegramMessage> {
    let chat = value.get("chat")?;
    Some(TelegramMessage {
        message_id: value.get("message_id")?.as_i64()?,
        date: value.get("date")?.as_i64()?,
        chat: TelegramChat {
            id: chat.get("id")?.as_i64()?,
            kind: text_of(chat, "type")?,
            title: text_of(chat, "title"),
            username: text_of(chat, "username"),
            first_name: text_of(chat, "first_name"),
            last_name: text_of(chat, "last_name"),
        },
        from: value.get("from").and_then(user),
        text: text_of(value, "text"),
        caption: text_of(value, "caption"),
        photo: photo_sizes(value.get("photo")),
        audio: payload(value.get("audio")),
        voice: payload(value.get("voice")),
        video: payload(value.get("video")),
        document: payload(value.get("document")),
        sticker: payload(value.get("sticker")),
        location: None,
        new_chat_members: value
            .get("new_chat_members")
            .and_then(serde_json::Value::as_array)
            .map(|members| members.iter().filter_map(user).collect())
            .unwrap_or_default(),
        left_chat_member: value.get("left_chat_member").and_then(user),
        new_chat_title: text_of(value, "new_chat_title"),
        new_chat_photo: photo_sizes(value.get("new_chat_photo")),
        delete_chat_photo: None,
        group_chat_created: None,
        supergroup_chat_created: None,
        channel_chat_created: None,
        migrate_to_chat_id: None,
        migrate_from_chat_id: None,
        pinned_message: None,
        extra: Vec::new(),
    })
}

fn message(text: &str) -> TelegramMessage {
    let value: serde_json::Value = serde_json::from_str(text).expect("JSON text");
    message_of(&value).expect("a message")
}

fn sample_text_message() -> TelegramMessage {
    message(
        r#"{
            "message_id": 42,
            "date": 1700000000,
            "chat": {"id": -100, "type": "group", "title": "Ops"},
            "from": {"id": 7, "is_bot": false, "first_name": "Shiv", "last_name": "Rossi", "username": "shivros"},
            "text": "deploy the thing"
        }"#,
    )
}

fn photo_message() -> TelegramMessage {
    message(
        r#"{
            "message_id": 43,
            "date": 1700000001,
            "chat": {"id": 1, "type": "private", "first_name": "Ada"},
            "photo": [{"file_id": "f", "file_unique_id": "u", "width": 1, "height": 1}],
            "caption": "diagram"
        }"#,
    )
}

fn system_message() -> TelegramMessage {
    message(
        r#"{
            "message_id": 44,
            "date": 1700000002,
            "chat": {"id": 1, "type": "private", "first_name": "Ada"},
            "new_chat_members": [{"id": 9, "is_bot": false, "first_name": "Grace"}]
        }"#,
    )
}

fn check_text_message() {
    let message = sample_text_message().to_message();

    assert_eq!(message.source, "telegram");
    assert_eq!(message.source_id, "42");
    assert_eq!(message.thread_id, thread_uuid(-100));
    assert_eq!(message.sender.source_id, "7");
    assert_eq!(message.sender.display_name.as_deref(), Some("Shiv Rossi"));
    assert_eq!(message.kind, MessageKind::Text);
    assert_eq!(message.body, "deploy the thing");
    assert!(!message.is_outbound);
    assert_eq!(message.timestamp, unix_timestamp(1_700_000_000));
}

fn check_thread() {
    let thread = sample_text_message().to_thread();

    assert_eq!(thread.source, "telegram");
    assert_eq!(thread.source_id, "-100");
    assert_eq!(thread.title.as_deref(), Some("Ops"));
    assert_eq!(thread.participants.len(), 1);
    assert_eq!(thread.last_message_at, unix_timestamp(1_700_000_000));
    assert_eq!(thread.metadata.get_str("chat_type"), Some("group"));
}

fn check_kinds() {
    assert_eq!(photo_message().to_message().kind, MessageKind::Image);
    assert_eq!(photo_message().to_message().body, "diagram");
    assert_eq!(system_message().to_message().kind, MessageKind::System);
}

fn check_credentials() {
    let empty = StringMap::new();
    assert!(TelegramProvider::from_credentials(&empty).is_err());

    let mut credentials = StringMap::new();
    credentials.insert("bot_token".into(), "123:abc".into());
    assert!(TelegramProvider::from_credentials(&credentials).is_ok());
}

#[test]
fn telegram_maps_text_message_to_normalized_message() {
    check_text_message();
}

#[test]
fn mod_maps_text_message_to_normalized_message() {
    check_text_message();
}

#[test]
fn telegram_maps_group_chat_to_thread() {
    check_thread();
}

#[test]
fn mod_maps_group_chat_to_thread() {
    check_thread();
}

#[test]
fn telegram_maps_media_and_system_message_kinds() {
    check_kinds();
}

#[test]
fn mod_maps_media_and_system_message_kinds() {
    check_kinds();
}

#[test]
fn telegram_validates_credentials() {
    check_credentials();
}

#[test]
fn mod_validates_credentials() {
    check_credentials();
}

#[test]
fn photo_attachment_uses_pseudo_url_before_storage() {
    // Before they are stored, attachments carry telegram:file_id: pseudo-URLs.
    let photo = message(
        r#"{
            "message_id": 50,
            "date": 1700000010,
            "chat": {"id": 1, "type": "private", "first_name": "Ada"},
            "photo": [
                {"file_id": "small", "file_unique_id": "u1", "width": 10, "height": 10},
                {"file_id": "large", "file_unique_id": "u2", "width": 100, "height": 100}
            ]
        }"#,
    );
    let message = photo.to_message();
    assert_eq!(message.attachments.len(), 1);
    assert_eq!(message.attachments[0].url, "telegram:file_id:large");
    assert_eq!(message.attachments[0].mime_type, "image/jpeg");
}

#[test]
fn document_attachment_uses_pseudo_url_before_storage() {
    let doc = message(
        r#"{
            "message_id": 51,
            "date": 1700000020,
            "chat": {"id": 1, "type": "private", "first_name": "Ada"},
            "document": {
                "file_id": "doc123",
                "file_unique_id": "du",
                "mime_type": "application/pdf",
                "file_name": "report.pdf",
                "file_size": 4096
            }
        }"#,
    );
    let message = doc.to_message();
    assert_eq!(message.attachments.len(), 1);
    assert_eq!(message.attachments[0].url, "telegram:file_id:doc123");
    assert_eq!(message.attachments[0].mime_type, "application/pdf");
    assert_eq!(message.attachments[0].filename.as_deref(), Some("report.pdf"));
    assert_eq!(message.attachments[0].size, Some(4096));
}

#[test]
fn voice_attachment_uses_pseudo_url_before_storage() {
    let voice = message(
        r#"{
            "message_id": 52,
            "date": 1700000030,
            "chat": {"id": 1, "type": "private", "first_name": "Ada"},
            "voice": {
                "file_id": "voice456",
                "file_unique_id": "vu",
                "mime_type": "audio/ogg",
                "duration": 5
            }
        }"#,
    );
    let message = voice.to_message();
    assert_eq!(message.attachments.len(), 1);
    assert_eq!(message.attachments[0].url, "telegram:file_id:voice456");
    assert_eq!(message.attachments[0].mime_type, "audio/ogg");
}

fn provider() -> TelegramProvider {
    TelegramProvider::with_base_url("123:abc", "https://api.telegram.org").expect("provider builds")
}

#[test]
fn file_download_url_construction() {
    assert_eq!(
        provider().file_download_url("photos/file_1.jpg"),
        "https://api.telegram.org/file/bot123:abc/photos/file_1.jpg"
    );
    assert_eq!(
        provider().method_url("getUpdates"),
        "https://api.telegram.org/bot123:abc/getUpdates"
    );
}

fn file(text: &str) -> TelegramFile {
    let value: serde_json::Value = serde_json::from_str(text).expect("JSON text");
    TelegramFile {
        file_id: text_of(&value, "file_id").unwrap(),
        file_unique_id: text_of(&value, "file_unique_id"),
        file_path: text_of(&value, "file_path").unwrap(),
        file_size: value.get("file_size").and_then(serde_json::Value::as_u64),
    }
}

#[test]
fn telegram_file_deserializes() {
    let file = file(
        r#"{
            "file_id": "ABC123",
            "file_unique_id": "unique123",
            "file_path": "documents/file_1.pdf",
            "file_size": 4096
        }"#,
    );
    assert_eq!(file.file_id, "ABC123");
    assert_eq!(file.file_path, "documents/file_1.pdf");
    assert_eq!(file.file_size, Some(4096));
}

/// A store in memory, and what the network answers.
struct World {
    entries: Vec<(Uuid, AttachmentContent)>,
    audited: Vec<String>,
    file: Result<TelegramFile, String>,
    bytes: Vec<u8>,
}

impl World {
    /// Stores the attachments of a message; answers what the run asks for.
    fn store_all(&mut self, message: &mut Message) {
        let (mut run, mut action) = store_message_attachments(message.clone());
        loop {
            let event = match action {
                StoreAction::GetFile { .. } => StoreEvent::File(HttpReply::Content(self.answer())),
                StoreAction::GetBytes { url } => {
                    let path = &self.file.as_ref().expect("a file is fetched").file_path;
                    assert_eq!(url, provider().file_download_url(path));
                    StoreEvent::Bytes(HttpReply::Content(self.bytes.clone()))
                }
                StoreAction::Store(content) => {
                    let reference = attachment_reference(Uuid::fresh(), &content);
                    self.entries.push((reference.id, content));
                    StoreEvent::Stored(Ok(reference))
                }
                StoreAction::Record(metadata) => {
                    self.audited.push(metadata.render());
                    StoreEvent::Recorded(Ok(()))
                }
                StoreAction::Finish => break,
            };
            (run, action) = run.step(&provider(), event);
        }
        *message = run.finish().expect("attachment storage succeeds");
    }

    fn answer(&self) -> TelegramResponse<TelegramFile> {
        match &self.file {
            Ok(file) => TelegramResponse {
                ok: true,
                result: Some(TelegramFile {
                    file_id: file.file_id.clone(),
                    file_unique_id: file.file_unique_id.clone(),
                    file_path: file.file_path.clone(),
                    file_size: file.file_size,
                }),
                description: None,
            },
            Err(description) => TelegramResponse {
                ok: false,
                result: None,
                description: Some(description.clone()),
            },
        }
    }
}

#[test]
fn store_message_attachments_leaves_iris_urls_untouched() {
    let mut world = World {
        entries: Vec::new(),
        audited: Vec::new(),
        file: Err("unused".into()),
        bytes: Vec::new(),
    };
    let iris_id = Uuid { value: uuid::Uuid::new_v4().as_u128() };
    let mut message = sample_text_message().to_message();
    message.kind = MessageKind::Image;
    message.attachments = vec![Attachment {
        id: iris_id,
        mime_type: "image/jpeg".into(),
        url: format!("iris://attachment/{}", iris_id.text()),
        filename: None,
        size: Some(100),
    }];

    world.store_all(&mut message);

    // The URL is unchanged, no download was attempted.
    assert_eq!(message.attachments[0].url, format!("iris://attachment/{}", iris_id.text()));
    assert!(
        world.entries.is_empty(),
        "no downloads should have occurred for already-stored attachments"
    );
    assert_eq!(message.attachments[0].id, iris_id);
}

#[test]
fn store_message_attachments_downloads_and_stores_photo() {
    let image_bytes = b"hello image";
    let mut world = World {
        entries: Vec::new(),
        audited: Vec::new(),
        file: Ok(file(
            r#"{
                "file_id": "photo_file_id",
                "file_unique_id": "uniq",
                "file_path": "photos/file_123.jpg",
                "file_size": 11
            }"#,
        )),
        bytes: image_bytes.to_vec(),
    };
    let photo = message(
        r#"{
            "message_id": 70,
            "date": 1700000050,
            "chat": {"id": 1, "type": "private", "first_name": "Ada"},
            "photo": [{"file_id": "photo_file_id", "file_unique_id": "u", "width": 1, "height": 1}]
        }"#,
    );
    let mut message = photo.to_message();
    assert_eq!(message.attachments[0].url, "telegram:file_id:photo_file_id");

    world.store_all(&mut message);

    // The pseudo-URL is replaced with an Iris URL.
    let attachment = &message.attachments[0];
    assert!(
        attachment.url.starts_with("iris://attachment/"),
        "URL should be an Iris URL, got: {}",
        attachment.url
    );
    assert_eq!(attachment.mime_type, "image/jpeg");
    assert_eq!(attachment.size, Some(11));
    // The store holds the downloaded bytes.
    assert_eq!(world.entries.len(), 1);
    assert_eq!(world.entries[0].1.bytes, image_bytes);
    assert_eq!(world.entries[0].1.mime_type, "image/jpeg");
    assert_eq!(attachment.id, world.entries[0].0);
    assert_eq!(
        world.audited,
        vec![
            r#"{"filename":null,"mime_type":"image/jpeg","operation":"fetch_attachment","size":11}"#
                .to_owned()
        ]
    );
}

#[test]
fn store_message_attachments_downloads_and_stores_document() {
    let pdf_bytes = b"%PDF-1.4 fake pdf content";
    let mut world = World {
        entries: Vec::new(),
        audited: Vec::new(),
        file: Ok(file(
            r#"{
                "file_id": "doc_file_id",
                "file_unique_id": "uniq2",
                "file_path": "documents/file_456.pdf"
            }"#,
        )),
        bytes: pdf_bytes.to_vec(),
    };
    let doc = message(
        r#"{
            "message_id": 71,
            "date": 1700000060,
            "chat": {"id": 1, "type": "private", "first_name": "Ada"},
            "document": {
                "file_id": "doc_file_id",
                "file_unique_id": "du",
                "mime_type": "application/pdf",
                "file_name": "report.pdf"
            }
        }"#,
    );
    let mut message = doc.to_message();
    assert_eq!(message.attachments[0].url, "telegram:file_id:doc_file_id");

    world.store_all(&mut message);

    let attachment = &message.attachments[0];
    assert!(attachment.url.starts_with("iris://attachment/"));
    assert_eq!(attachment.mime_type, "application/pdf");
    assert_eq!(attachment.filename.as_deref(), Some("report.pdf"));
    assert_eq!(attachment.size, Some(pdf_bytes.len() as u64));
    assert_eq!(world.entries.len(), 1);
    let stored = &world.entries[0].1;
    assert_eq!(stored.bytes, pdf_bytes);
    assert_eq!(stored.mime_type, "application/pdf");
    assert_eq!(stored.filename.as_deref(), Some("report.pdf"));
}

#[test]
fn store_message_attachments_leaves_failed_downloads_in_place() {
    let mut world = World {
        entries: Vec::new(),
        audited: Vec::new(),
        file: Err("file is too old".into()),
        bytes: Vec::new(),
    };
    let photo = message(
        r#"{
            "message_id": 60,
            "date": 1700000040,
            "chat": {"id": 1, "type": "private", "first_name": "Ada"},
            "photo": [{"file_id": "expired_file", "file_unique_id": "u", "width": 1, "height": 1}]
        }"#,
    );
    let mut message = photo.to_message();
    assert_eq!(message.attachments[0].url, "telegram:file_id:expired_file");
    let DownloadStep::Failed(error) = after_file(&provider(), HttpReply::Content(world.answer()))
    else {
        panic!("there is no file");
    };
    assert!(error.describe().contains("file is too old"), "{error:?}");

    world.store_all(&mut message);

    // The pseudo-URL is still there.
    assert_eq!(message.attachments[0].url, "telegram:file_id:expired_file");
    assert!(
        world.entries.is_empty(),
        "nothing should have been stored when download failed"
    );
}

#[test]
fn downloads_report_what_the_server_refused() {
    let refused = after_bytes("photos/a.jpg", "image/jpeg", None, HttpReply::Refused("404 Not Found".into()));
    let DownloadStep::Failed(error) = refused else {
        panic!("a refused download fails");
    };
    assert_eq!(
        error.describe(),
        "transport error: telegram file download returned HTTP 404 Not Found for path photos/a.jpg"
    );
    assert!(matches!(
        after_file(&provider(), HttpReply::Unreachable("x".into())),
        DownloadStep::Failed(IrisError::Transport(_))
    ));
}

fn sent_message() -> Message {
    message(
        r#"{
            "message_id": 500,
            "date": 1700000100,
            "chat": {"id": -100, "type": "group", "title": "Ops"},
            "from": {"id": 7, "is_bot": true, "first_name": "Iris", "username": "iris_bot"},
            "text": "sent"
        }"#,
    )
    .to_message()
}

/// One request of a send.
#[derive(Debug, PartialEq)]
struct Posted {
    path: String,
    chat_id: i64,
    caption: String,
    field: String,
    filename: String,
    bytes: Vec<u8>,
}

/// Sends a message; the requests from `failing` on are refused with the description.
fn send(
    outbound: &OutboundMessage,
    failing: Option<(usize, &str)>,
) -> (Vec<Posted>, Vec<Json>, Result<Message, IrisError>) {
    let Ok(ChatLookup::Chat(chat_id)) = chat_lookup("-100") else {
        panic!("a chat id is looked up");
    };
    let resolved = resolve_attachments(outbound, None).expect("attachments resolve");
    let mut run = SendRun::start(chat_id, &outbound.body, resolved);
    let answer = |index: usize| match failing {
        Some((from, description)) if index >= from => TelegramResponse::<Message> {
            ok: false,
            result: None,
            description: Some(description.to_owned()),
        }
        .into_result(),
        _ => Ok(sent_message()),
    };
    let mut posted = Vec::new();
    let mut recorded = Vec::new();
    loop {
        match run.action() {
            SendAction::PostText { chat_id, text } => {
                posted.push(Posted {
                    path: "/bot123:abc/sendMessage".into(),
                    chat_id,
                    caption: text,
                    field: String::new(),
                    filename: String::new(),
                    bytes: Vec::new(),
                });
                run = run.replied(answer(0));
            }
            SendAction::PostMedia { chat_id, index, method, field, filename, caption } => {
                posted.push(Posted {
                    path: format!("/bot123:abc/{method}"),
                    chat_id,
                    caption,
                    field: field.to_owned(),
                    filename,
                    bytes: run.resolved[index].bytes.clone(),
                });
                run = run.replied(answer(index));
            }
            SendAction::Record(metadata) => {
                recorded.push(metadata);
                run = run.recorded(Ok(()));
            }
            SendAction::Return => {
                let SendState::Finish { outcome } = run.state else {
                    panic!("a finished send has an outcome");
                };
                return (posted, recorded, outcome);
            }
        }
    }
}

fn bytes(mime_type: &str, filename: &str, bytes: &[u8]) -> OutboundAttachment {
    OutboundAttachment::Bytes {
        mime_type: mime_type.to_owned(),
        filename: Some(filename.to_owned()),
        bytes: bytes.to_vec(),
    }
}

#[test]
fn send_message_photo_routes_to_send_photo_with_caption() {
    let (posted, _, sent) = send(
        &OutboundMessage {
            body: "see this diagram".to_owned(),
            attachments: vec![bytes("image/png", "diagram.png", &[1, 2, 3, 4])],
        },
        None,
    );
    let sent = sent.expect("photo send succeeds");
    assert_eq!(sent.source_id, "500");
    assert_eq!(sent.kind, MessageKind::Text);
    assert_eq!(
        posted,
        vec![Posted {
            path: "/bot123:abc/sendPhoto".into(),
            chat_id: -100,
            caption: "see this diagram".into(),
            field: "photo".into(),
            filename: "diagram.png".into(),
            bytes: vec![1, 2, 3, 4],
        }],
        "exactly one sendPhoto request"
    );
}

#[test]
fn send_message_routes_by_mime_type() {
    let mut requests = Vec::new();
    for mime in [
        "image/png",
        "audio/mpeg",
        "video/mp4",
        "application/pdf",
        "application/x-iris-unknown",
    ] {
        let (posted, _, sent) = send(
            &OutboundMessage {
                body: "file".to_owned(),
                attachments: vec![bytes(mime, "file.bin", &[9, 9, 9])],
            },
            None,
        );
        sent.unwrap_or_else(|error| panic!("send for {mime} failed: {error:?}"));
        assert_eq!(posted.len(), 1, "exactly one request for {mime}");
        requests.extend(posted);
    }
    let paths: Vec<String> = requests.iter().map(|r| r.path.clone()).collect();
    assert_eq!(
        paths,
        vec![
            "/bot123:abc/sendPhoto",
            "/bot123:abc/sendAudio",
            "/bot123:abc/sendVideo",
            "/bot123:abc/sendDocument",
            "/bot123:abc/sendDocument",
        ]
    );
    assert_eq!(requests[2].caption, "file");
    assert_eq!(requests[2].field, "video");
    assert_eq!(requests[2].filename, "file.bin");
    assert_eq!(requests[2].bytes, vec![9, 9, 9]);
}

#[test]
fn send_message_first_attachment_carries_caption_followups_empty() {
    let (requests, recorded, sent) = send(
        &OutboundMessage {
            body: "two files".to_owned(),
            attachments: vec![
                bytes("image/png", "first.png", &[1]),
                bytes("application/pdf", "second.pdf", &[2, 2]),
            ],
        },
        None,
    );
    let sent = sent.expect("two-part send succeeds");
    assert_eq!(sent.source_id, "500");
    // Order matters: photo (captioned) then document (empty caption).
    let paths: Vec<String> = requests.iter().map(|r| r.path.clone()).collect();
    assert_eq!(paths, vec!["/bot123:abc/sendPhoto", "/bot123:abc/sendDocument"]);
    assert_eq!(requests[0].caption, "two files");
    assert_eq!(requests[0].field, "photo");
    assert_eq!(requests[0].filename, "first.png");
    assert_eq!(requests[0].bytes, vec![1]);
    assert_eq!(requests[1].caption, "");
    assert_eq!(requests[1].field, "document");
    assert_eq!(requests[1].filename, "second.pdf");
    assert_eq!(requests[1].bytes, vec![2, 2]);
    assert_eq!(recorded.len(), 1);
}

#[test]
fn send_message_partial_dispatch_failure_records_audit_and_errors() {
    let (requests, recorded, sent) = send(
        &OutboundMessage {
            body: "attempt".to_owned(),
            attachments: vec![
                bytes("image/png", "ok.png", &[1]),
                bytes("application/pdf", "too-big.pdf", &[2, 2, 2]),
            ],
        },
        Some((1, "file is too large")),
    );
    let error = sent.expect_err("second request failure must error the send");
    assert!(
        error.describe().contains("file is too large"),
        "error should carry the failed request description: {error:?}"
    );
    assert_eq!(requests.len(), 2);
    assert_eq!(recorded.len(), 1, "exactly one audit event (partial dispatch)");
    let now = Timestamp::epoch();
    let event =
        operation_event(AuditAction::Send, "telegram", Some("-100"), now, recorded[0].clone());
    assert_eq!(event.action, AuditAction::Send);
    assert_eq!(event.source_id.as_deref(), Some("-100"));
    assert_eq!(event.metadata.get_str("outcome"), Some("partial_dispatch"));
    let metadata_text = event.metadata.render();
    assert!(metadata_text.contains("\"attachment_count\":1"), "{metadata_text}");
    let Some(Json::Array(summaries)) = event.metadata.get("attachments") else {
        panic!("attachments are listed");
    };
    assert_eq!(summaries.len(), 1);
    assert_eq!(summaries[0].get_str("filename"), Some("ok.png"));
    // Content-free: no raw bytes or base64 anywhere in the metadata.
    assert!(!metadata_text.contains("AQID"), "no base64 of the bytes in audit");
    assert!(
        !metadata_text.contains("base64"),
        "audit metadata must not contain base64 payloads"
    );
}

#[test]
fn a_failed_first_request_is_not_recorded() {
    let attachments = vec![
        bytes("image/png", "lost.png", &[1]),
        bytes("application/pdf", "unsent.pdf", &[2]),
    ];
    for attachments in [attachments, Vec::new()] {
        let message = OutboundMessage { body: "attempt".to_owned(), attachments };
        let (requests, recorded, sent) = send(&message, Some((0, "gateway timeout")));
        assert!(sent.expect_err("nothing was sent").describe().contains("gateway timeout"));
        assert_eq!(requests.len(), 1);
        assert!(recorded.is_empty(), "nothing is recorded before a response was normalized");
    }
}

#[test]
fn send_message_successful_attachment_send_audit_is_content_free() {
    let (_, recorded, sent) = send(
        &OutboundMessage {
            body: "audit me".to_owned(),
            attachments: vec![bytes("image/png", "a.png", &[7, 7, 7])],
        },
        None,
    );
    sent.expect("send succeeds");
    assert_eq!(recorded.len(), 1);
    assert_eq!(
        recorded[0].render(),
        r#"{"attachment_count":1,"attachments":[{"byte_count":3,"filename":"a.png","mime_type":"image/png"}],"message_id":"500","operation":"send_message"}"#
    );
    let metadata_text = recorded[0].render();
    assert!(!metadata_text.contains("Bwc"), "no base64 of [7,7,7] in audit");
    assert!(!metadata_text.contains("base64"));
}

#[test]
fn text_messages_are_posted_as_text() {
    let (posted, recorded, sent) = send(&OutboundMessage::text("hello"), None);
    assert_eq!(posted.len(), 1);
    assert_eq!(posted[0].caption, "hello");
    assert_eq!(
        recorded[0].render(),
        r#"{"attachment_count":0,"message_id":"500","operation":"send_message"}"#
    );
    assert!(sent.is_ok());
}

#[test]
fn audit_failures_take_the_place_of_the_outcome() {
    let run = SendRun::start(1, "x", Vec::new())
        .replied(Ok(sent_message()))
        .recorded(Err(IrisError::Storage("disk full".into())));
    let SendState::Finish { outcome } = run.state else {
        panic!("the send is finished");
    };
    assert_eq!(outcome, Err(IrisError::Storage("disk full".into())));
}

#[test]
fn attachments_without_a_name_get_a_conventional_one() {
    assert_eq!(default_filename("image/png"), "attachment.png");
    assert_eq!(telegram_media_method("IMAGE/PNG"), "sendPhoto");
}

fn updates() -> Vec<TelegramUpdate> {
    vec![
        TelegramUpdate { update_id: 10, message: Some(sample_text_message()) },
        TelegramUpdate { update_id: 11, message: None },
        TelegramUpdate { update_id: 12, message: Some(photo_message()) },
    ]
}

#[test]
fn listings_go_over_the_recent_updates() {
    let threads = list_threads(&updates(), None);
    assert_eq!(threads.len(), 2);
    assert_eq!(threads[0].source_id, "1", "the newest chat comes first");
    assert_eq!(list_threads(&updates(), Some(1)).len(), 1);
    let messages = order_messages(select_messages(&updates(), "-100", None), None);
    assert_eq!(messages.len(), 1);
    assert_eq!(messages[0].body, "deploy the thing");
    let by_uuid = select_messages(&updates(), &thread_uuid(-100).text(), None);
    assert_eq!(by_uuid.len(), 1);
    let none = select_messages(&updates(), "-100", Some(unix_timestamp(1_700_000_000)));
    assert!(none.is_empty(), "messages before a time exclude that time");
    let contacts = list_contacts(&updates(), None);
    assert!(contacts.iter().any(|contact| contact.source_id == "7"));
    let polled = poll_messages(&updates());
    assert_eq!(polled.len(), 2);
    assert_eq!(polled[0].next_offset, 11);
}

#[test]
fn chats_are_found_by_their_thread() {
    let id = thread_uuid(-100);
    assert_eq!(chat_lookup(&id.text()), Ok(ChatLookup::Search(id)));
    assert_eq!(find_chat(&updates(), id, &id.text()), Ok(-100));
    assert!(find_chat(&updates(), Uuid::nil(), "x").is_err());
    assert!(chat_lookup("neither").is_err());
    assert_eq!(
        get_updates_query(Some(5), None),
        vec![
            ("allowed_updates".to_owned(), "[\"message\"]".to_owned()),
            ("offset".to_owned(), "5".to_owned()),
        ]
    );
}
