//! The SMS provider.

use iris::error::IrisError;
use iris::json::{Json, JsonNumber};
use iris::maps::StringMap;
use iris::model::MessageKind;
use iris::outbound::{OutboundAttachment, OutboundMessage};
use iris::sms::phone::{
    looks_like_phone, map_phone, normalize_phone, remote_command, shell_quote, thread_key,
};
use iris::sms::{
    command_output, list_command, merge_unread, metadata, resolve_phone, send_command,
    send_metadata, thread_uuid, value_to_string, SmsProvider, TermuxSmsRecord,
};
use iris::time::Timestamp;

fn value(v: &serde_json::Value) -> Json {
    match v {
        serde_json::Value::Null => Json::Null,
        serde_json::Value::Bool(b) => Json::Bool(*b),
        serde_json::Value::Number(n) => match (n.as_u64(), n.as_i64()) {
            (Some(u), _) => Json::Number(JsonNumber::Unsigned(u)),
            (None, Some(i)) => Json::Number(JsonNumber::Negative(i)),
            (None, None) => Json::Number(JsonNumber::Decimal(n.to_string())),
        },
        serde_json::Value::String(s) => Json::Text(s.clone()),
        serde_json::Value::Array(items) => Json::Array(items.iter().map(value).collect()),
        serde_json::Value::Object(members) => {
            Json::Object(members.iter().map(|(k, v)| (k.clone(), value(v))).collect())
        }
    }
}

/// The JSON value that a text stands for.
fn json(text: &str) -> Json {
    value(&serde_json::from_str::<serde_json::Value>(text).expect("JSON text"))
}

/// The record that a JSON text stands for.
fn record(text: &str) -> TermuxSmsRecord {
    let Json::Object(members) = json(text) else {
        panic!("a record is an object");
    };
    let mut record = TermuxSmsRecord {
        id: None,
        threadid: None,
        address: String::new(),
        body: String::new(),
        date: None,
        message_type: None,
        read: None,
        extra: Vec::new(),
    };
    for (key, value) in members {
        match key.as_str() {
            "_id" => record.id = Some(value),
            "threadid" => record.threadid = Some(value),
            "address" => record.address = value.as_str().unwrap().to_owned(),
            "body" => record.body = value.as_str().unwrap().to_owned(),
            "date" => record.date = Some(value),
            "type" => record.message_type = Some(value),
            "read" => record.read = Some(value),
            _ => record.extra.push((key, value)),
        }
    }
    record
}

fn sample_inbound() -> TermuxSmsRecord {
    record(
        r#"{
            "_id": 12,
            "threadid": 5,
            "address": "+1 (575) 555-0100",
            "body": "status?",
            "date": 1700000000000,
            "type": "inbox",
            "read": 0
        }"#,
    )
}

fn seconds(secs: i64) -> Timestamp {
    Timestamp::from_seconds(secs).unwrap()
}

#[test]
fn maps_termux_sms_to_normalized_message() {
    let mappings = StringMap::new();
    let message = sample_inbound().to_message(&Some("+157****0199".into()), &mappings);

    assert_eq!(message.source, "sms");
    assert_eq!(message.source_id, "12");
    assert_eq!(message.sender.source_id, "+15755550100");
    assert_eq!(message.kind, MessageKind::Text);
    assert_eq!(message.body, "status?");
    assert!(!message.is_outbound);
    assert_eq!(message.timestamp, seconds(1_700_000_000));
}

#[test]
fn maps_sms_thread_and_contact() {
    let record = sample_inbound();
    let mappings = StringMap::new();
    let thread = record.to_thread(&None, &mappings);

    assert_eq!(thread.source_id, "+15755550100");
    assert_eq!(thread.participants.len(), 1);
    assert_eq!(thread.unread_count, Some(1));
    assert!(record.matches_thread(&thread.id.text(), &None, &mappings));
    assert!(record.matches_thread("5", &None, &mappings));
}

#[test]
fn outbound_messages_are_from_owner() {
    let record = record(
        r#"{
            "_id": "abc",
            "address": "575-555-0100",
            "body": "ack",
            "date": "1700000001",
            "type": "sent"
        }"#,
    );
    let mappings = StringMap::new();
    let own = Some("+1 575 555 0199".to_owned());
    let message = record.to_message(&own, &mappings);
    assert!(message.is_outbound);
    assert_eq!(message.sender.source_id, "+15755550199");
    assert_eq!(message.thread_id, thread_uuid(&thread_key(&own, "5755550100")));
    assert_eq!(message.timestamp, seconds(1_700_000_001));
}

#[test]
fn validates_sms_credentials() {
    let empty = StringMap::new();
    assert!(SmsProvider::from_credentials(&empty).is_err());

    let mut credentials = StringMap::new();
    credentials.insert("ssh_host".into(), "phone".into());
    credentials.insert("self_number".into(), "+1 575 555 0199".into());
    SmsProvider::from_credentials(&credentials).expect("provider builds");
    assert_eq!(metadata().id, "sms");
}

#[test]
fn phone_numbers_have_one_form() {
    assert_eq!(normalize_phone("+1 (575) 555-0100"), "+15755550100");
    assert_eq!(normalize_phone(&normalize_phone("1-2-3")), normalize_phone("1-2-3"));
    assert!(looks_like_phone("+15755550100"));
    assert!(looks_like_phone("a1b2c3"));
    assert!(!looks_like_phone("a1b2"));
    let mut mappings = StringMap::new();
    mappings.insert("+15755550100".into(), "+15755550111".into());
    assert_eq!(map_phone("+1 575 555 0100", &mappings), "+15755550111");
}

#[test]
fn commands_survive_the_shell() {
    assert_eq!(shell_quote("it's"), r"'it'\''s'");
    assert_eq!(shell_quote("a-b_c.d/e:f+1"), "a-b_c.d/e:f+1");
    assert_eq!(remote_command(&vec!["a".to_owned(), "b c".to_owned()]), "a 'b c'");
    assert_eq!(list_command(), "termux-sms-list -l 1000");
    assert_eq!(
        send_command("+15755550100", "don't"),
        r"termux-sms-send -n +15755550100 'don'\''t'"
    );
}

#[test]
fn failed_commands_report_their_errors() {
    assert_eq!(command_output(true, b"[]".to_vec(), b"").unwrap(), "[]");
    let error = command_output(false, Vec::new(), b"no route\n").unwrap_err();
    assert!(error.describe().contains("no route"), "{error:?}");
    assert!(command_output(true, vec![0xff], b"").is_err());
}

fn provider() -> SmsProvider {
    SmsProvider::with_options("phone", "ssh", Some("+15755550199")).expect("provider builds")
}

#[test]
fn listings_group_records_by_phone() {
    let records = vec![
        sample_inbound(),
        record(
            r#"{"_id": 13, "threadid": 5, "address": "5755550100", "body": "again", "date": 1700000100000, "type": "inbox", "read": 0}"#,
        ),
        record(
            r#"{"_id": 14, "threadid": 6, "address": "+15755550122", "body": "hi", "date": 1700000050000, "type": "sent"}"#,
        ),
    ];
    let threads = provider().list_threads(&records, None);
    assert!(threads.len() >= 2, "{threads:?}");
    assert!(threads
        .windows(2)
        .all(|pair| !pair[0].last_message_at.is_earlier(&pair[1].last_message_at)));
    let messages = provider().list_messages(&records, "6", None, None);
    assert_eq!(messages.len(), 1);
    assert!(messages[0].is_outbound);
    assert_eq!(provider().list_contacts(&records, Some(1)).len(), 1);
    assert_eq!(merge_unread(Some(1), Some(2)), Some(3));
    assert_eq!(merge_unread(None, Some(2)), Some(2));
    assert_eq!(merge_unread(None, None), None);
}

#[test]
fn sends_go_to_a_phone_without_attachments() {
    let text = OutboundMessage::text("hello");
    let phone = provider().send_target("+1 575 555 0100", &text, &vec![]).unwrap();
    assert_eq!(phone, "+15755550100");
    let with_file = OutboundMessage {
        body: String::new(),
        attachments: vec![OutboundAttachment::Bytes {
            mime_type: "image/png".into(),
            filename: None,
            bytes: vec![1],
        }],
    };
    let error = provider().send_target("+15755550100", &with_file, &vec![]).unwrap_err();
    assert!(matches!(error, IrisError::UnsupportedCapability { .. }), "{error:?}");
    let mappings = StringMap::new();
    assert!(resolve_phone("nobody", &vec![], &None, &mappings).is_err());
    let sent = provider().sent("+15755550100", "hello", seconds(1_700_000_000));
    assert!(sent.is_outbound);
    assert_eq!(sent.sender.source_id, "+15755550199");
    assert!(!send_metadata("m").render().contains("hello"));
    assert_eq!(value_to_string(&json("7")), "7");
    assert_eq!(value_to_string(&Json::Number(JsonNumber::Negative(-7))), "-7");
}
