//! The realtime hub of the Telegram provider.

use iris::audit::{AuditEvent, AuditTrail, RecordOutcome};
use iris::error::IrisError;
use iris::ids::Uuid;
use iris::json::{Json, JsonNumber};
use iris::model::Message;
use iris::telegram::download::{
    store_realtime_attachments, HttpReply, StoreAction, StoreEvent,
};
use iris::telegram::poller::{Normalization, Normalized, Poller, PollerAction, PollerEvent};
use iris::telegram::realtime::{
    check_ready, check_status, classify_transient, realtime_query, required_update_id, retry_delay,
    updates_of, PollerNext, ProcessError, RealtimeHub, RealtimeSettings, StreamItem,
    HISTORY_CAPACITY, SUBSCRIBER_QUEUE_CAPACITY,
};
use iris::storage::attachment_reference;
use iris::telegram::{
    TelegramChat, TelegramFile, TelegramFilePayload, TelegramMessage, TelegramPhotoSize,
    TelegramProvider, TelegramResponse, TelegramUser,
};
use iris::time::Timestamp;

fn value(v: &serde_json::Value) -> Json {
    match v {
        serde_json::Value::Null => Json::Null,
        serde_json::Value::Bool(b) => Json::Bool(*b),
        serde_json::Value::Number(n) => match (n.as_u64(), n.as_i64()) {
            (Some(u), _) => Json::Number(JsonNumber::Unsigned(u)),
            (None, Some(i)) => Json::Number(JsonNumber::Negative(i)),
            (None, None) => Json::Number(JsonNumber::Decimal(n.to_string())),
        },
        serde_json::Value::String(s) => Json::Text(s.clone()),
        serde_json::Value::Array(items) => Json::Array(items.iter().map(value).collect()),
        serde_json::Value::Object(members) => {
            Json::Object(members.iter().map(|(k, v)| (k.clone(), value(v))).collect())
        }
    }
}

/// The JSON value that a text stands for.
fn json(text: &str) -> Json {
    value(&serde_json::from_str::<serde_json::Value>(text).expect("JSON text"))
}

fn text_of(value: &serde_json::Value, key: &str) -> Option<String> {
    value.get(key).and_then(serde_json::Value::as_str).map(ToOwned::to_owned)
}

fn user(value: &serde_json::Value) -> Option<TelegramUser> {
    Some(TelegramUser {
        id: value.get("id")?.as_i64()?,
        is_bot: value.get("is_bot").and_then(serde_json::Value::as_bool).unwrap_or(false),
        first_name: text_of(value, "first_name")?,
        last_name: text_of(value, "last_name"),
        username: text_of(value, "username"),
    })
}

fn photo_sizes(value: Option<&serde_json::Value>) -> Option<Vec<TelegramPhotoSize>> {
    Some(
        value?
            .as_array()?
            .iter()
            .map(|size| TelegramPhotoSize {
                file_id: text_of(size, "file_id").unwrap(),
                file_unique_id: text_of(size, "file_unique_id").unwrap(),
                width: size["width"].as_u64().unwrap() as u32,
                height: size["height"].as_u64().unwrap() as u32,
                file_size: size.get("file_size").and_then(serde_json::Value::as_u64),
            })
            .collect(),
    )
}

fn payload(value: Option<&serde_json::Value>) -> Option<TelegramFilePayload> {
    let value = value?;
    Some(TelegramFilePayload {
        file_id: text_of(value, "file_id")?,
        file_unique_id: text_of(value, "file_unique_id"),
        mime_type: text_of(value, "mime_type"),
        file_name: text_of(value, "file_name"),
        file_size: value.get("file_size").and_then(serde_json::Value::as_u64),
    })
}

/// The message that a decoded value stands for, if it is one.
fn message_of(value: &serde_json::Value) -> Option<TelegramMessage> {
    let chat = value.get("chat")?;
    Some(TelegramMessage {
        message_id: value.get("message_id")?.as_i64()?,
        date: value.get("date")?.as_i64()?,
        chat: TelegramChat {
            id: chat.get("id")?.as_i64()?,
            kind: text_of(chat, "type")?,
            title: text_of(chat, "title"),
            username: text_of(chat, "username"),
            first_name: text_of(chat, "first_name"),
            last_name: text_of(chat, "last_name"),
        },
        from: value.get("from").and_then(user),
        text: text_of(value, "text"),
        caption: text_of(value, "caption"),
        photo: photo_sizes(value.get("photo")),
        audio: payload(value.get("audio")),
        voice: payload(value.get("voice")),
        video: payload(value.get("video")),
        document: payload(value.get("document")),
        sticker: payload(value.get("sticker")),
        location: None,
        new_chat_members: value
            .get("new_chat_members")
            .and_then(serde_json::Value::as_array)
            .map(|members| members.iter().filter_map(user).collect())
            .unwrap_or_default(),
        left_chat_member: value.get("left_chat_member").and_then(user),
        new_chat_title: text_of(value, "new_chat_title"),
        new_chat_photo: photo_sizes(value.get("new_chat_photo")),
        delete_chat_photo: None,
        group_chat_created: None,
        supergroup_chat_created: None,
        channel_chat_created: None,
        migrate_to_chat_id: None,
        migrate_from_chat_id: None,
        pinned_message: None,
        extra: Vec::new(),
    })
}

fn now() -> Timestamp {
    Timestamp::parse_rfc3339("2026-08-13T12:00:00Z").unwrap()
}

/// An audit sink with optional failure injection.
struct RecordingAudit {
    trail: AuditTrail,
    fail: bool,
}

impl RecordingAudit {
    fn new() -> RecordingAudit {
        RecordingAudit { trail: AuditTrail::load(Vec::new()), fail: false }
    }

    fn record_once(&mut self, key: &str, event: AuditEvent) -> Result<RecordOutcome, IrisError> {
        if self.fail {
            return Err(IrisError::Storage("audit write failed".into()));
        }
        let id = Uuid { value: uuid::Uuid::new_v4().as_u128() };
        Ok(self.trail.record_once("telegram", key, id, event))
    }

    fn event_kinds(&self, update_id: &str) -> Vec<String> {
        self.trail
            .entries
            .iter()
            .filter(|entry| entry.event.source_id.as_deref() == Some(update_id))
            .map(|entry| entry.event.metadata.get_str("event_kind").unwrap_or_default().to_owned())
            .collect()
    }
}

/// Answers what the poller of a hub asks for.
struct Driver {
    hub: RealtimeHub,
    audit: RecordingAudit,
    storage: Result<(), IrisError>,
    at: Option<(Poller, PollerAction)>,
}

impl Driver {
    fn new(settings: RealtimeSettings) -> Driver {
        Driver {
            hub: RealtimeHub::new(settings).expect("valid settings"),
            audit: RecordingAudit::new(),
            storage: Ok(()),
            at: None,
        }
    }

    fn answer(&mut self, poller: Poller, event: PollerEvent) {
        self.at = Some(poller.step(&mut self.hub, event));
    }

    /// The offset of the long poll that the poller asks for.
    fn asked_offset(&mut self) -> Option<i64> {
        if self.at.is_none() {
            self.at = Some(Poller::begin(&mut self.hub));
        }
        match &self.at {
            Some((_, PollerAction::Poll { offset, .. })) => Some(*offset),
            _ => None,
        }
    }

    /// Answers one long poll and what follows from it, up to the next one, a pause or the end.
    fn round(&mut self, status: u16, updates: &[serde_json::Value]) -> PollerNext {
        let response = match check_status(status, &status.to_string()) {
            Err(error) => Err(error),
            Ok(()) => {
                let result = serde_json::Value::Array(updates.to_vec());
                updates_of(TelegramResponse {
                    ok: true,
                    result: Some(value(&result)),
                    description: None,
                })
            }
        };
        if matches!(self.at, Some((_, PollerAction::Sleep(_)))) {
            let (poller, _) = self.at.take().unwrap();
            self.answer(poller, PollerEvent::Slept);
        }
        self.asked_offset().expect("a long poll is asked for");
        let (poller, _) = self.at.take().unwrap();
        self.answer(poller, PollerEvent::Polled(response));
        loop {
            let (poller, action) = self.at.take().unwrap();
            match action {
                PollerAction::Normalize(update) => {
                    let normalization = self.normalize(&update);
                    self.answer(poller, PollerEvent::Normalized(normalization));
                }
                PollerAction::Record { update_id, event } => {
                    let recorded = self.audit.record_once(&update_id.to_string(), event);
                    self.answer(poller, PollerEvent::Recorded(recorded));
                }
                PollerAction::Sleep(millis) => {
                    self.at = Some((poller, PollerAction::Sleep(millis)));
                    return PollerNext::Sleep(millis);
                }
                PollerAction::Poll { offset, timeout_seconds } => {
                    self.at = Some((poller, PollerAction::Poll { offset, timeout_seconds }));
                    return PollerNext::Poll;
                }
                PollerAction::Stop => return PollerNext::Stop,
            }
        }
    }

    /// Stores the attachments of a message whose files can all be fetched.
    fn store(&self, message: Message) -> Result<Message, IrisError> {
        let provider = TelegramProvider::new("123:abc").expect("provider builds");
        let (mut run, mut action) = store_realtime_attachments(message);
        loop {
            let event = match action {
                StoreAction::GetFile { file_id } => {
                    StoreEvent::File(HttpReply::Content(TelegramResponse {
                        ok: true,
                        result: Some(TelegramFile {
                            file_path: format!("files/{file_id}"),
                            file_id,
                            file_unique_id: None,
                            file_size: None,
                        }),
                        description: None,
                    }))
                }
                StoreAction::GetBytes { .. } => StoreEvent::Bytes(HttpReply::Content(vec![1, 2, 3])),
                StoreAction::Store(content) => StoreEvent::Stored(
                    self.storage.clone().map(|()| attachment_reference(Uuid::fresh(), &content)),
                ),
                StoreAction::Record(_) => StoreEvent::Recorded(Ok(())),
                StoreAction::Finish => return run.finish(),
            };
            (run, action) = run.step(&provider, event);
        }
    }

    fn normalize(&self, update: &Json) -> Normalization {
        let decoded = update.get("message").and_then(|message| {
            let text = message.render();
            message_of(&serde_json::from_str::<serde_json::Value>(&text).ok()?)
        });
        let outcome = decoded.map_or(Ok(None), |decoded| {
            let message = self.store(decoded.to_message())?;
            Ok(Some(Normalized { decoded, message }))
        });
        Normalization { outcome, received_at: now(), finished_at: now() }
    }

    fn next(&mut self, id: u64) -> Result<Message, IrisError> {
        match self.hub.next_item(id) {
            StreamItem::Item(item) => item,
            StreamItem::Pending => panic!("stream item is there"),
            StreamItem::End => panic!("stream still open"),
        }
    }
}

fn text_update(update_id: i64, message_id: i64, body: &str) -> serde_json::Value {
    serde_json::from_str(&format!(
        r#"{{
            "update_id": {update_id},
            "message": {{
                "message_id": {message_id},
                "date": 1700000000,
                "chat": {{"id": -100, "type": "group", "title": "Ops"}},
                "from": {{"id": 7, "is_bot": false, "first_name": "Shiv"}},
                "text": "{body}"
            }}
        }}"#
    ))
    .expect("update JSON")
}

fn test_settings(retry_budget: u32) -> RealtimeSettings {
    RealtimeSettings { retry_budget, long_poll_timeout_seconds: 1 }
}

#[test]
fn subscription_requires_an_audit_sink() {
    let error = check_ready(false, None).expect_err("subscription without audit sink is rejected");
    assert!(matches!(
        error,
        IrisError::RealtimeUnavailable { ref provider, .. } if provider == "telegram"
    ));
    assert!(check_ready(true, None).is_ok());
}

#[test]
fn settings_reject_zero_values() {
    assert!(RealtimeSettings { retry_budget: 0, long_poll_timeout_seconds: 30 }
        .validate()
        .is_err());
    assert!(RealtimeSettings { retry_budget: 3, long_poll_timeout_seconds: 0 }
        .validate()
        .is_err());
    assert!(RealtimeSettings::default().validate().is_ok());
}

#[test]
fn invalid_realtime_settings_return_config_error_not_panic() {
    let settings = RealtimeSettings { retry_budget: 0, long_poll_timeout_seconds: 30 };
    let error =
        check_ready(true, Some(settings)).expect_err("invalid settings rejected with Config error");
    assert!(
        matches!(error, IrisError::Config(ref message) if message.contains("realtime")),
        "unexpected error: {error:?}"
    );
    assert!(RealtimeHub::new(settings).is_err());
}

#[test]
fn multiple_subscribers_share_one_poller_and_preserve_order() {
    let mut driver = Driver::new(test_settings(3));
    let (a, started) = driver.hub.subscribe();
    assert!(started, "the first subscriber starts a poller");
    let (b, started) = driver.hub.subscribe();
    assert!(!started, "the second one shares it");
    assert_eq!(driver.hub.subscriber_count(), 2);
    assert!(driver.hub.is_poller_running());

    let next = driver.round(200, &[text_update(100, 1, "one"), text_update(101, 2, "two")]);
    assert_eq!(next, PollerNext::Poll);
    for id in [a, b] {
        assert_eq!(driver.next(id).expect("first message").body, "one");
        assert_eq!(driver.next(id).expect("second message").body, "two");
    }
    assert_eq!(driver.hub.cursor(), 102);

    driver.hub.shutdown();
    assert!(!driver.hub.is_poller_running());
}

#[test]
fn overflow_terminates_only_the_slow_subscriber() {
    let mut driver = Driver::new(test_settings(3));
    let (slow, _) = driver.hub.subscribe();
    let (healthy, _) = driver.hub.subscribe();
    let mut collected = Vec::new();
    for batch in 0..10 {
        let updates: Vec<serde_json::Value> = (1..=13)
            .map(|n| {
                let id = batch * 13 + n;
                text_update(id, id, "burst")
            })
            .collect();
        driver.round(200, &updates);
        // The healthy subscriber drains while batches arrive.
        for _ in 0..13 {
            match driver.next(healthy) {
                Ok(message) => collected.push(message.source_id),
                Err(error) => panic!("healthy subscriber must stay healthy: {error:?}"),
            }
        }
    }
    let ordered: Vec<_> = (1..=130).map(|id| id.to_string()).collect();
    assert_eq!(collected, ordered, "healthy subscriber sees all updates in order");
    // The slow subscriber was removed once its queue filled.
    assert_eq!(driver.hub.subscriber_count(), 1);

    // The slow subscriber's stream: the accepted messages, then SlowConsumer before ending.
    let mut seen = 0;
    loop {
        match driver.hub.next_item(slow) {
            StreamItem::Item(Ok(_)) => {
                seen += 1;
                assert!(seen <= 128, "slow queue cannot exceed 128");
            }
            StreamItem::Item(Err(error)) => {
                assert!(matches!(error, IrisError::SlowConsumer));
                break;
            }
            StreamItem::End => panic!("slow stream ended without SlowConsumer"),
            StreamItem::Pending => panic!("the slow terminal is there"),
        }
    }
    assert_eq!(seen, SUBSCRIBER_QUEUE_CAPACITY);
    assert!(
        matches!(driver.hub.next_item(slow), StreamItem::End),
        "stream ends after terminal"
    );
    assert_eq!(driver.hub.cursor(), 131);
    driver.hub.shutdown();
}

#[test]
fn last_disconnect_stops_poller_and_resubscription_restarts_from_cursor() {
    let mut driver = Driver::new(test_settings(3));
    let (first, _) = driver.hub.subscribe();
    driver.round(200, &[text_update(100, 1, "one"), text_update(101, 2, "two")]);
    assert_eq!(driver.next(first).expect("message").body, "one");
    assert_eq!(driver.next(first).expect("message").body, "two");
    driver.hub.disconnect(first);

    assert_eq!(driver.round(200, &[]), PollerNext::Stop);
    assert!(!driver.hub.is_poller_running(), "poller stops after last disconnect");
    assert_eq!(driver.hub.cursor(), 102);

    // A later subscription starts a fresh poller from the cursor and receives only events accepted
    // after it joined.
    let (second, started) = driver.hub.subscribe();
    assert!(started);
    assert_eq!(driver.asked_offset(), Some(102));
    assert_eq!(
        realtime_query(102, 1)[0],
        ("offset".to_owned(), "102".to_owned())
    );
    driver.round(200, &[text_update(200, 3, "three")]);
    assert_eq!(driver.next(second).expect("late message").body, "three");
    assert_eq!(driver.hub.cursor(), 201);
    driver.hub.shutdown();
}

#[test]
fn shutdown_cancels_in_flight_long_poll_promptly() {
    let mut driver = Driver::new(test_settings(3));
    let (id, _) = driver.hub.subscribe();
    assert_eq!(driver.asked_offset(), Some(0), "long poll issued");

    driver.hub.shutdown();
    assert!(driver.hub.is_cancelled());
    assert!(!driver.hub.is_poller_running());
    assert!(
        matches!(driver.hub.next_item(id), StreamItem::End),
        "stream ends on shutdown"
    );
    let (poller, _) = driver.at.take().unwrap();
    let (_, action) = poller.step(&mut driver.hub, PollerEvent::Cancelled);
    assert!(matches!(action, PollerAction::Stop));
    assert_eq!(
        driver.hub.handle_poll_error(IrisError::Transport("late".into()), &mut 0),
        PollerNext::Stop
    );

    // Idempotent.
    driver.hub.shutdown();
    assert!(!driver.hub.is_poller_running());
}

#[test]
fn poison_updates_are_audited_and_acknowledged_without_fan_out() {
    let mut driver = Driver::new(test_settings(3));
    let (id, _) = driver.hub.subscribe();
    let poison = |text: &str| serde_json::from_str::<serde_json::Value>(text).unwrap();
    driver.round(
        200,
        &[
            // Invalid: `message` present but not decodable.
            poison(r#"{"update_id": 3, "message": "not-an-object"}"#),
            // Ignored: no message shape at all.
            poison(r#"{"update_id": 4, "callback_query": {"id": "cb"}}"#),
            // Real message.
            text_update(5, 9, "real"),
        ],
    );
    assert_eq!(driver.next(id).expect("only the real message").body, "real");
    assert!(matches!(driver.hub.next_item(id), StreamItem::Pending));
    // All three updates acknowledged: offset past the highest ID.
    assert_eq!(driver.hub.cursor(), 6);
    assert_eq!(
        driver.audit.event_kinds("3"),
        vec!["invalid_update".to_owned()],
        "invalid update audited exactly once"
    );
    assert_eq!(
        driver.audit.event_kinds("4"),
        vec!["ignored_update".to_owned()],
        "ignored update audited exactly once"
    );
    assert_eq!(
        driver.audit.event_kinds("5"),
        vec!["message".to_owned()],
        "real update audited exactly once"
    );
}

#[test]
fn audit_idempotency_fans_out_without_second_record() {
    let mut driver = Driver::new(test_settings(3));
    let (id, _) = driver.hub.subscribe();
    // First poll: Inserted + fan-out.
    driver.round(200, &[text_update(100, 1, "one")]);
    assert_eq!(driver.next(id).expect("first").body, "one");
    // Second poll returns the same update: AlreadyRecorded, but fan-out still proceeds.
    driver.round(200, &[text_update(100, 1, "one")]);
    assert_eq!(driver.next(id).expect("second").body, "one");
    assert_eq!(
        driver.audit.event_kinds("100"),
        vec!["message".to_owned()],
        "record_once deduplicates the audit entry"
    );
}

#[test]
fn http_409_is_terminal_to_every_subscriber_without_advancing() {
    let mut driver = Driver::new(test_settings(3));
    let (a, _) = driver.hub.subscribe();
    let (b, _) = driver.hub.subscribe();
    assert_eq!(driver.round(409, &[]), PollerNext::Stop);
    for id in [a, b] {
        let error = driver.next(id).expect_err("terminal error");
        assert!(
            error.describe().contains("409"),
            "error should mention HTTP 409: {error:?}"
        );
        assert!(matches!(driver.hub.next_item(id), StreamItem::End));
    }
    assert_eq!(driver.hub.cursor(), 0, "409 must not advance the offset");
    assert!(!driver.hub.is_poller_running());
}

#[test]
fn audit_write_failure_is_terminal_without_advancing() {
    let mut driver = Driver::new(test_settings(3));
    driver.audit.fail = true;
    let (id, _) = driver.hub.subscribe();
    driver.round(200, &[text_update(100, 1, "one")]);
    let error = driver.next(id).expect_err("terminal error");
    assert!(error.describe().contains("audit write failed"));
    assert_eq!(driver.hub.cursor(), 0, "audit failure must not advance the offset");
    assert_eq!(driver.hub.subscriber_count(), 0);
    assert!(!driver.hub.is_poller_running());
}

#[test]
fn attachment_storage_failure_is_terminal_without_advancing() {
    let mut driver = Driver::new(test_settings(3));
    driver.storage = Err(IrisError::Storage("disk full".into()));
    let (id, _) = driver.hub.subscribe();
    let photo: serde_json::Value = serde_json::from_str(
        r#"{
            "update_id": 50,
            "message": {
                "message_id": 9,
                "date": 1700000000,
                "chat": {"id": -100, "type": "group", "title": "Ops"},
                "photo": [{"file_id": "p1", "file_unique_id": "u1", "width": 1, "height": 1}]
            }
        }"#,
    )
    .unwrap();
    driver.round(200, &[photo.clone()]);
    let error = driver.next(id).expect_err("terminal error");
    assert!(error.describe().contains("disk full"));
    assert_eq!(driver.hub.cursor(), 0, "storage failure must not advance the offset");
    assert!(!driver.hub.is_poller_running());
    // A failure that is none of the backend keeps the attachment as it is.
    driver.storage = Err(IrisError::Transport("expired".into()));
    let (id, _) = driver.hub.subscribe();
    driver.round(200, &[photo]);
    let message = driver.next(id).expect("message");
    assert_eq!(message.attachments[0].url, "telegram:file_id:p1");
}

#[test]
fn transient_500s_exhaust_the_retry_budget() {
    let mut driver = Driver::new(test_settings(2));
    let (id, _) = driver.hub.subscribe();
    assert_eq!(driver.round(500, &[]), PollerNext::Sleep(retry_delay(0)));
    assert_eq!(driver.round(500, &[]), PollerNext::Sleep(retry_delay(1)));
    assert_eq!(driver.round(500, &[]), PollerNext::Stop);
    match driver.next(id).expect_err("terminal error") {
        IrisError::RealtimeRetryExhausted { attempts, last_error } => {
            assert_eq!(attempts, 2);
            assert!(last_error.contains("500"));
        }
        other => panic!("expected retry exhaustion, got: {other:?}"),
    }
    assert_eq!(driver.hub.cursor(), 0);
    assert!(!driver.hub.is_poller_running());
}

#[test]
fn missing_update_id_is_transient_and_retries() {
    let mut driver = Driver::new(test_settings(3));
    driver.hub.subscribe();
    let broken: serde_json::Value = serde_json::from_str(r#"{"foo": "no update id"}"#).unwrap();
    assert_eq!(driver.round(200, &[broken]), PollerNext::Sleep(retry_delay(0)));
    assert_eq!(driver.round(200, &[]), PollerNext::Poll);
    assert!(driver.hub.is_poller_running(), "poller recovers after retry");
    assert_eq!(driver.hub.subscriber_count(), 1);
    assert_eq!(driver.audit.trail.entries.len(), 0);
    assert_eq!(driver.round(503, &[]), PollerNext::Sleep(retry_delay(0)), "retries start anew");
}

#[test]
fn only_some_errors_are_transient() {
    assert_eq!(classify_transient(&IrisError::Transport("x".into())).as_deref(), Some("x"));
    assert_eq!(classify_transient(&IrisError::Serialization("y".into())).as_deref(), Some("y"));
    assert!(classify_transient(&IrisError::Storage("z".into())).is_none());
    assert!(matches!(check_status(429, "429 Too Many Requests"), Err(IrisError::Transport(_))));
    assert!(matches!(check_status(503, "503"), Err(IrisError::Transport(_))));
    assert!(matches!(check_status(404, "404"), Err(IrisError::Provider { .. })));
    assert!(check_status(204, "204").is_ok());
}

#[test]
fn delays_double_up_to_a_bound() {
    let delays: Vec<u64> = (0..8).map(retry_delay).collect();
    assert!(delays.windows(2).all(|pair| pair[0] <= pair[1]), "{delays:?}");
    assert_eq!(delays[1], delays[0] * 2);
    assert_eq!(retry_delay(40), retry_delay(30));
}

#[test]
fn history_keeps_the_latest_messages() {
    let mut driver = Driver::new(test_settings(3));
    let (id, _) = driver.hub.subscribe();
    for n in 1..=(HISTORY_CAPACITY as i64 + 3) {
        driver.round(200, &[text_update(n, n, "x")]);
        driver.next(id).expect("message");
    }
    assert_eq!(driver.hub.history().len(), HISTORY_CAPACITY);
    assert_eq!(driver.hub.history()[0].update_id, 4);
}

#[test]
fn the_update_id_must_be_a_number() {
    assert!(required_update_id(&json(r#"{"update_id": 7}"#)).is_ok());
    assert!(matches!(
        required_update_id(&json(r#"{"update_id": "7"}"#)),
        Err(ProcessError::Transient(_))
    ));
    assert_ne!(json("1"), Json::Number(JsonNumber::Unsigned(2)));
}

#[test]
fn attachments_reach_every_subscriber_under_the_same_ids() {
    let update = serde_json::from_str::<serde_json::Value>(
        r#"{"message_id":7,"date":1700000000,"chat":{"id":1,"type":"private"},"photo":[{"file_id":"f","file_unique_id":"u","width":1,"height":1}]}"#,
    )
    .expect("JSON text");
    let message = message_of(&update).expect("a message").to_message();
    assert_eq!(message.attachments.len(), 1);
    let mut hub = RealtimeHub::new(RealtimeSettings::default()).expect("a hub");
    let (first, _) = hub.subscribe();
    let (second, _) = hub.subscribe();
    let snapshot = hub.subscriber_snapshot();
    hub.fan_out(&snapshot, &message);
    for id in [first, second] {
        match hub.next_item(id) {
            StreamItem::Item(Ok(received)) => assert_eq!(received.attachments, message.attachments),
            _ => panic!("the message must be there"),
        }
    }
}
