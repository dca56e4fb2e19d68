//! Mock provider for testing and development.
//!
//! Returns canned data. Useful for local development without real credentials.

use vstd::prelude::*;
use crate::audit::{operation_event, AuditAction, AuditEvent, AuditEventView};
use crate::error::{prefixed, IrisError};
use crate::ids::Uuid;
use crate::json::{
    json_array, json_number, json_object, json_text, member, member_views, Json, JsonNumberView,
    JsonView,
};
use crate::listing::{allowed, first_items, keep_first, lemma_first_views};
use crate::model::{
    randomly_named, Attachment, AttachmentView, Contact, ContactView, Message, MessageKind,
    MessageView, Thread, ThreadView,
};
use crate::outbound::{
    audit_summaries, enforce_capability, resolve_attachments, resolved_all, store_answers,
    summaries_of, OutboundMessage, ResolvedAttachment, StoredContents,
};
use crate::provider::{ProviderCapability, ProviderMetadata};
use crate::storage::ContentView;
use crate::text::{copy_opt, views};
use crate::time::Timestamp;

verus! {

/// Static metadata about the provider.
pub fn metadata() -> (r: ProviderMetadata)
    ensures
        r.id@ == "mock"@,
        r.name@ == "Mock Provider"@,
        r.capabilities@ == seq![
            ProviderCapability::ListMessages,
            ProviderCapability::SendMessages,
            ProviderCapability::SendAttachments,
            ProviderCapability::ListThreads,
            ProviderCapability::ListContacts,
        ],
{
    let capabilities: &'static [ProviderCapability] = &[
        ProviderCapability::ListMessages,
        ProviderCapability::SendMessages,
        ProviderCapability::SendAttachments,
        ProviderCapability::ListThreads,
        ProviderCapability::ListContacts,
    ];
    assert(capabilities@ =~= seq![
        ProviderCapability::ListMessages,
        ProviderCapability::SendMessages,
        ProviderCapability::SendAttachments,
        ProviderCapability::ListThreads,
        ProviderCapability::ListContacts,
    ]);
    ProviderMetadata { id: "mock", name: "Mock Provider", capabilities }
}

/// A deterministic record of one outbound send, for round-trip tests.
#[derive(Debug, PartialEq, Eq)]
pub struct RecordedSend {
    /// The thread the message was sent to.
    pub thread_id: String,
    /// The message body text.
    pub body: String,
    /// Resolved attachments in dispatch order.
    pub attachments: Vec<ResolvedAttachment>,
}

/// The mathematical value of a recorded send.
#[verifier::ext_equal]
pub struct SendView {
    pub thread_id: Seq<char>,
    pub body: Seq<char>,
    pub attachments: Seq<ContentView>,
}

impl View for RecordedSend {
    type V = SendView;

    open spec fn view(&self) -> SendView {
        SendView {
            thread_id: self.thread_id@,
            body: self.body@,
            attachments: views(self.attachments@),
        }
    }
}

/// A simple mock provider that returns static test data and remembers what is sent.
#[derive(Debug)]
pub struct MockProvider {
    sends: Vec<RecordedSend>,
}

impl View for MockProvider {
    type V = Seq<SendView>;

    closed spec fn view(&self) -> Seq<SendView> {
        views(self.sends@)
    }
}

/// A contact of the mock.
pub open spec fn mock_contact(id: Uuid, source_id: Seq<char>, name: Seq<char>) -> ContactView {
    ContactView {
        id,
        source: "mock"@,
        source_id,
        provider_instance: None,
        display_name: Some(name),
        avatar_url: None,
        metadata: JsonView::Null,
    }
}

/// The thread of the mock.
pub open spec fn mock_thread(id: Uuid, now: Timestamp) -> ThreadView {
    ThreadView {
        id,
        source: "mock"@,
        source_id: "thread-1"@,
        provider_instance: None,
        title: Some("Test Conversation"@),
        participants: Seq::<ContactView>::empty(),
        last_message_at: now,
        unread_count: Some(0),
        metadata: JsonView::Null,
    }
}

/// The identifiers of a new message.
#[derive(Clone, Copy, Debug, PartialEq, Eq, Structural)]
pub struct MessageIds {
    pub message: Uuid,
    pub thread: Uuid,
    pub sender: Uuid,
}

/// The message that the mock holds in any thread.
pub open spec fn mock_message(thread_id: Seq<char>, ids: MessageIds, now: Timestamp) -> MessageView {
    MessageView {
        id: ids.message,
        thread_id: ids.thread,
        source: "mock"@,
        source_id: thread_id + "-msg-1"@,
        sender: mock_contact(ids.sender, "user-1"@, "Test User"@),
        kind: MessageKind::Text,
        body: "Hello from the mock provider!"@,
        attachments: Seq::<AttachmentView>::empty(),
        timestamp: now,
        is_outbound: false,
        metadata: JsonView::Null,
    }
}

/// The attachments of a sent message.
pub open spec fn sent_attachments(resolved: Seq<ContentView>) -> Seq<AttachmentView> {
    resolved.map_values(
        |content: ContentView|
            AttachmentView {
                mime_type: content.mime_type,
                url: seq![],
                filename: content.filename,
                size: Some(content.bytes.len() as u64),
            },
    )
}

/// The message that is sent.
pub open spec fn mock_sent(
    thread_id: Seq<char>,
    body: Seq<char>,
    resolved: Seq<ContentView>,
    ids: MessageIds,
    now: Timestamp,
) -> MessageView {
    MessageView {
        id: ids.message,
        thread_id: ids.thread,
        source: "mock"@,
        source_id: thread_id + "-sent"@,
        sender: mock_contact(ids.sender, "self"@, "You"@),
        kind: MessageKind::Text,
        body,
        attachments: sent_attachments(resolved),
        timestamp: now,
        is_outbound: true,
        metadata: JsonView::Null,
    }
}

/// The audit event of a send.
pub open spec fn send_event(thread_id: Seq<char>, resolved: Seq<ContentView>, now: Timestamp) -> AuditEventView {
    AuditEventView {
        action: AuditAction::Send,
        provider: "mock"@,
        source_id: Some(thread_id),
        timestamp: now,
        metadata: JsonView::Object(
            seq![
                (
                    "attachment_count"@,
                    JsonView::Number(JsonNumberView::Unsigned(resolved.len() as u64)),
                ),
                ("attachments"@, JsonView::Array(summaries_of(resolved))),
                ("message_id"@, JsonView::Text(thread_id + "-sent"@)),
                ("operation"@, JsonView::Text("send_message"@)),
            ],
        ),
    }
}

fn contact(id: Uuid, source_id: &str, name: &str) -> (r: Contact)
    ensures
        r@ == mock_contact(id, source_id@, name@),
{
    Contact {
        id,
        source: "mock".to_owned(),
        source_id: source_id.to_owned(),
        provider_instance: None,
        display_name: Some(name.to_owned()),
        avatar_url: None,
        metadata: Json::Null,
    }
}

fn attachments_of(resolved: &Vec<ResolvedAttachment>) -> (r: Vec<Attachment>)
    ensures
        views(r@) == sent_attachments(views(resolved@)),
        randomly_named(r@),
{
    let mut out: Vec<Attachment> = Vec::new();
    let mut i: usize = 0;
    while i < resolved.len()
        invariant
            i <= resolved@.len(),
            out@.len() == i,
            forall|j: int|
                0 <= j < i ==> (#[trigger] out@[j])@ == sent_attachments(views(resolved@))[j],
            randomly_named(out@),
        decreases resolved@.len() - i,
    {
        let url = String::new();
        assert(url@ =~= seq![]);
        out.push(
            Attachment {
                id: Uuid::fresh(),
                mime_type: resolved[i].mime_type.clone(),
                url,
                filename: copy_opt(&resolved[i].filename),
                size: Some(resolved[i].bytes.len() as u64),
            },
        );
        i += 1;
    }
    assert(views(out@) =~= sent_attachments(views(resolved@)));
    out
}

impl MockProvider {
    /// Creates a mock provider that has sent nothing.
    pub fn new() -> (r: MockProvider)
        ensures
            r@ == Seq::<SendView>::empty(),
    {
        let sends: Vec<RecordedSend> = Vec::new();
        assert(views(sends@) =~= Seq::<SendView>::empty());
        MockProvider { sends }
    }

    /// All outbound sends recorded so far, in send order.
    pub fn recorded_sends(&self) -> (r: &Vec<RecordedSend>)
        ensures
            views(r@) == self@,
    {
        &self.sends
    }

    /// The one thread of the mock, as far as the limit allows it.
    pub fn list_threads(&self, id: Uuid, now: Timestamp, limit: Option<u32>) -> (r: Vec<Thread>)
        ensures
            views(r@) == first_items(seq![mock_thread(id, now)], allowed(limit)),
    {
        let participants: Vec<Contact> = Vec::new();
        assert(views(participants@) =~= Seq::<ContactView>::empty());
        let mut threads: Vec<Thread> = Vec::new();
        threads.push(
            Thread {
                id,
                source: "mock".to_owned(),
                source_id: "thread-1".to_owned(),
                provider_instance: None,
                title: Some("Test Conversation".to_owned()),
                participants,
                last_message_at: now,
                unread_count: Some(0),
                metadata: Json::Null,
            },
        );
        proof {
            assert(views(threads@) =~= seq![mock_thread(id, now)]);
            lemma_first_views(threads@, allowed(limit));
        }
        keep_first(threads, limit)
    }

    /// The one message of a thread, as far as the limit allows it.
    pub fn list_messages(&self, thread_id: &str, ids: MessageIds, now: Timestamp, limit: Option<u32>) -> (r:
        Vec<Message>)
        ensures
            views(r@) == first_items(seq![mock_message(thread_id@, ids, now)], allowed(limit)),
    {
        let attachments: Vec<Attachment> = Vec::new();
        assert(views(attachments@) =~= Seq::<AttachmentView>::empty());
        let mut messages: Vec<Message> = Vec::new();
        messages.push(
            Message {
                id: ids.message,
                thread_id: ids.thread,
                source: "mock".to_owned(),
                source_id: prefixed(thread_id, "-msg-1"),
                sender: contact(ids.sender, "user-1", "Test User"),
                kind: MessageKind::Text,
                body: "Hello from the mock provider!".to_owned(),
                attachments,
                timestamp: now,
                is_outbound: false,
                metadata: Json::Null,
            },
        );
        proof {
            assert(views(messages@) =~= seq![mock_message(thread_id@, ids, now)]);
            lemma_first_views(messages@, allowed(limit));
        }
        keep_first(messages, limit)
    }

    /// The one contact of the mock, whatever the limit.
    pub fn list_contacts(&self, id: Uuid) -> (r: Vec<Contact>)
        ensures
            views(r@) == seq![mock_contact(id, "user-1"@, "Test User"@)],
    {
        let mut contacts: Vec<Contact> = Vec::new();
        contacts.push(contact(id, "user-1", "Test User"));
        assert(views(contacts@) =~= seq![mock_contact(id, "user-1"@, "Test User"@)]);
        contacts
    }

    /// Sends a message: resolves its attachments, records it, and returns the sent message with the
    /// audit event of the send. Where an attachment cannot be resolved nothing is recorded.
    pub fn send_message(
        &mut self,
        thread_id: &str,
        message: &OutboundMessage,
        store: Option<&StoredContents>,
        ids: MessageIds,
        now: Timestamp,
    ) -> (r: Result<(Message, AuditEvent), IrisError>)
        ensures
            match resolved_all(views(message.attachments@), store_answers(store)) {
                Ok(resolved) => {
                    &&& r is Ok
                    &&& r->Ok_0.0@ == mock_sent(thread_id@, message.body@, resolved, ids, now)
                    &&& randomly_named(r->Ok_0.0.attachments@)
                    &&& r->Ok_0.1@ == send_event(thread_id@, resolved, now)
                    &&& final(self)@ == old(self)@.push(
                        SendView { thread_id: thread_id@, body: message.body@, attachments: resolved },
                    )
                },
                Err(error) => r is Err && r->Err_0@ == error && final(self)@ == old(self)@,
            },
    {
        if let Err(error) = enforce_capability(message, "mock", true) {
            return Err(error);
        }
        let resolved = match resolve_attachments(message, store) {
            Ok(resolved) => resolved,
            Err(error) => {
                return Err(error);
            },
        };
        let ghost contents = views(resolved@);
        let sent = Message {
            id: ids.message,
            thread_id: ids.thread,
            source: "mock".to_owned(),
            source_id: prefixed(thread_id, "-sent"),
            sender: contact(ids.sender, "self", "You"),
            kind: MessageKind::Text,
            body: message.body.clone(),
            attachments: attachments_of(&resolved),
            timestamp: now,
            is_outbound: true,
            metadata: Json::Null,
        };
        let mut members: Vec<(String, Json)> = Vec::new();
        members.push(member("attachment_count", json_number(resolved.len() as u64)));
        members.push(member("attachments", json_array(audit_summaries(&resolved))));
        members.push(member("message_id", json_text(sent.source_id.as_str())));
        members.push(member("operation", json_text("send_message")));
        assert(member_views(members@) =~= send_event(thread_id@, contents, now).metadata->Object_0);
        let event = operation_event(
            AuditAction::Send,
            "mock",
            Some(thread_id),
            now,
            json_object(members),
        );
        let ghost known = self.sends@;
        let record = RecordedSend {
            thread_id: thread_id.to_owned(),
            body: message.body.clone(),
            attachments: resolved,
        };
        let ghost added = record@;
        self.sends.push(record);
        assert(views(self.sends@) =~= views(known).push(added));
        Ok((sent, event))
    }
}

impl Default for MockProvider {
    fn default() -> (r: MockProvider)
        ensures
            r@ == Seq::<SendView>::empty(),
    {
        MockProvider::new()
    }
}

/// The audit event of a send tells nothing of the body, and of the attachments only their shape.
pub proof fn law_send_audit_is_content_free(
    thread_id: Seq<char>,
    first: Seq<ContentView>,
    second: Seq<ContentView>,
    now: Timestamp,
)
    requires
        first.len() == second.len(),
        forall|i: int|
            0 <= i < first.len() ==> (#[trigger] first[i]).mime_type == second[i].mime_type
                && first[i].filename == second[i].filename && first[i].bytes.len()
                == second[i].bytes.len(),
    ensures
        send_event(thread_id, first, now) == send_event(thread_id, second, now),
{
    assert(summaries_of(first) =~= summaries_of(second));
}

/// What is sent goes out from the owner with its body and one attachment for each content, of its
/// type, name and size.
pub proof fn law_sent_messages_hold_what_was_sent(
    thread_id: Seq<char>,
    body: Seq<char>,
    resolved: Seq<ContentView>,
    ids: MessageIds,
    now: Timestamp,
)
    ensures
        ({
            let m = mock_sent(thread_id, body, resolved, ids, now);
            &&& m.id == ids.message && m.thread_id == ids.thread && m.sender.id == ids.sender
            &&& m.source == "mock"@ && m.sender.source == "mock"@
            &&& m.source_id == thread_id + "-sent"@
            &&& m.sender.source_id == "self"@
            &&& m.sender.display_name == Some("You"@)
            &&& m.kind == MessageKind::Text
            &&& m.body == body
            &&& m.timestamp == now
            &&& m.is_outbound
            &&& m.attachments.len() == resolved.len()
            &&& forall|i: int|
                0 <= i < resolved.len() ==> {
                    let a = #[trigger] m.attachments[i];
                    &&& a.mime_type == resolved[i].mime_type
                    &&& a.filename == resolved[i].filename
                    &&& a.size == Some(resolved[i].bytes.len() as u64)
                    &&& a.url.len() == 0
                }
        }),
{
}

/// A send is recorded for its thread at its time, with the message it made and the summaries of
/// what it attached.
pub proof fn law_sends_are_recorded(
    thread_id: Seq<char>,
    resolved: Seq<ContentView>,
    now: Timestamp,
)
    ensures
        ({
            let e = send_event(thread_id, resolved, now);
            let members = e.metadata->Object_0;
            &&& e.action == AuditAction::Send
            &&& e.provider == "mock"@
            &&& e.source_id == Some(thread_id)
            &&& e.timestamp == now
            &&& e.metadata is Object && members.len() == 4
            &&& members[0] == (
                "attachment_count"@,
                JsonView::Number(JsonNumberView::Unsigned(resolved.len() as u64)),
            )
            &&& members[1] == ("attachments"@, JsonView::Array(summaries_of(resolved)))
            &&& members[2] == ("message_id"@, JsonView::Text(thread_id + "-sent"@))
            &&& members[3] == ("operation"@, JsonView::Text("send_message"@))
        }),
{
}

/// The messages that are read come in from another user, into the thread that was asked for.
pub proof fn law_read_messages_come_in(thread_id: Seq<char>, ids: MessageIds, now: Timestamp)
    ensures
        ({
            let m = mock_message(thread_id, ids, now);
            &&& m.id == ids.message && m.thread_id == ids.thread && m.sender.id == ids.sender
            &&& m.source_id == thread_id + "-msg-1"@
            &&& m.sender.source_id == "user-1"@
            &&& !m.is_outbound
            &&& m.timestamp == now
            &&& m.attachments.len() == 0
            &&& m.kind == MessageKind::Text
        }),
        mock_thread(ids.thread, now).id == ids.thread,
        mock_thread(ids.thread, now).last_message_at == now,
        mock_thread(ids.thread, now).unread_count == Some(0u32),
{
}

/// The contacts and threads of the mock are what they are called.
pub proof fn law_mock_data_is_canned(id: Uuid, source_id: Seq<char>, name: Seq<char>, now: Timestamp)
    ensures
        mock_contact(id, source_id, name).id == id,
        mock_contact(id, source_id, name).source == "mock"@,
        mock_contact(id, source_id, name).source_id == source_id,
        mock_contact(id, source_id, name).display_name == Some(name),
        mock_thread(id, now).source == "mock"@,
        mock_thread(id, now).source_id == "thread-1"@,
        mock_thread(id, now).title == Some("Test Conversation"@),
        mock_thread(id, now).participants.len() == 0,
{
}

} // verus!
