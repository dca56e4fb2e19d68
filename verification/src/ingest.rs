//! Source-agnostic transactional ingest contract.
//!
//! An ingest backend durably applies a batch of already-normalized Iris mutations. A batch is
//! identified by a hash of its canonical JSON, which leaves the replay key out: a caller reusing a
//! key with different content must be detected as a replay conflict.

use vstd::prelude::*;
use crate::audit::{
    event_view, id_view, json_id, json_time, lemma_event_is_sound, time_view, AuditEvent,
    AuditEventView,
};
use crate::digest::{sha256, sha256_hex};
use crate::error::IrisError;
use crate::ids::uuid_text;
use crate::json::{
    by_key, canonical, canonical_items, canonical_members, json_array, json_number, json_object,
    json_opt_text, json_text, lemma_by_key_order, member, member_views, opt_text_view, rendered,
    sorted_members, Json, JsonNumberView, JsonView,
};
use crate::model::{
    law_kinds_have_names_of_their_own, Attachment, AttachmentView, Contact, ContactView, Message,
    MessageView, Thread, ThreadView,
};
use crate::order::{in_order, lemma_sorted_by, lemma_text_trichotomy};
use crate::rendering::{
    distinct_names, law_the_canonical_text_tells_the_canonical_form, lemma_members_agree, sound,
};
use crate::text::{str_eq, view_opt, views};
use crate::time::Timestamp;

verus! {

/// One normalized write performed by an ingest batch.
#[derive(Debug, PartialEq, Eq)]
pub enum IngestMutation {
    /// Insert or replace a contact by its stable Iris ID.
    UpsertContact(Contact),
    /// Insert or replace a thread by its stable Iris ID.
    UpsertThread(Thread),
    /// Mark a source-backed thread archived without deleting its history.
    ArchiveThread { source: String, source_id: String },
    /// Append a normalized message. Replays are controlled by the batch key.
    AppendMessage(Message),
}

/// The mathematical value of a mutation.
#[verifier::ext_equal]
pub enum IngestMutationView {
    UpsertContact(ContactView),
    UpsertThread(ThreadView),
    ArchiveThread { source: Seq<char>, source_id: Seq<char> },
    AppendMessage(MessageView),
}

impl View for IngestMutation {
    type V = IngestMutationView;

    open spec fn view(&self) -> IngestMutationView {
        match *self {
            IngestMutation::UpsertContact(contact) => IngestMutationView::UpsertContact(contact@),
            IngestMutation::UpsertThread(thread) => IngestMutationView::UpsertThread(thread@),
            IngestMutation::ArchiveThread { source, source_id } => {
                IngestMutationView::ArchiveThread { source: source@, source_id: source_id@ }
            },
            IngestMutation::AppendMessage(message) => IngestMutationView::AppendMessage(message@),
        }
    }
}

/// A source cursor committed only when the complete batch commits.
#[derive(Debug, PartialEq, Eq)]
pub struct IngestCursor {
    /// Source namespace which owns this cursor.
    pub source: String,
    /// Opaque, source-defined cursor value.
    pub value: String,
}

/// The mathematical value of a cursor.
#[verifier::ext_equal]
pub struct IngestCursorView {
    pub source: Seq<char>,
    pub value: Seq<char>,
}

impl View for IngestCursor {
    type V = IngestCursorView;

    open spec fn view(&self) -> IngestCursorView {
        IngestCursorView { source: self.source@, value: self.value@ }
    }
}

/// A fully normalized, source-scoped batch ready for durable ingestion.
#[derive(Debug, PartialEq, Eq)]
pub struct IngestBatch {
    /// Source namespace, for example `herdr`.
    pub source: String,
    /// Stable bridge-owned key identifying this replayable delivery.
    pub replay_key: String,
    /// Ordered normalized mutations. Order is part of the canonical hash.
    pub mutations: Vec<IngestMutation>,
    /// Cursor to commit with the mutations, if the source provides one.
    pub cursor: Option<IngestCursor>,
    /// Optional audit event to commit with the normalized writes.
    pub audit: Option<AuditEvent>,
}

/// The mathematical value of a batch.
#[verifier::ext_equal]
pub struct IngestBatchView {
    pub source: Seq<char>,
    pub replay_key: Seq<char>,
    pub mutations: Seq<IngestMutationView>,
    pub cursor: Option<IngestCursorView>,
    pub audit: Option<AuditEventView>,
}

impl View for IngestBatch {
    type V = IngestBatchView;

    open spec fn view(&self) -> IngestBatchView {
        IngestBatchView {
            source: self.source@,
            replay_key: self.replay_key@,
            mutations: views(self.mutations@),
            cursor: view_opt(self.cursor),
            audit: view_opt(self.audit),
        }
    }
}

/// Result of applying a replayable batch.
#[derive(Clone, Copy, Debug, PartialEq, Eq, Structural)]
pub enum IngestOutcome {
    /// The batch was durably committed at this time.
    Applied { committed_at: Timestamp },
    /// The same replay key and canonical batch hash were already committed.
    AlreadyApplied { committed_at: Timestamp },
    /// The replay key exists but belongs to a different canonical batch hash.
    ReplayConflict,
}

/// The members of an object.
pub type Members = Seq<(Seq<char>, JsonView)>;

/// The member for the provider instance, where there is one.
pub open spec fn instance_members(instance: Option<Seq<char>>) -> Members {
    match instance {
        Some(id) => seq![("provider_instance"@, JsonView::Text(id))],
        None => seq![],
    }
}

/// The members of a contact's JSON.
pub open spec fn contact_members(contact: ContactView) -> Members {
    instance_members(contact.provider_instance) + seq![
        ("id"@, id_view(contact.id)),
        ("source"@, JsonView::Text(contact.source)),
        ("source_id"@, JsonView::Text(contact.source_id)),
        ("display_name"@, opt_text_view(contact.display_name)),
        ("avatar_url"@, opt_text_view(contact.avatar_url)),
        ("metadata"@, contact.metadata),
    ]
}

/// The JSON of a contact.
pub open spec fn contact_view(contact: ContactView) -> JsonView {
    JsonView::Object(contact_members(contact))
}

/// The JSON of an optional number.
pub open spec fn opt_number_view(n: Option<u64>) -> JsonView {
    match n {
        Some(n) => JsonView::Number(JsonNumberView::Unsigned(n)),
        None => JsonView::Null,
    }
}

/// The JSON of an attachment.
pub open spec fn attachment_view(attachment: AttachmentView) -> JsonView {
    JsonView::Object(
        seq![
            ("mime_type"@, JsonView::Text(attachment.mime_type)),
            ("url"@, JsonView::Text(attachment.url)),
            ("filename"@, opt_text_view(attachment.filename)),
            ("size"@, opt_number_view(attachment.size)),
        ],
    )
}

/// The JSON of a message.
pub open spec fn message_view(message: MessageView) -> JsonView {
    JsonView::Object(
        seq![
            ("id"@, id_view(message.id)),
            ("thread_id"@, id_view(message.thread_id)),
            ("source"@, JsonView::Text(message.source)),
            ("source_id"@, JsonView::Text(message.source_id)),
            ("sender"@, contact_view(message.sender)),
            ("kind"@, JsonView::Text(message.kind.wire_name())),
            ("body"@, JsonView::Text(message.body)),
            (
                "attachments"@,
                JsonView::Array(
                    message.attachments.map_values(|item: AttachmentView| attachment_view(item)),
                ),
            ),
            ("timestamp"@, time_view(message.timestamp)),
            ("is_outbound"@, JsonView::Bool(message.is_outbound)),
            ("metadata"@, message.metadata),
        ],
    )
}

/// The JSON of an unread count.
pub open spec fn unread_view(unread: Option<u32>) -> JsonView {
    match unread {
        Some(n) => JsonView::Number(JsonNumberView::Unsigned(n as u64)),
        None => JsonView::Null,
    }
}

/// The members of a thread's JSON.
pub open spec fn thread_members(thread: ThreadView) -> Members {
    instance_members(thread.provider_instance) + seq![
        ("id"@, id_view(thread.id)),
        ("source"@, JsonView::Text(thread.source)),
        ("source_id"@, JsonView::Text(thread.source_id)),
        ("title"@, opt_text_view(thread.title)),
        (
            "participants"@,
            JsonView::Array(
                thread.participants.map_values(|contact: ContactView| contact_view(contact)),
            ),
        ),
        ("last_message_at"@, time_view(thread.last_message_at)),
        ("unread_count"@, unread_view(thread.unread_count)),
        ("metadata"@, thread.metadata),
    ]
}

/// The JSON of a thread.
pub open spec fn thread_view(thread: ThreadView) -> JsonView {
    JsonView::Object(thread_members(thread))
}

/// The JSON of a mutation, tagged by its `kind`. A message's own kind takes the place of the tag.
pub open spec fn mutation_view(mutation: IngestMutationView) -> JsonView {
    match mutation {
        IngestMutationView::UpsertContact(contact) => JsonView::Object(
            seq![("kind"@, JsonView::Text("upsert_contact"@))] + contact_members(contact),
        ),
        IngestMutationView::UpsertThread(thread) => JsonView::Object(
            seq![("kind"@, JsonView::Text("upsert_thread"@))] + thread_members(thread),
        ),
        IngestMutationView::ArchiveThread { source, source_id } => JsonView::Object(
            seq![
                ("kind"@, JsonView::Text("archive_thread"@)),
                ("source"@, JsonView::Text(source)),
                ("source_id"@, JsonView::Text(source_id)),
            ],
        ),
        IngestMutationView::AppendMessage(message) => message_view(message),
    }
}

/// The JSON of an optional cursor.
pub open spec fn cursor_view(cursor: Option<IngestCursorView>) -> JsonView {
    match cursor {
        Some(cursor) => JsonView::Object(
            seq![
                ("source"@, JsonView::Text(cursor.source)),
                ("value"@, JsonView::Text(cursor.value)),
            ],
        ),
        None => JsonView::Null,
    }
}

/// The JSON of an optional audit event.
pub open spec fn audit_view(audit: Option<AuditEventView>) -> JsonView {
    match audit {
        Some(event) => event_view(event),
        None => JsonView::Null,
    }
}

/// The JSON of a batch without its replay key.
pub open spec fn batch_view(batch: IngestBatchView) -> JsonView {
    JsonView::Object(
        seq![
            ("source"@, JsonView::Text(batch.source)),
            (
                "mutations"@,
                JsonView::Array(
                    batch.mutations.map_values(
                        |mutation: IngestMutationView| mutation_view(mutation),
                    ),
                ),
            ),
            ("cursor"@, cursor_view(batch.cursor)),
            ("audit"@, audit_view(batch.audit)),
        ],
    )
}

/// The bytes that a batch's hash is taken of: its canonical JSON without the replay key.
pub open spec fn batch_bytes(batch: IngestBatchView) -> Seq<u8> {
    vstd::utf8::encode_utf8(rendered(canonical(batch_view(batch))))
}

/// The identity of a batch: the hash of its canonical JSON without the replay key.
pub open spec fn batch_hash(batch: IngestBatchView) -> Seq<char> {
    sha256_hex(batch_bytes(batch))
}

fn push_instance(members: &mut Vec<(String, Json)>, instance: &Option<String>)
    ensures
        member_views(final(members)@) == member_views(old(members)@) + instance_members(
            view_opt(*instance),
        ),
{
    let ghost before = members@;
    if let Some(id) = instance {
        members.push(member("provider_instance", json_text(id.as_str())));
    }
    assert(member_views(members@) =~= member_views(before) + instance_members(
        view_opt(*instance),
    ));
}

fn push_contact(members: &mut Vec<(String, Json)>, contact: &Contact)
    ensures
        member_views(final(members)@) == member_views(old(members)@) + contact_members(contact@),
{
    let ghost before = members@;
    push_instance(members, &contact.provider_instance);
    let ghost middle = members@;
    members.push(member("id", json_id(&contact.id)));
    members.push(member("source", json_text(contact.source.as_str())));
    members.push(member("source_id", json_text(contact.source_id.as_str())));
    members.push(member("display_name", json_opt_text(&contact.display_name)));
    members.push(member("avatar_url", json_opt_text(&contact.avatar_url)));
    members.push(member("metadata", contact.metadata.clone()));
    proof {
        let n = instance_members(contact@.provider_instance).len() as int;
        assert(member_views(members@) =~= member_views(middle) + contact_members(contact@).skip(n));
        assert(member_views(members@) =~= member_views(before) + contact_members(contact@));
    }
}

/// The JSON of a contact.
pub fn contact_json(contact: &Contact) -> (r: Json)
    ensures
        r@ == contact_view(contact@),
{
    let mut members: Vec<(String, Json)> = Vec::new();
    push_contact(&mut members, contact);
    assert(member_views(members@) =~= contact_members(contact@));
    json_object(members)
}

/// The JSON of an attachment.
pub fn attachment_json(attachment: &Attachment) -> (r: Json)
    ensures
        r@ == attachment_view(attachment@),
{
    let mut members: Vec<(String, Json)> = Vec::new();
    members.push(member("mime_type", json_text(attachment.mime_type.as_str())));
    members.push(member("url", json_text(attachment.url.as_str())));
    members.push(member("filename", json_opt_text(&attachment.filename)));
    members.push(
        member(
            "size",
            match attachment.size {
                Some(n) => json_number(n),
                None => Json::Null,
            },
        ),
    );
    assert(member_views(members@) =~= attachment_view(attachment@)->Object_0);
    json_object(members)
}

/// The JSON of a message.
pub fn message_json(message: &Message) -> (r: Json)
    ensures
        r@ == message_view(message@),
{
    let mut items: Vec<Json> = Vec::new();
    let mut i: usize = 0;
    while i < message.attachments.len()
        invariant
            i <= message.attachments@.len(),
            items@.len() == i,
            forall|j: int|
                0 <= j < i ==> (#[trigger] items@[j])@ == attachment_view(
                    message.attachments@[j]@,
                ),
        decreases message.attachments@.len() - i,
    {
        items.push(attachment_json(&message.attachments[i]));
        i += 1;
    }
    assert(views(items@) =~= message@.attachments.map_values(
        |item: AttachmentView| attachment_view(item),
    ));
    let mut members: Vec<(String, Json)> = Vec::new();
    members.push(member("id", json_id(&message.id)));
    members.push(member("thread_id", json_id(&message.thread_id)));
    members.push(member("source", json_text(message.source.as_str())));
    members.push(member("source_id", json_text(message.source_id.as_str())));
    members.push(member("sender", contact_json(&message.sender)));
    members.push(member("kind", json_text(message.kind.kind_name())));
    members.push(member("body", json_text(message.body.as_str())));
    members.push(member("attachments", json_array(items)));
    members.push(member("timestamp", json_time(&message.timestamp)));
    members.push(member("is_outbound", Json::Bool(message.is_outbound)));
    members.push(member("metadata", message.metadata.clone()));
    assert(member_views(members@) =~= message_view(message@)->Object_0);
    json_object(members)
}

fn push_thread(members: &mut Vec<(String, Json)>, thread: &Thread)
    ensures
        member_views(final(members)@) == member_views(old(members)@) + thread_members(thread@),
{
    let ghost before = members@;
    let mut items: Vec<Json> = Vec::new();
    let mut i: usize = 0;
    while i < thread.participants.len()
        invariant
            i <= thread.participants@.len(),
            items@.len() == i,
            forall|j: int|
                0 <= j < i ==> (#[trigger] items@[j])@ == contact_view(thread.participants@[j]@),
        decreases thread.participants@.len() - i,
    {
        items.push(contact_json(&thread.participants[i]));
        i += 1;
    }
    assert(views(items@) =~= thread@.participants.map_values(
        |contact: ContactView| contact_view(contact),
    ));
    push_instance(members, &thread.provider_instance);
    let ghost middle = members@;
    members.push(member("id", json_id(&thread.id)));
    members.push(member("source", json_text(thread.source.as_str())));
    members.push(member("source_id", json_text(thread.source_id.as_str())));
    members.push(member("title", json_opt_text(&thread.title)));
    members.push(member("participants", json_array(items)));
    members.push(member("last_message_at", json_time(&thread.last_message_at)));
    members.push(
        member(
            "unread_count",
            match thread.unread_count {
                Some(n) => json_number(n as u64),
                None => Json::Null,
            },
        ),
    );
    members.push(member("metadata", thread.metadata.clone()));
    proof {
        let n = instance_members(thread@.provider_instance).len() as int;
        assert(member_views(members@) =~= member_views(middle) + thread_members(thread@).skip(n));
        assert(member_views(members@) =~= member_views(before) + thread_members(thread@));
    }
}

/// The JSON of a thread.
pub fn thread_json(thread: &Thread) -> (r: Json)
    ensures
        r@ == thread_view(thread@),
{
    let mut members: Vec<(String, Json)> = Vec::new();
    push_thread(&mut members, thread);
    assert(member_views(members@) =~= thread_members(thread@));
    json_object(members)
}

/// The JSON of a mutation.
pub fn mutation_json(mutation: &IngestMutation) -> (r: Json)
    ensures
        r@ == mutation_view(mutation@),
{
    let mut members: Vec<(String, Json)> = Vec::new();
    match mutation {
        IngestMutation::UpsertContact(contact) => {
            members.push(member("kind", json_text("upsert_contact")));
            push_contact(&mut members, contact);
            assert(member_views(members@) =~= mutation_view(mutation@)->Object_0);
            json_object(members)
        },
        IngestMutation::UpsertThread(thread) => {
            members.push(member("kind", json_text("upsert_thread")));
            push_thread(&mut members, thread);
            assert(member_views(members@) =~= mutation_view(mutation@)->Object_0);
            json_object(members)
        },
        IngestMutation::ArchiveThread { source, source_id } => {
            members.push(member("kind", json_text("archive_thread")));
            members.push(member("source", json_text(source.as_str())));
            members.push(member("source_id", json_text(source_id.as_str())));
            assert(member_views(members@) =~= mutation_view(mutation@)->Object_0);
            json_object(members)
        },
        IngestMutation::AppendMessage(message) => message_json(message),
    }
}

impl IngestBatch {
    /// The JSON of the batch without its replay key.
    fn to_json(&self) -> (r: Json)
        ensures
            r@ == batch_view(self@),
    {
        let mut items: Vec<Json> = Vec::new();
        let mut i: usize = 0;
        while i < self.mutations.len()
            invariant
                i <= self.mutations@.len(),
                items@.len() == i,
                forall|j: int|
                    0 <= j < i ==> (#[trigger] items@[j])@ == mutation_view(self.mutations@[j]@),
            decreases self.mutations@.len() - i,
        {
            items.push(mutation_json(&self.mutations[i]));
            i += 1;
        }
        assert(views(items@) =~= self@.mutations.map_values(
            |mutation: IngestMutationView| mutation_view(mutation),
        ));
        let cursor = match &self.cursor {
            Some(cursor) => {
                let mut members: Vec<(String, Json)> = Vec::new();
                members.push(member("source", json_text(cursor.source.as_str())));
                members.push(member("value", json_text(cursor.value.as_str())));
                assert(member_views(members@) =~= cursor_view(Some(cursor@))->Object_0);
                json_object(members)
            },
            None => Json::Null,
        };
        let audit = match &self.audit {
            Some(event) => event.to_json(),
            None => Json::Null,
        };
        let mut members: Vec<(String, Json)> = Vec::new();
        members.push(member("source", json_text(self.source.as_str())));
        members.push(member("mutations", json_array(items)));
        members.push(member("cursor", cursor));
        members.push(member("audit", audit));
        assert(member_views(members@) =~= batch_view(self@)->Object_0);
        json_object(members)
    }

    /// Returns the deterministic, order-sensitive SHA-256 identity for this batch.
    pub fn canonical_hash(&self) -> (r: Result<String, IrisError>)
        ensures
            r is Ok,
            r->Ok_0@ == batch_hash(self@),
    {
        let text = self.to_json().canonicalize().render();
        Ok(sha256(text.as_str().as_bytes()))
    }
}

/// The identity of a batch leaves its replay key out.
pub proof fn law_hash_ignores_the_replay_key(a: IngestBatchView, b: IngestBatchView)
    requires
        a.source == b.source,
        a.mutations == b.mutations,
        a.cursor == b.cursor,
        a.audit == b.audit,
    ensures
        batch_hash(a) == batch_hash(b),
{
    assert(batch_view(a) == batch_view(b));
}

/// Whether all metadata in a mutation is sound.
pub open spec fn sound_mutation(mutation: IngestMutationView) -> bool {
    match mutation {
        IngestMutationView::UpsertContact(contact) => sound(contact.metadata),
        IngestMutationView::UpsertThread(thread) => {
            &&& sound(thread.metadata)
            &&& forall|i: int|
                0 <= i < thread.participants.len() ==> sound(
                    (#[trigger] thread.participants[i]).metadata,
                )
        },
        IngestMutationView::ArchiveThread { .. } => true,
        IngestMutationView::AppendMessage(message) => sound(message.metadata) && sound(
            message.sender.metadata,
        ),
    }
}

/// Whether all metadata in a batch is sound.
pub open spec fn sound_batch(batch: IngestBatchView) -> bool {
    &&& forall|i: int|
        0 <= i < batch.mutations.len() ==> sound_mutation(#[trigger] batch.mutations[i])
    &&& batch.audit matches Some(event) ==> sound(event.metadata)
}

/// Whether the values of all members are sound.
spec fn sound_members(members: Members) -> bool {
    forall|i: int| 0 <= i < members.len() ==> sound((#[trigger] members[i]).1)
}

proof fn lemma_joined_members(a: Members, b: Members)
    requires
        sound_members(a),
        sound_members(b),
    ensures
        sound_members(a + b),
{
    assert forall|i: int| 0 <= i < (a + b).len() implies sound((#[trigger] (a + b)[i]).1) by {
        if i < a.len() {
            assert((a + b)[i] == a[i]);
        } else {
            assert((a + b)[i] == b[i - a.len()]);
        }
    }
}

proof fn lemma_contact_is_sound(contact: ContactView)
    requires
        sound(contact.metadata),
    ensures
        sound_members(contact_members(contact)),
        sound(contact_view(contact)),
{
    let first = instance_members(contact.provider_instance);
    let rest = contact_members(contact).skip(first.len() as int);
    assert forall|i: int| 0 <= i < rest.len() implies sound((#[trigger] rest[i]).1) by {
        assert(i == 0 || i == 1 || i == 2 || i == 3 || i == 4 || i == 5);
    }
    lemma_joined_members(first, rest);
    assert(contact_members(contact) =~= first + rest);
}

proof fn lemma_thread_is_sound(thread: ThreadView)
    requires
        sound_mutation(IngestMutationView::UpsertThread(thread)),
    ensures
        sound_members(thread_members(thread)),
{
    let first = instance_members(thread.provider_instance);
    let rest = thread_members(thread).skip(first.len() as int);
    let items = thread.participants.map_values(|contact: ContactView| contact_view(contact));
    assert forall|i: int| 0 <= i < items.len() implies sound(#[trigger] items[i]) by {
        lemma_contact_is_sound(thread.participants[i]);
    }
    assert(sound(JsonView::Array(items)));
    assert forall|i: int| 0 <= i < rest.len() implies sound((#[trigger] rest[i]).1) by {
        assert(i == 0 || i == 1 || i == 2 || i == 3 || i == 4 || i == 5 || i == 6 || i == 7);
    }
    lemma_joined_members(first, rest);
    assert(thread_members(thread) =~= first + rest);
}

proof fn lemma_attachment_is_sound(attachment: AttachmentView)
    ensures
        sound(attachment_view(attachment)),
{
    let members = attachment_view(attachment)->Object_0;
    assert forall|i: int| 0 <= i < members.len() implies sound((#[trigger] members[i]).1) by {
        assert(i == 0 || i == 1 || i == 2 || i == 3);
    }
}

proof fn lemma_message_is_sound(message: MessageView)
    requires
        sound(message.metadata),
        sound(message.sender.metadata),
    ensures
        sound(message_view(message)),
{
    let members = message_view(message)->Object_0;
    let items = message.attachments.map_values(|item: AttachmentView| attachment_view(item));
    assert forall|i: int| 0 <= i < items.len() implies sound(#[trigger] items[i]) by {
        lemma_attachment_is_sound(message.attachments[i]);
    }
    assert(sound(JsonView::Array(items)));
    lemma_contact_is_sound(message.sender);
    assert forall|i: int| 0 <= i < members.len() implies sound((#[trigger] members[i]).1) by {
        assert(i == 0 || i == 1 || i == 2 || i == 3 || i == 4 || i == 5 || i == 6 || i == 7 || i
            == 8 || i == 9 || i == 10);
    }
}

proof fn lemma_mutation_is_sound(mutation: IngestMutationView)
    requires
        sound_mutation(mutation),
    ensures
        sound(mutation_view(mutation)),
{
    let members = mutation_view(mutation)->Object_0;
    match mutation {
        IngestMutationView::UpsertContact(contact) => {
            lemma_contact_is_sound(contact);
            lemma_joined_members(
                seq![("kind"@, JsonView::Text("upsert_contact"@))],
                contact_members(contact),
            );
        },
        IngestMutationView::UpsertThread(thread) => {
            lemma_thread_is_sound(thread);
            lemma_joined_members(
                seq![("kind"@, JsonView::Text("upsert_thread"@))],
                thread_members(thread),
            );
        },
        IngestMutationView::ArchiveThread { source, source_id } => {
            assert forall|i: int| 0 <= i < members.len() implies sound(
                (#[trigger] members[i]).1,
            ) by {
                assert(i == 0 || i == 1 || i == 2);
            }
        },
        IngestMutationView::AppendMessage(message) => lemma_message_is_sound(message),
    }
}

proof fn lemma_batch_is_sound(batch: IngestBatchView)
    requires
        sound_batch(batch),
    ensures
        sound(batch_view(batch)),
{
    let members = batch_view(batch)->Object_0;
    let items = batch.mutations.map_values(
        |mutation: IngestMutationView| mutation_view(mutation),
    );
    assert forall|i: int| 0 <= i < items.len() implies sound(#[trigger] items[i]) by {
        lemma_mutation_is_sound(batch.mutations[i]);
    }
    assert(sound(JsonView::Array(items)));
    if let Some(event) = batch.audit {
        lemma_event_is_sound(event);
    }
    assert(sound(cursor_view(batch.cursor))) by {
        if batch.cursor is Some {
            let pair = cursor_view(batch.cursor)->Object_0;
            assert forall|i: int| 0 <= i < pair.len() implies sound((#[trigger] pair[i]).1) by {
                assert(i == 0 || i == 1);
            }
        }
    }
    assert forall|i: int| 0 <= i < members.len() implies sound((#[trigger] members[i]).1) by {
        assert(i == 0 || i == 1 || i == 2 || i == 3);
    }
}

/// The canonical JSON of a cursor tells the cursor.
proof fn lemma_cursor_told(a: Option<IngestCursorView>, b: Option<IngestCursorView>)
    requires
        canonical(cursor_view(a)) == canonical(cursor_view(b)),
    ensures
        a == b,
{
    if a is Some && b is Some {
        let ours = cursor_view(a)->Object_0;
        let theirs = cursor_view(b)->Object_0;
        reveal_strlit("source");
        reveal_strlit("value");
        assert("source"@[0] == 's' && "value"@[0] == 'v');
        assert(distinct_names(theirs));
        lemma_members_agree(ours, theirs, 0, 0);
        lemma_members_agree(ours, theirs, 1, 1);
        assert(canonical(ours[0].1) == JsonView::Text(a->0.source));
        assert(canonical(ours[1].1) == JsonView::Text(a->0.value));
    }
}

/// Whether two batches say the same: the same source and cursor, as many mutations, and one by one
/// the same mutations and the same audit event in canonical JSON.
pub open spec fn same_content(a: IngestBatchView, b: IngestBatchView) -> bool {
    &&& a.source == b.source
    &&& a.mutations.len() == b.mutations.len()
    &&& forall|i: int|
        0 <= i < a.mutations.len() ==> canonical(mutation_view(#[trigger] a.mutations[i]))
            == canonical(mutation_view(b.mutations[i]))
    &&& a.cursor == b.cursor
    &&& canonical(audit_view(a.audit)) == canonical(audit_view(b.audit))
}

/// Whether SHA-256 tells the bytes apart that the hashes of two batches are taken of.
pub open spec fn told_apart(a: IngestBatchView, b: IngestBatchView) -> bool {
    batch_bytes(a) != batch_bytes(b) ==> sha256_hex(batch_bytes(a)) != sha256_hex(batch_bytes(b))
}

/// Batches whose hashes are taken of the same bytes say the same.
pub proof fn law_the_hashed_bytes_tell_the_batch(a: IngestBatchView, b: IngestBatchView)
    requires
        sound_batch(a),
        sound_batch(b),
        batch_bytes(a) == batch_bytes(b),
    ensures
        same_content(a, b),
{
    let left = rendered(canonical(batch_view(a)));
    let right = rendered(canonical(batch_view(b)));
    vstd::utf8::encode_utf8_decode_utf8(left);
    vstd::utf8::encode_utf8_decode_utf8(right);
    assert(left == right);
    lemma_batch_is_sound(a);
    lemma_batch_is_sound(b);
    law_the_canonical_text_tells_the_canonical_form(batch_view(a), batch_view(b));
    let ours = batch_view(a)->Object_0;
    let theirs = batch_view(b)->Object_0;
    reveal_strlit("source");
    reveal_strlit("mutations");
    reveal_strlit("cursor");
    reveal_strlit("audit");
    assert("source"@[0] == 's' && "mutations"@[0] == 'm');
    assert("cursor"@[0] == 'c' && "audit"@[0] == 'a');
    assert(distinct_names(theirs));
    lemma_members_agree(ours, theirs, 0, 0);
    lemma_members_agree(ours, theirs, 1, 1);
    lemma_members_agree(ours, theirs, 2, 2);
    lemma_members_agree(ours, theirs, 3, 3);
    assert(canonical(ours[0].1) == JsonView::Text(a.source));
    assert(canonical(theirs[0].1) == JsonView::Text(b.source));
    lemma_cursor_told(a.cursor, b.cursor);
    let items = ours[1].1->Array_0;
    let others = theirs[1].1->Array_0;
    assert(canonical(ours[1].1) == JsonView::Array(canonical_items(items)));
    assert(canonical(theirs[1].1) == JsonView::Array(canonical_items(others)));
    assert(canonical_items(items) == canonical_items(others));
    assert(canonical_items(items).len() == items.len());
    assert(canonical_items(others).len() == others.len());
    assert forall|i: int| 0 <= i < a.mutations.len() implies canonical(
        mutation_view(#[trigger] a.mutations[i]),
    ) == canonical(mutation_view(b.mutations[i])) by {
        assert(canonical_items(items)[i] == canonical(items[i]));
        assert(canonical_items(others)[i] == canonical(others[i]));
    }
}

/// The identity of a batch is sensitive to the order of its mutations: where two that differ in
/// JSON change places the identity is another, unless two texts share their SHA-256 hash.
pub proof fn law_the_order_of_mutations_counts(
    batch: IngestBatchView,
    i: int,
    j: int,
    reordered: IngestBatchView,
)
    requires
        sound_batch(batch),
        0 <= i < j < batch.mutations.len(),
        canonical(mutation_view(batch.mutations[i])) != canonical(
            mutation_view(batch.mutations[j]),
        ),
        reordered.mutations == batch.mutations.update(i, batch.mutations[j]).update(
            j,
            batch.mutations[i],
        ),
        reordered.audit == batch.audit,
        told_apart(reordered, batch),
    ensures
        batch_hash(reordered) != batch_hash(batch),
{
    assert forall|k: int| 0 <= k < reordered.mutations.len() implies sound_mutation(
        #[trigger] reordered.mutations[k],
    ) by {
        assert(sound_mutation(batch.mutations[i]));
        assert(sound_mutation(batch.mutations[j]));
        assert(sound_mutation(batch.mutations[k]));
    }
    if batch_bytes(reordered) == batch_bytes(batch) {
        law_the_hashed_bytes_tell_the_batch(reordered, batch);
        assert(reordered.mutations[i] == batch.mutations[j]);
    }
}

/// What is kept of a batch that was committed.
#[derive(Debug, PartialEq, Eq)]
pub struct ReplayRecord {
    /// The key under which the batch may be sent again.
    pub replay_key: String,
    /// The identity of the batch.
    pub hash: String,
    /// When the batch was committed.
    pub committed_at: Timestamp,
}

/// The mathematical value of a record.
#[verifier::ext_equal]
pub struct ReplayRecordView {
    pub replay_key: Seq<char>,
    pub hash: Seq<char>,
    pub committed_at: Timestamp,
}

impl View for ReplayRecord {
    type V = ReplayRecordView;

    open spec fn view(&self) -> ReplayRecordView {
        ReplayRecordView {
            replay_key: self.replay_key@,
            hash: self.hash@,
            committed_at: self.committed_at,
        }
    }
}

/// Where the record of a replay key first stands: its index, or the length.
pub open spec fn record_place(records: Seq<ReplayRecordView>, replay_key: Seq<char>) -> int
    decreases records.len(),
{
    if records.len() == 0 || records[0].replay_key == replay_key {
        0
    } else {
        1 + record_place(records.drop_first(), replay_key)
    }
}

/// What becomes of a batch: it is committed where its replay key is new. A matching replay is
/// successful, and a differing one is a conflict.
pub open spec fn replay_outcome(
    records: Seq<ReplayRecordView>,
    batch: IngestBatchView,
    now: Timestamp,
) -> IngestOutcome {
    let i = record_place(records, batch.replay_key);
    if i >= records.len() {
        IngestOutcome::Applied { committed_at: now }
    } else if records[i].hash == batch_hash(batch) {
        IngestOutcome::AlreadyApplied { committed_at: records[i].committed_at }
    } else {
        IngestOutcome::ReplayConflict
    }
}

/// The records behind a batch: only a batch that is committed leaves one.
pub open spec fn records_after(
    records: Seq<ReplayRecordView>,
    batch: IngestBatchView,
    now: Timestamp,
) -> Seq<ReplayRecordView> {
    if replay_outcome(records, batch, now) is Applied {
        records.push(
            ReplayRecordView {
                replay_key: batch.replay_key,
                hash: batch_hash(batch),
                committed_at: now,
            },
        )
    } else {
        records
    }
}

/// The records of the batches that were committed.
#[derive(Debug)]
pub struct ReplayLedger {
    pub records: Vec<ReplayRecord>,
}

impl ReplayLedger {
    /// Decides what becomes of a batch, and keeps a record of it where it is committed.
    pub fn apply_batch(&mut self, batch: &IngestBatch, now: Timestamp) -> (r: IngestOutcome)
        ensures
            r == replay_outcome(views(old(self).records@), batch@, now),
            views(final(self).records@) == records_after(
                views(old(self).records@),
                batch@,
                now,
            ),
    {
        let ghost all = views(self.records@);
        let hash = match batch.canonical_hash() {
            Ok(hash) => hash,
            Err(_) => String::new(),
        };
        let mut i: usize = 0;
        assert(all.skip(0) =~= all);
        while i < self.records.len()
            invariant
                i <= self.records@.len(),
                all == views(self.records@),
                all == views(old(self).records@),
                hash@ == batch_hash(batch@),
                record_place(all, batch@.replay_key) == i + record_place(
                    all.skip(i as int),
                    batch@.replay_key,
                ),
            decreases self.records@.len() - i,
        {
            assert(all.skip(i as int)[0] == self.records@[i as int]@);
            if str_eq(self.records[i].replay_key.as_str(), batch.replay_key.as_str()) {
                if str_eq(self.records[i].hash.as_str(), hash.as_str()) {
                    return IngestOutcome::AlreadyApplied {
                        committed_at: self.records[i].committed_at,
                    };
                }
                return IngestOutcome::ReplayConflict;
            }
            assert(all.skip(i as int).drop_first() =~= all.skip(i + 1));
            i += 1;
        }
        let record = ReplayRecord {
            replay_key: batch.replay_key.clone(),
            hash,
            committed_at: now,
        };
        let ghost made = record@;
        self.records.push(record);
        assert(views(self.records@) =~= all.push(made));
        IngestOutcome::Applied { committed_at: now }
    }
}

proof fn lemma_record_place(records: Seq<ReplayRecordView>, replay_key: Seq<char>)
    ensures
        0 <= record_place(records, replay_key) <= records.len(),
        record_place(records, replay_key) < records.len() ==> records[record_place(
            records,
            replay_key,
        )].replay_key == replay_key,
        forall|i: int|
            0 <= i < record_place(records, replay_key) ==> (#[trigger] records[i]).replay_key
                != replay_key,
    decreases records.len(),
{
    if records.len() > 0 && records[0].replay_key != replay_key {
        let rest = records.drop_first();
        lemma_record_place(rest, replay_key);
        assert forall|i: int| 0 <= i < record_place(records, replay_key) implies (
        #[trigger] records[i]).replay_key != replay_key by {
            if i > 0 {
                assert(records[i] == rest[i - 1]);
            }
        }
    }
}

/// A batch that was committed may be sent again at any later time: it is answered with the time of
/// its commit, and nothing is written.
pub proof fn law_a_matching_replay_is_successful(
    records: Seq<ReplayRecordView>,
    batch: IngestBatchView,
    now: Timestamp,
    later: Timestamp,
)
    requires
        replay_outcome(records, batch, now) is Applied,
    ensures
        ({
            let after = records_after(records, batch, now);
            &&& replay_outcome(after, batch, later) == (IngestOutcome::AlreadyApplied {
                committed_at: now,
            })
            &&& records_after(after, batch, later) == after
        }),
{
    let after = records_after(records, batch, now);
    lemma_record_place(records, batch.replay_key);
    lemma_record_place(after, batch.replay_key);
    let n = records.len() as int;
    let i = record_place(after, batch.replay_key);
    assert(after[n].replay_key == batch.replay_key);
    if i > n {
        assert(after[n].replay_key != batch.replay_key);
    }
    if i < n {
        assert(after[i] == records[i]);
        assert(records[i].replay_key == batch.replay_key);
    }
}

/// A batch whose identity differs from the one that its replay key was committed with is a
/// conflict, and nothing is written.
pub proof fn law_a_differing_replay_is_a_conflict(
    records: Seq<ReplayRecordView>,
    batch: IngestBatchView,
    other: IngestBatchView,
    now: Timestamp,
    later: Timestamp,
)
    requires
        replay_outcome(records, batch, now) is Applied,
        other.replay_key == batch.replay_key,
        batch_hash(other) != batch_hash(batch),
    ensures
        ({
            let after = records_after(records, batch, now);
            &&& replay_outcome(after, other, later) is ReplayConflict
            &&& records_after(after, other, later) == after
        }),
{
    law_a_matching_replay_is_successful(records, batch, now, later);
}

/// A replay key that was committed with one content and comes with another is a conflict, unless
/// two texts share their SHA-256 hash.
pub proof fn law_a_replay_with_other_content_is_a_conflict(
    records: Seq<ReplayRecordView>,
    batch: IngestBatchView,
    other: IngestBatchView,
    now: Timestamp,
    later: Timestamp,
)
    requires
        sound_batch(batch),
        sound_batch(other),
        replay_outcome(records, batch, now) is Applied,
        other.replay_key == batch.replay_key,
        !same_content(other, batch),
        told_apart(other, batch),
    ensures
        replay_outcome(records_after(records, batch, now), other, later) is ReplayConflict,
{
    if batch_bytes(other) == batch_bytes(batch) {
        law_the_hashed_bytes_tell_the_batch(other, batch);
    }
    law_a_differing_replay_is_a_conflict(records, batch, other, now, later);
}

/// Whether two values differ at most in the order of the members of their objects.
pub open spec fn same_but_for_order(a: JsonView, b: JsonView) -> bool
    decreases a,
{
    match (a, b) {
        (JsonView::Array(x), JsonView::Array(y)) => {
            &&& x.len() == y.len()
            &&& forall|i: int| 0 <= i < x.len() ==> same_but_for_order(#[trigger] x[i], y[i])
        },
        (JsonView::Object(x), JsonView::Object(y)) => {
            &&& x.len() == y.len()
            &&& distinct_names(x)
            &&& distinct_names(y)
            &&& forall|i: int|
                0 <= i < x.len() ==> exists|j: int|
                    0 <= j < y.len() && (#[trigger] y[j]).0 == (#[trigger] x[i]).0
                        && same_but_for_order(x[i].1, y[j].1)
        },
        _ => a == b,
    }
}

proof fn lemma_names_in_order(members: Members)
    requires
        distinct_names(members),
    ensures
        distinct_names(sorted_members(members)),
        in_order(sorted_members(members), by_key()),
        sorted_members(members).to_set() == members.to_set(),
        sorted_members(members).len() == members.len(),
{
    broadcast use vstd::seq_lib::group_to_multiset_ensures;
    lemma_by_key_order();
    lemma_sorted_by(members, by_key());
    let sorted = sorted_members(members);
    assert forall|m: (Seq<char>, JsonView)| sorted.contains(m) <==> members.contains(m) by {
        assert(sorted.contains(m) <==> sorted.to_multiset().count(m) > 0);
        assert(members.contains(m) <==> members.to_multiset().count(m) > 0);
    }
    assert(sorted.to_set() =~= members.to_set());
    assert(members.no_duplicates());
    members.lemma_multiset_has_no_duplicates();
    assert(sorted.no_duplicates()) by {
        sorted.lemma_multiset_has_no_duplicates_conv();
    }
    assert forall|i: int, j: int| 0 <= i < j < sorted.len() implies (#[trigger] sorted[i]).0 != (
    #[trigger] sorted[j]).0 by {
        assert(members.contains(sorted[i]) && members.contains(sorted[j]));
        let k = choose|k: int| 0 <= k < members.len() && members[k] == sorted[i];
        let l = choose|l: int| 0 <= l < members.len() && members[l] == sorted[j];
        assert(sorted[i] != sorted[j]);
        if k < l {
            assert(members[k].0 != members[l].0);
        } else {
            assert(members[l].0 != members[k].0);
        }
    }
}

/// Two sequences of members in the order of different names are the same if they hold the same.
proof fn lemma_in_order_unique(a: Members, b: Members)
    requires
        distinct_names(a),
        distinct_names(b),
        in_order(a, by_key()),
        in_order(b, by_key()),
        a.len() == b.len(),
        a.to_set() == b.to_set(),
    ensures
        a == b,
    decreases a.len(),
{
    let less = by_key();
    if a.len() > 0 {
        let n = a.len() - 1;
        assert(a.to_set().contains(a[n]));
        assert(b.to_set().contains(b[n]));
        assert(b.contains(a[n]));
        assert(a.contains(b[n]));
        let i = choose|i: int| 0 <= i < b.len() && b[i] == a[n];
        let j = choose|j: int| 0 <= j < a.len() && a[j] == b[n];
        assert(i == n) by {
            if i < n {
                assert(!less(b[n], b[i]));
                assert(b[n].0 != b[i].0);
                lemma_text_trichotomy(b[n].0, b[i].0);
                assert(j < n);
                assert(!less(a[n], a[j]));
            }
        }
        let x = a.drop_last();
        let y = b.drop_last();
        assert(x.to_set() =~= y.to_set()) by {
            assert forall|m: (Seq<char>, JsonView)| x.contains(m) implies y.contains(m) by {
                let k = choose|k: int| 0 <= k < x.len() && x[k] == m;
                assert(a[k] == m);
                assert(a.to_set().contains(m));
                assert(b.contains(m));
                let l = choose|l: int| 0 <= l < b.len() && b[l] == m;
                assert(a[k].0 != a[n].0);
                assert(l < n);
                assert(y[l] == m);
            }
            assert forall|m: (Seq<char>, JsonView)| y.contains(m) implies x.contains(m) by {
                let k = choose|k: int| 0 <= k < y.len() && y[k] == m;
                assert(b[k] == m);
                assert(b.to_set().contains(m));
                assert(a.contains(m));
                let l = choose|l: int| 0 <= l < a.len() && a[l] == m;
                assert(b[k].0 != b[n].0);
                assert(l < n);
                assert(x[l] == m);
            }
        }
        assert(distinct_names(x)) by {
            assert forall|i: int, j: int| 0 <= i < j < x.len() implies (#[trigger] x[i]).0 != (
            #[trigger] x[j]).0 by {
                assert(a[i] == x[i] && a[j] == x[j]);
            }
        }
        assert(distinct_names(y)) by {
            assert forall|i: int, j: int| 0 <= i < j < y.len() implies (#[trigger] y[i]).0 != (
            #[trigger] y[j]).0 by {
                assert(b[i] == y[i] && b[j] == y[j]);
            }
        }
        assert(in_order(x, less)) by {
            assert forall|i: int, j: int| 0 <= i < j < x.len() implies !less(
                #[trigger] x[j],
                #[trigger] x[i],
            ) by {
                assert(a[i] == x[i] && a[j] == x[j]);
            }
        }
        assert(in_order(y, less)) by {
            assert forall|i: int, j: int| 0 <= i < j < y.len() implies !less(
                #[trigger] y[j],
                #[trigger] y[i],
            ) by {
                assert(b[i] == y[i] && b[j] == y[j]);
            }
        }
        lemma_in_order_unique(x, y);
        assert(a =~= x.push(a[n]));
        assert(b =~= y.push(b[n]));
    } else {
        assert(a =~= b);
    }
}

/// The canonical form does not depend on the order of the members of objects.
pub proof fn law_canonical_form_ignores_member_order(a: JsonView, b: JsonView)
    requires
        same_but_for_order(a, b),
    ensures
        canonical(a) == canonical(b),
    decreases a,
{
    match (a, b) {
        (JsonView::Array(x), JsonView::Array(y)) => {
            assert forall|i: int| 0 <= i < x.len() implies canonical(#[trigger] x[i]) == canonical(
                y[i],
            ) by {
                law_canonical_form_ignores_member_order(x[i], y[i]);
            }
            assert(canonical_items(x) =~= canonical_items(y));
        },
        (JsonView::Object(x), JsonView::Object(y)) => {
            let p = canonical_members(x);
            let q = canonical_members(y);
            assert forall|i: int, j: int| 0 <= i < j < p.len() implies (#[trigger] p[i]).0 != (
            #[trigger] p[j]).0 by {
                assert(x[i].0 != x[j].0);
            }
            assert forall|i: int, j: int| 0 <= i < j < q.len() implies (#[trigger] q[i]).0 != (
            #[trigger] q[j]).0 by {
                assert(y[i].0 != y[j].0);
            }
            assert forall|m: (Seq<char>, JsonView)| p.contains(m) implies q.contains(m) by {
                let i = choose|i: int| 0 <= i < p.len() && p[i] == m;
                assert(x[i].0 == x[i].0);
                let j = choose|j: int|
                    0 <= j < y.len() && (#[trigger] y[j]).0 == x[i].0 && same_but_for_order(
                        x[i].1,
                        y[j].1,
                    );
                law_canonical_form_ignores_member_order(x[i].1, y[j].1);
                assert(q[j] == m);
            }
            assert(p.to_set().subset_of(q.to_set())) by {
                assert forall|m: (Seq<char>, JsonView)| p.to_set().contains(m) implies
                    q.to_set().contains(m) by {
                    assert(p.contains(m));
                }
            }
            assert(p.no_duplicates());
            assert(q.no_duplicates());
            p.unique_seq_to_set();
            q.unique_seq_to_set();
            vstd::set_lib::lemma_subset_equality(p.to_set(), q.to_set());
            lemma_names_in_order(p);
            lemma_names_in_order(q);
            lemma_in_order_unique(sorted_members(p), sorted_members(q));
        },
        _ => {},
    }
}

/// The identity of a batch does not depend on the order of the members of the audit metadata.
pub proof fn law_hash_ignores_member_order(
    a: IngestBatchView,
    b: IngestBatchView,
    first: AuditEventView,
    second: AuditEventView,
)
    requires
        a.audit == Some(first),
        b.audit == Some(second),
        a == (IngestBatchView { audit: a.audit, ..b }),
        first == (AuditEventView { metadata: first.metadata, ..second }),
        same_but_for_order(first.metadata, second.metadata),
    ensures
        batch_hash(a) == batch_hash(b),
{
    law_canonical_form_ignores_member_order(first.metadata, second.metadata);
    let x = event_view(first)->Object_0;
    let y = event_view(second)->Object_0;
    assert(canonical_members(x) =~= canonical_members(y));
    assert(canonical(event_view(first)) == canonical(event_view(second)));
    let p = batch_view(a)->Object_0;
    let q = batch_view(b)->Object_0;
    assert(canonical_members(p) =~= canonical_members(q));
}

/// Whether two contacts say the same, but for the order of the members of their metadata. IDs count
/// by the texts in which they stand in JSON.
pub open spec fn same_contact(a: ContactView, b: ContactView) -> bool {
    &&& uuid_text(a.id.value) == uuid_text(b.id.value)
    &&& a.source == b.source
    &&& a.source_id == b.source_id
    &&& a.provider_instance == b.provider_instance
    &&& a.display_name == b.display_name
    &&& a.avatar_url == b.avatar_url
    &&& canonical(a.metadata) == canonical(b.metadata)
}

/// How many members come before those of the contact or thread itself.
spec fn instance_len(instance: Option<Seq<char>>) -> int {
    if instance is Some {
        1
    } else {
        0
    }
}

proof fn lemma_canonical_members(a: Members, b: Members)
    requires
        canonical(JsonView::Object(a)) == canonical(JsonView::Object(b)),
    ensures
        a.len() == b.len(),
{
    lemma_sorted_by(canonical_members(a), by_key());
    lemma_sorted_by(canonical_members(b), by_key());
    canonical_members(a).to_multiset_ensures();
    canonical_members(b).to_multiset_ensures();
    sorted_members(canonical_members(a)).to_multiset_ensures();
    sorted_members(canonical_members(b)).to_multiset_ensures();
}

/// Members that stand behind as many others agree, too.
proof fn lemma_contact_told(a: ContactView, b: ContactView, before: Members, prior: Members)
    requires
        before.len() == prior.len() <= 1,
        before.len() == 1 ==> before[0].0 == "kind"@ && prior[0].0 == "kind"@,
        canonical(JsonView::Object(before + contact_members(a))) == canonical(
            JsonView::Object(prior + contact_members(b)),
        ),
    ensures
        same_contact(a, b),
        before.len() == 1 ==> canonical(before[0].1) == canonical(prior[0].1),
{
    lemma_member_names();
    let ours = before + contact_members(a);
    let theirs = prior + contact_members(b);
    lemma_canonical_members(ours, theirs);
    let n = before.len() as int;
    let k = n + instance_len(a.provider_instance);
    assert(instance_len(a.provider_instance) == instance_len(b.provider_instance));
    let fields = contact_members(b);
    let m = instance_len(b.provider_instance);
    assert(fields.len() == m + 6);
    assert forall|i: int| 0 <= i < fields.len() implies theirs[n + i] == #[trigger] fields[i] by {}
    assert(fields[m].0 == "id"@ && fields[m + 1].0 == "source"@ && fields[m + 2].0 == "source_id"@);
    assert(fields[m + 3].0 == "display_name"@ && fields[m + 4].0 == "avatar_url"@ && fields[m
        + 5].0 == "metadata"@);
    assert(m == 1 ==> fields[0].0 == "provider_instance"@);
    assert(distinct_names(theirs)) by {
        assert forall|i: int, j: int| 0 <= i < j < theirs.len() implies (#[trigger] theirs[i]).0 != (
        #[trigger] theirs[j]).0 by {
            assert(j >= n ==> theirs[j] == fields[j - n]);
            assert(i >= n ==> theirs[i] == fields[i - n]);
        }
    }
    let own = contact_members(a);
    assert forall|i: int| 0 <= i < own.len() implies ours[n + i] == #[trigger] own[i] by {}
    assert(own[m] == ("id"@, id_view(a.id)) && own[m + 1] == ("source"@, JsonView::Text(a.source)));
    assert(own[m + 2] == ("source_id"@, JsonView::Text(a.source_id)));
    assert(own[m + 3] == ("display_name"@, opt_text_view(a.display_name)));
    assert(own[m + 4] == ("avatar_url"@, opt_text_view(a.avatar_url)));
    assert(own[m + 5] == ("metadata"@, a.metadata));
    lemma_members_agree(ours, theirs, k, k);
    lemma_members_agree(ours, theirs, k + 1, k + 1);
    lemma_members_agree(ours, theirs, k + 2, k + 2);
    lemma_members_agree(ours, theirs, k + 3, k + 3);
    lemma_members_agree(ours, theirs, k + 4, k + 4);
    lemma_members_agree(ours, theirs, k + 5, k + 5);
    assert(canonical(opt_text_view(a.display_name)) == opt_text_view(a.display_name));
    assert(canonical(opt_text_view(b.display_name)) == opt_text_view(b.display_name));
    assert(canonical(opt_text_view(a.avatar_url)) == opt_text_view(a.avatar_url));
    assert(canonical(opt_text_view(b.avatar_url)) == opt_text_view(b.avatar_url));
    if m == 1 {
        assert(own[0] == ("provider_instance"@, JsonView::Text(a.provider_instance->0)));
        lemma_members_agree(ours, theirs, n, n);
    }
    if n == 1 {
        assert(ours[0] == before[0] && theirs[0] == prior[0]);
        lemma_members_agree(ours, theirs, 0, 0);
    }
}

/// The canonical JSON of a contact tells the contact.
pub proof fn law_the_json_of_a_contact_tells_it(a: ContactView, b: ContactView)
    requires
        canonical(contact_view(a)) == canonical(contact_view(b)),
    ensures
        same_contact(a, b),
{
    let none = Seq::<(Seq<char>, JsonView)>::empty();
    assert(none + contact_members(a) =~= contact_members(a));
    assert(none + contact_members(b) =~= contact_members(b));
    lemma_contact_told(a, b, none, none);
}

/// The canonical JSON of an attachment tells the attachment.
pub proof fn law_the_json_of_an_attachment_tells_it(a: AttachmentView, b: AttachmentView)
    requires
        canonical(attachment_view(a)) == canonical(attachment_view(b)),
    ensures
        a == b,
{
    lemma_member_names();
    let ours = attachment_view(a)->Object_0;
    let theirs = attachment_view(b)->Object_0;
    assert(distinct_names(theirs));
    lemma_members_agree(ours, theirs, 0, 0);
    lemma_members_agree(ours, theirs, 1, 1);
    lemma_members_agree(ours, theirs, 2, 2);
    lemma_members_agree(ours, theirs, 3, 3);
    assert(canonical(opt_text_view(a.filename)) == opt_text_view(a.filename));
    assert(canonical(opt_text_view(b.filename)) == opt_text_view(b.filename));
    assert(canonical(opt_number_view(a.size)) == opt_number_view(a.size));
    assert(canonical(opt_number_view(b.size)) == opt_number_view(b.size));
}

proof fn lemma_items_agree(a: Seq<JsonView>, b: Seq<JsonView>)
    requires
        canonical(JsonView::Array(a)) == canonical(JsonView::Array(b)),
    ensures
        a.len() == b.len(),
        forall|i: int| 0 <= i < a.len() ==> canonical(#[trigger] a[i]) == canonical(b[i]),
{
    assert(canonical_items(a) == canonical_items(b));
    assert(canonical_items(a).len() == a.len() && canonical_items(b).len() == b.len());
    assert forall|i: int| 0 <= i < a.len() implies canonical(#[trigger] a[i]) == canonical(b[i]) by {
        assert(canonical_items(a)[i] == canonical(a[i]));
        assert(canonical_items(b)[i] == canonical(b[i]));
    }
}

/// Whether two threads say the same, but for the order of the members of metadata. IDs and times
/// count by the texts in which they stand in JSON.
pub open spec fn same_thread(a: ThreadView, b: ThreadView) -> bool {
    &&& uuid_text(a.id.value) == uuid_text(b.id.value)
    &&& a.source == b.source
    &&& a.source_id == b.source_id
    &&& a.provider_instance == b.provider_instance
    &&& a.title == b.title
    &&& a.participants.len() == b.participants.len()
    &&& forall|i: int|
        0 <= i < a.participants.len() ==> same_contact(
            #[trigger] a.participants[i],
            b.participants[i],
        )
    &&& time_view(a.last_message_at) == time_view(b.last_message_at)
    &&& a.unread_count == b.unread_count
    &&& canonical(a.metadata) == canonical(b.metadata)
}

proof fn lemma_thread_told(a: ThreadView, b: ThreadView, before: Members, prior: Members)
    requires
        before.len() == prior.len() <= 1,
        before.len() == 1 ==> before[0].0 == "kind"@ && prior[0].0 == "kind"@,
        canonical(JsonView::Object(before + thread_members(a))) == canonical(
            JsonView::Object(prior + thread_members(b)),
        ),
    ensures
        same_thread(a, b),
{
    lemma_member_names();
    let ours = before + thread_members(a);
    let theirs = prior + thread_members(b);
    lemma_canonical_members(ours, theirs);
    let n = before.len() as int;
    let k = n + instance_len(a.provider_instance);
    assert(instance_len(a.provider_instance) == instance_len(b.provider_instance));
    let fields = thread_members(b);
    let m = instance_len(b.provider_instance);
    assert(fields.len() == m + 8);
    assert forall|i: int| 0 <= i < fields.len() implies theirs[n + i] == #[trigger] fields[i] by {}
    assert(fields[m].0 == "id"@ && fields[m + 1].0 == "source"@ && fields[m + 2].0 == "source_id"@);
    assert(fields[m + 3].0 == "title"@ && fields[m + 4].0 == "participants"@ && fields[m + 5].0
        == "last_message_at"@);
    assert(fields[m + 6].0 == "unread_count"@ && fields[m + 7].0 == "metadata"@);
    assert(m == 1 ==> fields[0].0 == "provider_instance"@);
    assert(distinct_names(theirs)) by {
        assert forall|i: int, j: int| 0 <= i < j < theirs.len() implies (#[trigger] theirs[i]).0 != (
        #[trigger] theirs[j]).0 by {
            assert(j >= n ==> theirs[j] == fields[j - n]);
            assert(i >= n ==> theirs[i] == fields[i - n]);
        }
    }
    let own = thread_members(a);
    assert forall|i: int| 0 <= i < own.len() implies ours[n + i] == #[trigger] own[i] by {}
    let f = |contact: ContactView| contact_view(contact);
    let all = a.participants.map_values(f);
    let others = b.participants.map_values(f);
    assert(own[m] == ("id"@, id_view(a.id)) && own[m + 1] == ("source"@, JsonView::Text(a.source)));
    assert(own[m + 2] == ("source_id"@, JsonView::Text(a.source_id)));
    assert(own[m + 3] == ("title"@, opt_text_view(a.title)));
    assert(own[m + 4] == ("participants"@, JsonView::Array(all)));
    assert(fields[m + 4] == ("participants"@, JsonView::Array(others)));
    assert(own[m + 5] == ("last_message_at"@, time_view(a.last_message_at)));
    assert(own[m + 6] == ("unread_count"@, unread_view(a.unread_count)));
    assert(own[m + 7] == ("metadata"@, a.metadata));
    lemma_members_agree(ours, theirs, k, k);
    lemma_members_agree(ours, theirs, k + 1, k + 1);
    lemma_members_agree(ours, theirs, k + 2, k + 2);
    lemma_members_agree(ours, theirs, k + 3, k + 3);
    lemma_members_agree(ours, theirs, k + 4, k + 4);
    lemma_members_agree(ours, theirs, k + 5, k + 5);
    lemma_members_agree(ours, theirs, k + 6, k + 6);
    lemma_members_agree(ours, theirs, k + 7, k + 7);
    assert(canonical(opt_text_view(a.title)) == opt_text_view(a.title));
    assert(canonical(opt_text_view(b.title)) == opt_text_view(b.title));
    assert(canonical(unread_view(a.unread_count)) == unread_view(a.unread_count));
    assert(canonical(unread_view(b.unread_count)) == unread_view(b.unread_count));
    lemma_items_agree(all, others);
    assert forall|i: int| 0 <= i < a.participants.len() implies same_contact(
        #[trigger] a.participants[i],
        b.participants[i],
    ) by {
        assert(canonical(all[i]) == canonical(others[i]));
        law_the_json_of_a_contact_tells_it(a.participants[i], b.participants[i]);
    }
    if m == 1 {
        assert(own[0] == ("provider_instance"@, JsonView::Text(a.provider_instance->0)));
        lemma_members_agree(ours, theirs, n, n);
    }
}

/// The canonical JSON of a thread tells the thread.
pub proof fn law_the_json_of_a_thread_tells_it(a: ThreadView, b: ThreadView)
    requires
        canonical(thread_view(a)) == canonical(thread_view(b)),
    ensures
        same_thread(a, b),
{
    let none = Seq::<(Seq<char>, JsonView)>::empty();
    assert(none + thread_members(a) =~= thread_members(a));
    assert(none + thread_members(b) =~= thread_members(b));
    lemma_thread_told(a, b, none, none);
}

/// Whether two messages say the same, but for the order of the members of metadata. IDs and times
/// count by the texts in which they stand in JSON.
pub open spec fn same_message(a: MessageView, b: MessageView) -> bool {
    &&& uuid_text(a.id.value) == uuid_text(b.id.value)
    &&& uuid_text(a.thread_id.value) == uuid_text(b.thread_id.value)
    &&& a.source == b.source
    &&& a.source_id == b.source_id
    &&& same_contact(a.sender, b.sender)
    &&& a.kind == b.kind
    &&& a.body == b.body
    &&& a.attachments == b.attachments
    &&& time_view(a.timestamp) == time_view(b.timestamp)
    &&& a.is_outbound == b.is_outbound
    &&& canonical(a.metadata) == canonical(b.metadata)
}

/// The canonical JSON of a message tells the message.
pub proof fn law_the_json_of_a_message_tells_it(a: MessageView, b: MessageView)
    requires
        canonical(message_view(a)) == canonical(message_view(b)),
    ensures
        same_message(a, b),
{
    lemma_member_names();
    let ours = message_view(a)->Object_0;
    let theirs = message_view(b)->Object_0;
    assert(distinct_names(theirs));
    let f = |item: AttachmentView| attachment_view(item);
    let all = a.attachments.map_values(f);
    let others = b.attachments.map_values(f);
    lemma_members_agree(ours, theirs, 0, 0);
    lemma_members_agree(ours, theirs, 1, 1);
    lemma_members_agree(ours, theirs, 2, 2);
    lemma_members_agree(ours, theirs, 3, 3);
    lemma_members_agree(ours, theirs, 4, 4);
    lemma_members_agree(ours, theirs, 5, 5);
    lemma_members_agree(ours, theirs, 6, 6);
    lemma_members_agree(ours, theirs, 7, 7);
    lemma_members_agree(ours, theirs, 8, 8);
    lemma_members_agree(ours, theirs, 9, 9);
    lemma_members_agree(ours, theirs, 10, 10);
    law_the_json_of_a_contact_tells_it(a.sender, b.sender);
    assert(ours[7].1 == JsonView::Array(all) && theirs[7].1 == JsonView::Array(others));
    lemma_items_agree(all, others);
    assert forall|i: int| 0 <= i < a.attachments.len() implies a.attachments[i]
        == b.attachments[i] by {
        assert(canonical(all[i]) == canonical(others[i]));
        law_the_json_of_an_attachment_tells_it(a.attachments[i], b.attachments[i]);
    }
    assert(a.attachments =~= b.attachments);
    law_kinds_have_names_of_their_own(a.kind, b.kind);
}

/// Whether two mutations do the same, but for the order of the members of metadata. IDs and times
/// count by the texts in which they stand in JSON.
pub open spec fn same_mutation(a: IngestMutationView, b: IngestMutationView) -> bool {
    match (a, b) {
        (IngestMutationView::UpsertContact(x), IngestMutationView::UpsertContact(y)) => {
            same_contact(x, y)
        },
        (IngestMutationView::UpsertThread(x), IngestMutationView::UpsertThread(y)) => {
            same_thread(x, y)
        },
        (
            IngestMutationView::ArchiveThread { source, source_id },
            IngestMutationView::ArchiveThread { source: other, source_id: its_id },
        ) => source == other && source_id == its_id,
        (IngestMutationView::AppendMessage(x), IngestMutationView::AppendMessage(y)) => {
            same_message(x, y)
        },
        _ => false,
    }
}

/// The member that tells what a mutation does.
spec fn kind_place(mutation: IngestMutationView) -> int {
    if mutation is AppendMessage {
        5
    } else {
        0
    }
}

proof fn lemma_kind_member(mutation: IngestMutationView)
    ensures
        ({
            let members = mutation_view(mutation)->Object_0;
            let i = kind_place(mutation);
            &&& mutation_view(mutation) == JsonView::Object(members)
            &&& 0 <= i < members.len()
            &&& members[i].0 == "kind"@
            &&& members[i].1 == JsonView::Text(
                match mutation {
                    IngestMutationView::UpsertContact(_) => "upsert_contact"@,
                    IngestMutationView::UpsertThread(_) => "upsert_thread"@,
                    IngestMutationView::ArchiveThread { .. } => "archive_thread"@,
                    IngestMutationView::AppendMessage(message) => message.kind.wire_name(),
                },
            )
            &&& forall|j: int| 0 <= j < members.len() && j != i ==> (#[trigger] members[j]).0
                != "kind"@
        }),
{
    lemma_member_names();
    let members = mutation_view(mutation)->Object_0;
    match mutation {
        IngestMutationView::UpsertContact(contact) => {
            let fields = contact_members(contact);
            let m = instance_len(contact.provider_instance);
            assert(fields[m].0 == "id"@ && fields[m + 1].0 == "source"@ && fields[m + 2].0
                == "source_id"@);
            assert(fields[m + 3].0 == "display_name"@ && fields[m + 4].0 == "avatar_url"@ && fields[m
                + 5].0 == "metadata"@);
            assert(m == 1 ==> fields[0].0 == "provider_instance"@);
            assert forall|j: int| 0 <= j < members.len() && j != 0 implies (#[trigger] members[j]).0
                != "kind"@ by {
                assert(members[j] == fields[j - 1]);
            }
        },
        IngestMutationView::UpsertThread(thread) => {
            let fields = thread_members(thread);
            let m = instance_len(thread.provider_instance);
            assert(fields[m].0 == "id"@ && fields[m + 1].0 == "source"@ && fields[m + 2].0
                == "source_id"@);
            assert(fields[m + 3].0 == "title"@ && fields[m + 4].0 == "participants"@ && fields[m
                + 5].0 == "last_message_at"@);
            assert(fields[m + 6].0 == "unread_count"@ && fields[m + 7].0 == "metadata"@);
            assert(m == 1 ==> fields[0].0 == "provider_instance"@);
            assert forall|j: int| 0 <= j < members.len() && j != 0 implies (#[trigger] members[j]).0
                != "kind"@ by {
                assert(members[j] == fields[j - 1]);
            }
        },
        _ => {},
    }
}

proof fn lemma_kind_agrees(a: Members, b: Members, i: int, j: int)
    requires
        canonical(JsonView::Object(a)) == canonical(JsonView::Object(b)),
        0 <= i < a.len(),
        0 <= j < b.len(),
        a[i].0 == b[j].0,
        forall|k: int| 0 <= k < b.len() && k != j ==> (#[trigger] b[k]).0 != b[j].0,
    ensures
        canonical(a[i].1) == canonical(b[j].1),
{
    broadcast use vstd::seq_lib::group_to_multiset_ensures;

    let ours = canonical_members(a);
    let theirs = canonical_members(b);
    lemma_sorted_by(ours, by_key());
    lemma_sorted_by(theirs, by_key());
    assert(sorted_members(ours) == sorted_members(theirs));
    assert(ours[i] == (a[i].0, canonical(a[i].1)));
    assert(ours.contains(ours[i]));
    assert(ours.to_multiset().count(ours[i]) > 0);
    assert(theirs.contains(ours[i]));
    let k = choose|k: int| 0 <= k < theirs.len() && theirs[k] == ours[i];
    assert(b[k].0 == b[j].0);
    assert(theirs[j] == (b[j].0, canonical(b[j].1)));
}

/// The canonical JSON of a mutation tells the mutation.
pub proof fn law_the_json_of_a_mutation_tells_it(a: IngestMutationView, b: IngestMutationView)
    requires
        canonical(mutation_view(a)) == canonical(mutation_view(b)),
    ensures
        same_mutation(a, b),
{
    lemma_kind_names();
    lemma_kind_member(a);
    lemma_kind_member(b);
    let ours = mutation_view(a)->Object_0;
    let theirs = mutation_view(b)->Object_0;
    lemma_kind_agrees(ours, theirs, kind_place(a), kind_place(b));
    match (a, b) {
        (IngestMutationView::UpsertContact(x), IngestMutationView::UpsertContact(y)) => {
            let kind = seq![("kind"@, JsonView::Text("upsert_contact"@))];
            lemma_contact_told(x, y, kind, kind);
        },
        (IngestMutationView::UpsertThread(x), IngestMutationView::UpsertThread(y)) => {
            let kind = seq![("kind"@, JsonView::Text("upsert_thread"@))];
            lemma_thread_told(x, y, kind, kind);
        },
        (IngestMutationView::ArchiveThread { .. }, IngestMutationView::ArchiveThread { .. }) => {
            lemma_member_names();
            assert(distinct_names(theirs));
            lemma_members_agree(ours, theirs, 1, 1);
            lemma_members_agree(ours, theirs, 2, 2);
        },
        (IngestMutationView::AppendMessage(x), IngestMutationView::AppendMessage(y)) => {
            law_the_json_of_a_message_tells_it(x, y);
        },
        _ => {},
    }
}

/// Batches whose hashes are taken of the same bytes do the same one by one.
pub proof fn law_the_hashed_bytes_tell_every_mutation(
    a: IngestBatchView,
    b: IngestBatchView,
    i: int,
)
    requires
        sound_batch(a),
        sound_batch(b),
        batch_bytes(a) == batch_bytes(b),
        0 <= i < a.mutations.len(),
    ensures
        a.mutations.len() == b.mutations.len(),
        same_mutation(a.mutations[i], b.mutations[i]),
        a.source == b.source,
        a.cursor == b.cursor,
{
    law_the_hashed_bytes_tell_the_batch(a, b);
    law_the_json_of_a_mutation_tells_it(a.mutations[i], b.mutations[i]);
}

/// A batch whose key is new is applied now and recorded behind the others with its hash; a known
/// key changes nothing.
pub proof fn law_new_keys_are_recorded(
    records: Seq<ReplayRecordView>,
    batch: IngestBatchView,
    now: Timestamp,
)
    ensures
        (forall|i: int|
            0 <= i < records.len() ==> (#[trigger] records[i]).replay_key != batch.replay_key) ==> {
            &&& replay_outcome(records, batch, now) == (IngestOutcome::Applied { committed_at: now })
            &&& records_after(records, batch, now).len() == records.len() + 1
            &&& records_after(records, batch, now).drop_last() == records
            &&& records_after(records, batch, now).last().replay_key == batch.replay_key
            &&& records_after(records, batch, now).last().hash == batch_hash(batch)
            &&& records_after(records, batch, now).last().committed_at == now
        },
        (exists|i: int|
            0 <= i < records.len() && (#[trigger] records[i]).replay_key == batch.replay_key) ==> {
            &&& !(replay_outcome(records, batch, now) is Applied)
            &&& records_after(records, batch, now) == records
        },
{
    lemma_record_place(records, batch.replay_key);
    assert(records_after(records, batch, now).drop_last() =~= records || records_after(
        records,
        batch,
        now,
    ) == records);
}

/// The names of members are told apart by their lengths and first characters.
proof fn lemma_member_names()
    ensures
        "kind"@.len() == 4 && "kind"@[0] == 'k' && "kind"@[1] == 'i',
        "provider_instance"@.len() == 17
            && "provider_instance"@[0] == 'p' && "provider_instance"@[1] == 'r',
        "id"@.len() == 2 && "id"@[0] == 'i' && "id"@[1] == 'd',
        "source"@.len() == 6 && "source"@[0] == 's' && "source"@[1] == 'o',
        "source_id"@.len() == 9 && "source_id"@[0] == 's' && "source_id"@[1] == 'o',
        "display_name"@.len() == 12 && "display_name"@[0] == 'd' && "display_name"@[1] == 'i',
        "avatar_url"@.len() == 10 && "avatar_url"@[0] == 'a' && "avatar_url"@[1] == 'v',
        "metadata"@.len() == 8 && "metadata"@[0] == 'm' && "metadata"@[1] == 'e',
        "title"@.len() == 5 && "title"@[0] == 't' && "title"@[1] == 'i',
        "participants"@.len() == 12 && "participants"@[0] == 'p' && "participants"@[1] == 'a',
        "last_message_at"@.len() == 15
            && "last_message_at"@[0] == 'l' && "last_message_at"@[1] == 'a',
        "unread_count"@.len() == 12 && "unread_count"@[0] == 'u' && "unread_count"@[1] == 'n',
        "thread_id"@.len() == 9 && "thread_id"@[0] == 't' && "thread_id"@[1] == 'h',
        "sender"@.len() == 6 && "sender"@[0] == 's' && "sender"@[1] == 'e',
        "body"@.len() == 4 && "body"@[0] == 'b' && "body"@[1] == 'o',
        "attachments"@.len() == 11 && "attachments"@[0] == 'a' && "attachments"@[1] == 't',
        "timestamp"@.len() == 9 && "timestamp"@[0] == 't' && "timestamp"@[1] == 'i',
        "is_outbound"@.len() == 11 && "is_outbound"@[0] == 'i' && "is_outbound"@[1] == 's',
        "mime_type"@.len() == 9 && "mime_type"@[0] == 'm' && "mime_type"@[1] == 'i',
        "url"@.len() == 3 && "url"@[0] == 'u' && "url"@[1] == 'r',
        "filename"@.len() == 8 && "filename"@[0] == 'f' && "filename"@[1] == 'i',
        "size"@.len() == 4 && "size"@[0] == 's' && "size"@[1] == 'i',
{
    reveal_strlit("kind");
    reveal_strlit("provider_instance");
    reveal_strlit("id");
    reveal_strlit("source");
    reveal_strlit("source_id");
    reveal_strlit("display_name");
    reveal_strlit("avatar_url");
    reveal_strlit("metadata");
    reveal_strlit("title");
    reveal_strlit("participants");
    reveal_strlit("last_message_at");
    reveal_strlit("unread_count");
    reveal_strlit("thread_id");
    reveal_strlit("sender");
    reveal_strlit("body");
    reveal_strlit("attachments");
    reveal_strlit("timestamp");
    reveal_strlit("is_outbound");
    reveal_strlit("mime_type");
    reveal_strlit("url");
    reveal_strlit("filename");
    reveal_strlit("size");
}

/// The kinds of messages and mutations are told apart by their lengths and characters.
proof fn lemma_kind_names()
    ensures
        "text"@.len() == 4 && "text"@[0] == 't' && "text"@[3] == 't',
        "rich_text"@.len() == 9 && "rich_text"@[0] == 'r' && "rich_text"@[3] == 'h',
        "image"@.len() == 5 && "image"@[0] == 'i' && "image"@[3] == 'g',
        "audio"@.len() == 5 && "audio"@[0] == 'a' && "audio"@[3] == 'i',
        "video"@.len() == 5 && "video"@[0] == 'v' && "video"@[3] == 'e',
        "file"@.len() == 4 && "file"@[0] == 'f' && "file"@[3] == 'e',
        "sticker"@.len() == 7 && "sticker"@[0] == 's' && "sticker"@[3] == 'c',
        "location"@.len() == 8 && "location"@[0] == 'l' && "location"@[3] == 'a',
        "system"@.len() == 6 && "system"@[0] == 's' && "system"@[3] == 't',
        "unknown"@.len() == 7 && "unknown"@[0] == 'u' && "unknown"@[3] == 'n',
        "upsert_contact"@.len() == 14 && "upsert_contact"@[0] == 'u' && "upsert_contact"@[3] == 'e',
        "upsert_thread"@.len() == 13 && "upsert_thread"@[0] == 'u' && "upsert_thread"@[3] == 'e',
        "archive_thread"@.len() == 14 && "archive_thread"@[0] == 'a' && "archive_thread"@[3] == 'h',
{
    reveal_strlit("text");
    reveal_strlit("rich_text");
    reveal_strlit("image");
    reveal_strlit("audio");
    reveal_strlit("video");
    reveal_strlit("file");
    reveal_strlit("sticker");
    reveal_strlit("location");
    reveal_strlit("system");
    reveal_strlit("unknown");
    reveal_strlit("upsert_contact");
    reveal_strlit("upsert_thread");
    reveal_strlit("archive_thread");
}

} // verus!
