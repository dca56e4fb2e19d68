//! Pure Herdr protocol-19 event mapping.
//!
//! Herdr is the system of record for terminal workspaces. This module turns its push-event
//! payloads into deterministic Iris write intents; the ingest seam owns authentication,
//! persistence, audit, and delivery.

use vstd::prelude::*;
use crate::error::prefixed;
use crate::ids::{uuid_v5, Uuid};
use crate::json::{
    canonical, find_member, json_object, json_text, lemma_object_view, lookup, member, member_views,
    sort_members, sorted_members, Json, JsonView,
};
use crate::model::{Contact, ContactView, Message, MessageKind, MessageView, Thread, ThreadView};
use crate::order::lemma_sorted_by;
use crate::text::{blank, is_blank, join, joined, replace_char, replaced, str_eq, views};
use crate::time::Timestamp;

verus! {

/// The namespace of the UUIDs of Herdr's workspaces, agents and events.
pub const UUID_NAMESPACE: u128 = 0xc8a4_bec7_f33d_4fb0_93e1_c45e_0dd2_5cf7;

/// A Herdr event paired with bridge-owned replay identity and receipt time.
#[derive(Debug, PartialEq, Eq)]
pub struct HerdrEvent<'a> {
    /// Stable bridge event ID used as the idempotency key.
    pub event_id: &'a str,
    /// Protocol-19 `{ event, data }` JSON payload.
    pub payload: &'a Json,
    /// Time the bridge received the event.
    pub received_at: Timestamp,
}

/// A deterministic Iris persistence intent produced from a Herdr event.
#[derive(Debug, PartialEq, Eq)]
pub enum HerdrIntent {
    /// Create or update a workspace-backed Iris thread.
    UpsertThread(Thread),
    /// Mark a workspace-backed thread as archived.
    ArchiveThread { thread_id: Uuid, source_id: String },
    /// Create or update a detected agent contact.
    UpsertContact(Contact),
    /// Append an agent-status system message.
    AppendMessage(Message),
    /// Explicitly ignored protocol event, retained for structured logging.
    Dropped { kind: String, reason: &'static str },
}

/// The mathematical value of an intent.
#[verifier::ext_equal]
pub enum HerdrIntentView {
    UpsertThread(ThreadView),
    ArchiveThread { thread_id: Uuid, source_id: Seq<char> },
    UpsertContact(ContactView),
    AppendMessage(MessageView),
    Dropped { kind: Seq<char>, reason: Seq<char> },
}

impl View for HerdrIntent {
    type V = HerdrIntentView;

    open spec fn view(&self) -> HerdrIntentView {
        match *self {
            HerdrIntent::UpsertThread(thread) => HerdrIntentView::UpsertThread(thread@),
            HerdrIntent::ArchiveThread { thread_id, source_id } => HerdrIntentView::ArchiveThread {
                thread_id,
                source_id: source_id@,
            },
            HerdrIntent::UpsertContact(contact) => HerdrIntentView::UpsertContact(contact@),
            HerdrIntent::AppendMessage(message) => HerdrIntentView::AppendMessage(message@),
            HerdrIntent::Dropped { kind, reason } => HerdrIntentView::Dropped {
                kind: kind@,
                reason: reason@,
            },
        }
    }
}

/// Result of mapping one event, including its persistence dedupe key.
#[derive(Debug, PartialEq, Eq)]
pub struct HerdrMapping {
    /// Stable key for deduplicating the bridge's replayed event.
    pub dedupe_key: String,
    /// Ordered writes: contacts and threads precede messages that refer to them.
    pub intents: Vec<HerdrIntent>,
}

/// The members of an object.
pub type Members = Seq<(Seq<char>, JsonView)>;

/// The first of two optional values that is there.
pub open spec fn either<A>(first: Option<A>, second: Option<A>) -> Option<A> {
    if first is Some {
        first
    } else {
        second
    }
}

/// The text of the member named `key`.
pub open spec fn text_member(data: Members, key: Seq<char>) -> Option<Seq<char>> {
    JsonView::Object(data).member_text(key)
}

/// The text of the member `key` of the object that is the member `outer`.
pub open spec fn nested_text(data: Members, outer: Seq<char>, key: Seq<char>) -> Option<Seq<char>> {
    match find_member(data, outer) {
        Some(value) => value.member_text(key),
        None => None,
    }
}

/// The text, or a default where there is none.
pub open spec fn text_or(text: Option<Seq<char>>, default: Seq<char>) -> Seq<char> {
    match text {
        Some(text) => text,
        None => default,
    }
}

/// The event data, if it is an object.
pub open spec fn event_data(payload: JsonView) -> Option<Members> {
    match payload.member("data"@) {
        Some(JsonView::Object(members)) => Some(members),
        _ => None,
    }
}

/// The kind of an event: its `event`, else the `type` of its data, with `_` for `.`.
pub open spec fn event_kind(payload: JsonView) -> Seq<char> {
    let in_data = match event_data(payload) {
        Some(data) => text_member(data, "type"@),
        None => None,
    };
    replaced(text_or(either(payload.member_text("event"@), in_data), "unknown"@), '.', '_')
}

/// The workspace that event data names.
pub open spec fn workspace_of(data: Members) -> Option<Seq<char>> {
    either(text_member(data, "workspace_id"@), nested_text(data, "workspace"@, "workspace_id"@))
}

/// The texts among some values, in order.
pub open spec fn texts(items: Seq<JsonView>) -> Seq<Seq<char>>
    decreases items.len(),
{
    if items.len() == 0 {
        seq![]
    } else {
        match items.last().text() {
            Some(text) => texts(items.drop_last()).push(text),
            None => texts(items.drop_last()),
        }
    }
}

/// All workspaces that event data names.
pub open spec fn workspaces_of(data: Members) -> Seq<Seq<char>> {
    match workspace_of(data) {
        Some(id) => seq![id],
        None => match find_member(data, "workspace_ids"@) {
            Some(JsonView::Array(items)) => texts(items),
            _ => seq![],
        },
    }
}

/// The workspace that a tab event names.
pub open spec fn tab_workspace_of(data: Members) -> Option<Seq<char>> {
    either(workspace_of(data), nested_text(data, "tab"@, "workspace_id"@))
}

/// The workspace that a pane event names.
pub open spec fn pane_workspace_of(data: Members) -> Option<Seq<char>> {
    either(workspace_of(data), nested_text(data, "pane"@, "workspace_id"@))
}

/// The pane that event data names.
pub open spec fn pane_of(data: Members) -> Option<Seq<char>> {
    either(text_member(data, "pane_id"@), nested_text(data, "pane"@, "pane_id"@))
}

/// The UUID of a workspace's thread.
pub open spec fn thread_id_of(source_id: Seq<char>) -> Uuid {
    Uuid::named(UUID_NAMESPACE, "thread:"@ + source_id)
}

/// The UUID of an agent's contact.
pub open spec fn contact_id_of(source_id: Seq<char>) -> Uuid {
    Uuid::named(UUID_NAMESPACE, "contact:"@ + source_id)
}

/// The UUID of an event's message.
pub open spec fn message_id_of(source_id: Seq<char>) -> Uuid {
    Uuid::named(UUID_NAMESPACE, "message:"@ + source_id)
}

/// The thread of a workspace.
pub open spec fn thread_of(
    id: Seq<char>,
    title: Option<Seq<char>>,
    at: Timestamp,
    metadata: JsonView,
) -> ThreadView {
    ThreadView {
        id: thread_id_of(id),
        source: "herdr"@,
        source_id: id,
        provider_instance: None,
        title,
        participants: seq![],
        last_message_at: at,
        unread_count: None,
        metadata,
    }
}

/// The thread of a workspace object, if it names the workspace.
pub open spec fn workspace_thread_of(value: JsonView, at: Timestamp) -> Option<ThreadView> {
    match value {
        JsonView::Object(workspace) => match workspace_of(workspace) {
            Some(id) => Some(
                thread_of(
                    id,
                    text_member(workspace, "label"@),
                    at,
                    JsonView::Object(sorted_members(workspace)),
                ),
            ),
            None => None,
        },
        _ => None,
    }
}

/// Metadata that holds the kind of the event alone.
pub open spec fn kind_metadata(kind: Seq<char>) -> JsonView {
    JsonView::Object(seq![("event"@, JsonView::Text(kind))])
}

/// Metadata that holds the kind of the event and its canonical data.
pub open spec fn data_metadata(kind: Seq<char>, data: Members) -> JsonView {
    JsonView::Object(
        seq![("data"@, canonical(JsonView::Object(data))), ("event"@, JsonView::Text(kind))],
    )
}

/// The contact of an agent on a host.
pub open spec fn agent_of(agent: Seq<char>, host: Seq<char>) -> ContactView {
    let source_id = host + ":"@ + agent;
    ContactView {
        id: contact_id_of(source_id),
        source: "herdr"@,
        source_id,
        provider_instance: None,
        display_name: Some(agent),
        avatar_url: None,
        metadata: JsonView::Object(
            seq![("agent"@, JsonView::Text(agent)), ("host"@, JsonView::Text(host))],
        ),
    }
}

/// The state labels of event data in the order of their names.
pub open spec fn labels_of(data: Members) -> Members {
    match find_member(data, "state_labels"@) {
        Some(JsonView::Object(labels)) => sorted_members(labels),
        _ => sorted_members(seq![]),
    }
}

/// The labels that are texts, each as `name=text`.
pub open spec fn label_texts(labels: Members) -> Seq<Seq<char>>
    decreases labels.len(),
{
    if labels.len() == 0 {
        seq![]
    } else {
        let rest = label_texts(labels.drop_last());
        match labels.last().1.text() {
            Some(text) => rest.push(labels.last().0 + "="@ + text),
            None => rest,
        }
    }
}

/// The labels in brackets behind a status, nothing if there are none.
pub open spec fn labels_suffix_of(labels: Members) -> Seq<char> {
    if labels.len() == 0 {
        seq![]
    } else {
        " ("@ + joined(label_texts(labels), ", "@) + ")"@
    }
}

/// A dropped event.
pub open spec fn drop_of(kind: Seq<char>, reason: Seq<char>) -> Seq<HerdrIntentView> {
    seq![HerdrIntentView::Dropped { kind, reason }]
}

/// An upsert of one thread that keeps the event's data, or a drop where no workspace is named.
pub open spec fn upsert_or_drop(
    workspace: Option<Seq<char>>,
    kind: Seq<char>,
    data: Members,
    at: Timestamp,
) -> Seq<HerdrIntentView> {
    match workspace {
        Some(id) => seq![
            HerdrIntentView::UpsertThread(thread_of(id, None, at, data_metadata(kind, data))),
        ],
        None => drop_of(kind, "missing workspace_id"@),
    }
}

/// The upserts of the threads of some workspaces.
pub open spec fn upserts_of(
    ids: Seq<Seq<char>>,
    kind: Seq<char>,
    data: Members,
    at: Timestamp,
) -> Seq<HerdrIntentView> {
    ids.map_values(
        |id: Seq<char>|
            HerdrIntentView::UpsertThread(thread_of(id, None, at, data_metadata(kind, data))),
    )
}

/// The message of an agent-status event.
pub open spec fn status_message_of(
    kind: Seq<char>,
    data: Members,
    event_id: Seq<char>,
    at: Timestamp,
    workspace: Seq<char>,
    pane: Seq<char>,
) -> MessageView {
    let status = text_or(text_member(data, "agent_status"@), "unknown"@);
    let agent = status_agent_of(data);
    MessageView {
        id: message_id_of(event_id),
        thread_id: thread_id_of(workspace),
        source: "herdr"@,
        source_id: event_id,
        sender: agent_of(agent, status_host_of(data)),
        kind: MessageKind::System,
        body: agent + ": "@ + status + labels_suffix_of(labels_of(data)),
        attachments: seq![],
        timestamp: at,
        is_outbound: false,
        metadata: JsonView::Object(
            seq![
                ("agent_status"@, JsonView::Text(status)),
                ("data"@, canonical(JsonView::Object(data))),
                ("event"@, JsonView::Text(kind)),
                ("pane_id"@, JsonView::Text(pane)),
                ("state_labels"@, JsonView::Object(labels_of(data))),
            ],
        ),
    }
}

/// The agent that a status event speaks of.
pub open spec fn status_agent_of(data: Members) -> Seq<char> {
    text_or(either(text_member(data, "agent"@), text_member(data, "display_agent"@)), "unknown"@)
}

/// The host that a status event speaks of.
pub open spec fn status_host_of(data: Members) -> Seq<char> {
    text_or(text_member(data, "host"@), "unknown-host"@)
}

/// What an agent-status event asks for: the contact, the thread, then the message.
pub open spec fn agent_status_of(
    kind: Seq<char>,
    data: Members,
    event_id: Seq<char>,
    at: Timestamp,
) -> Seq<HerdrIntentView> {
    match workspace_of(data) {
        None => drop_of(kind, "missing workspace_id"@),
        Some(workspace) => match pane_of(data) {
            Some(pane) if !blank(pane) => seq![
                HerdrIntentView::UpsertContact(
                    agent_of(status_agent_of(data), status_host_of(data)),
                ),
                HerdrIntentView::UpsertThread(
                    thread_of(workspace, None, at, data_metadata(kind, data)),
                ),
                HerdrIntentView::AppendMessage(
                    status_message_of(kind, data, event_id, at, workspace, pane),
                ),
            ],
            _ => drop_of(kind, "missing pane_id"@),
        },
    }
}

/// What a pane move asks for: the created workspace, the closed one, then the current one.
pub open spec fn pane_moved_of(kind: Seq<char>, data: Members, at: Timestamp) -> Seq<
    HerdrIntentView,
> {
    let created = match find_member(data, "created_workspace"@) {
        Some(value) => match workspace_thread_of(value, at) {
            Some(thread) => seq![HerdrIntentView::UpsertThread(thread)],
            None => seq![],
        },
        None => seq![],
    };
    let closed = match text_member(data, "closed_workspace_id"@) {
        Some(id) => seq![
            HerdrIntentView::ArchiveThread { thread_id: thread_id_of(id), source_id: id },
        ],
        None => seq![],
    };
    let current = match pane_workspace_of(data) {
        Some(id) => seq![
            HerdrIntentView::UpsertThread(thread_of(id, None, at, data_metadata(kind, data))),
        ],
        None => seq![],
    };
    let all = created + closed + current;
    if all.len() == 0 {
        drop_of(kind, "missing workspace identity"@)
    } else {
        all
    }
}

/// Whether a kind carries a workspace object.
pub open spec fn carries_workspace(kind: Seq<char>) -> bool {
    kind == "workspace_created"@ || kind == "workspace_updated"@ || kind
        == "workspace_metadata_updated"@
}

/// Whether a kind touches workspaces without changing what they are.
pub open spec fn touches_workspaces(kind: Seq<char>) -> bool {
    kind == "workspace_moved"@ || kind == "workspace_reordered"@ || kind == "workspace_focused"@
}

/// Whether a kind is one of a tab.
pub open spec fn tab_kind(kind: Seq<char>) -> bool {
    kind == "tab_created"@ || kind == "tab_closed"@ || kind == "tab_renamed"@ || kind
        == "tab_moved"@ || kind == "tab_focused"@
}

/// Whether a kind is one of a pane that refreshes the pane's workspace.
pub open spec fn pane_kind(kind: Seq<char>) -> bool {
    kind == "pane_created"@ || kind == "pane_updated"@ || kind == "pane_focused"@ || kind
        == "pane_exited"@ || kind == "pane_agent_detected"@
}

/// Whether a kind is known and deliberately ignored.
pub open spec fn ignored_kind(kind: Seq<char>) -> bool {
    kind == "worktree_created"@ || kind == "worktree_opened"@ || kind == "worktree_removed"@
        || kind == "layout_updated"@ || kind == "pane_output_changed"@ || kind
        == "pane_output_matched"@ || kind == "pane_scroll_changed"@ || kind == "pane_closed"@
}

/// What an event whose data is an object asks for.
pub open spec fn intents_with_data(
    kind: Seq<char>,
    data: Members,
    event_id: Seq<char>,
    at: Timestamp,
) -> Seq<HerdrIntentView> {
    if carries_workspace(kind) {
        match find_member(data, "workspace"@) {
            Some(value) => match workspace_thread_of(value, at) {
                Some(thread) => seq![HerdrIntentView::UpsertThread(thread)],
                None => drop_of(kind, "missing workspace identity"@),
            },
            None => drop_of(kind, "missing workspace identity"@),
        }
    } else if kind == "workspace_renamed"@ {
        match workspace_of(data) {
            Some(id) => seq![
                HerdrIntentView::UpsertThread(
                    thread_of(id, text_member(data, "label"@), at, kind_metadata(kind)),
                ),
            ],
            None => drop_of(kind, "missing workspace_id"@),
        }
    } else if kind == "workspace_closed"@ {
        match workspace_of(data) {
            Some(id) => seq![
                HerdrIntentView::ArchiveThread { thread_id: thread_id_of(id), source_id: id },
            ],
            None => drop_of(kind, "missing workspace_id"@),
        }
    } else if touches_workspaces(kind) {
        if workspaces_of(data).len() == 0 {
            drop_of(kind, "missing workspace identity"@)
        } else {
            upserts_of(workspaces_of(data), kind, data, at)
        }
    } else if tab_kind(kind) {
        upsert_or_drop(tab_workspace_of(data), kind, data, at)
    } else if kind == "pane_moved"@ {
        pane_moved_of(kind, data, at)
    } else if pane_kind(kind) {
        upsert_or_drop(pane_workspace_of(data), kind, data, at)
    } else if kind == "pane_agent_status_changed"@ {
        agent_status_of(kind, data, event_id, at)
    } else if ignored_kind(kind) {
        drop_of(kind, "out of scope for v1"@)
    } else {
        drop_of(kind, "unknown or malformed protocol event"@)
    }
}

/// What an event asks for.
pub open spec fn intents_of(event_id: Seq<char>, payload: JsonView, at: Timestamp) -> Seq<
    HerdrIntentView,
> {
    let kind = event_kind(payload);
    if blank(event_id) {
        drop_of("unknown"@, "missing bridge event_id"@)
    } else {
        match event_data(payload) {
            Some(data) => intents_with_data(kind, data, event_id, at),
            None => if ignored_kind(kind) {
                drop_of(kind, "out of scope for v1"@)
            } else {
                drop_of(kind, "unknown or malformed protocol event"@)
            },
        }
    }
}

/// The dedupe key of an event.
pub open spec fn dedupe_key_of(event_id: Seq<char>) -> Seq<char> {
    if blank(event_id) {
        "herdr:invalid-event-id"@
    } else {
        "herdr:"@ + event_id
    }
}

fn get_text<'a>(data: &'a Vec<(String, Json)>, key: &str) -> (r: Option<&'a str>)
    ensures
        r matches Some(text) ==> text_member(member_views(data@), key@) == Some(text@),
        r is None ==> text_member(member_views(data@), key@) is None,
{
    match lookup(data, key) {
        Some(value) => value.as_str(),
        None => None,
    }
}

fn get_nested<'a>(data: &'a Vec<(String, Json)>, outer: &str, key: &str) -> (r: Option<&'a str>)
    ensures
        r matches Some(text) ==> nested_text(member_views(data@), outer@, key@) == Some(text@),
        r is None ==> nested_text(member_views(data@), outer@, key@) is None,
{
    match lookup(data, outer) {
        Some(value) => value.get_str(key),
        None => None,
    }
}

fn workspace_id(data: &Vec<(String, Json)>) -> (r: Option<&str>)
    ensures
        r matches Some(id) ==> workspace_of(member_views(data@)) == Some(id@),
        r is None ==> workspace_of(member_views(data@)) is None,
{
    match get_text(data, "workspace_id") {
        Some(id) => Some(id),
        None => get_nested(data, "workspace", "workspace_id"),
    }
}

fn workspace_id_from_tab_event(data: &Vec<(String, Json)>) -> (r: Option<&str>)
    ensures
        r matches Some(id) ==> tab_workspace_of(member_views(data@)) == Some(id@),
        r is None ==> tab_workspace_of(member_views(data@)) is None,
{
    match workspace_id(data) {
        Some(id) => Some(id),
        None => get_nested(data, "tab", "workspace_id"),
    }
}

fn workspace_id_from_pane_event(data: &Vec<(String, Json)>) -> (r: Option<&str>)
    ensures
        r matches Some(id) ==> pane_workspace_of(member_views(data@)) == Some(id@),
        r is None ==> pane_workspace_of(member_views(data@)) is None,
{
    match workspace_id(data) {
        Some(id) => Some(id),
        None => get_nested(data, "pane", "workspace_id"),
    }
}

fn pane_id(data: &Vec<(String, Json)>) -> (r: Option<&str>)
    ensures
        r matches Some(id) ==> pane_of(member_views(data@)) == Some(id@),
        r is None ==> pane_of(member_views(data@)) is None,
{
    match get_text(data, "pane_id") {
        Some(id) => Some(id),
        None => get_nested(data, "pane", "pane_id"),
    }
}

fn workspace_ids(data: &Vec<(String, Json)>) -> (r: Vec<String>)
    ensures
        views(r@) == workspaces_of(member_views(data@)),
{
    let mut out: Vec<String> = Vec::new();
    if let Some(id) = workspace_id(data) {
        out.push(id.to_owned());
        assert(views(out@) =~= workspaces_of(member_views(data@)));
        return out;
    }
    if let Some(value) = lookup(data, "workspace_ids") {
        if let Json::Array(items) = value {
            let ghost all = views(items@);
            proof {
                crate::json::lemma_array_view(*items);
            }
            let mut i: usize = 0;
            assert(all.take(0) =~= seq![]);
            assert(views(out@) =~= texts(all.take(0)));
            while i < items.len()
                invariant
                    i <= items@.len(),
                    all == views(items@),
                    views(out@) == texts(all.take(i as int)),
                decreases items@.len() - i,
            {
                let ghost before = out@;
                let ghost next = all.take(i + 1);
                proof {
                    assert(next.drop_last() =~= all.take(i as int));
                    assert(next.last() == items@[i as int]@);
                }
                if let Some(text) = items[i].as_str() {
                    out.push(text.to_owned());
                    assert(views(out@) =~= views(before).push(text@));
                }
                i += 1;
            }
            assert(all.take(all.len() as int) =~= all);
            return out;
        }
    }
    assert(views(out@) =~= seq![]);
    out
}

/// The UUID of a workspace's thread.
pub fn thread_uuid(source_id: &str) -> (r: Uuid)
    ensures
        r == thread_id_of(source_id@),
{
    Uuid::of_name(UUID_NAMESPACE, prefixed("thread:", source_id).as_str())
}

fn contact_uuid(source_id: &str) -> (r: Uuid)
    ensures
        r == contact_id_of(source_id@),
{
    Uuid::of_name(UUID_NAMESPACE, prefixed("contact:", source_id).as_str())
}

fn message_uuid(source_id: &str) -> (r: Uuid)
    ensures
        r == message_id_of(source_id@),
{
    Uuid::of_name(UUID_NAMESPACE, prefixed("message:", source_id).as_str())
}

fn thread_with_metadata(id: &str, title: Option<&str>, at: Timestamp, metadata: Json) -> (r: Thread)
    ensures
        r@ == thread_of(
            id@,
            match title {
                Some(title) => Some(title@),
                None => None,
            },
            at,
            metadata@,
        ),
{
    let r = Thread {
        id: thread_uuid(id),
        source: "herdr".to_owned(),
        source_id: id.to_owned(),
        provider_instance: None,
        title: match title {
            Some(title) => Some(title.to_owned()),
            None => None,
        },
        participants: Vec::new(),
        last_message_at: at,
        unread_count: None,
        metadata,
    };
    assert(views(r.participants@) =~= seq![]);
    r
}

fn event_metadata(kind: &str) -> (r: Json)
    ensures
        r@ == kind_metadata(kind@),
{
    let mut members: Vec<(String, Json)> = Vec::new();
    members.push(member("event", json_text(kind)));
    assert(member_views(members@) =~= seq![("event"@, JsonView::Text(kind@))]);
    json_object(members)
}

fn canonical_data(data: &Vec<(String, Json)>) -> (r: Json)
    ensures
        r@ == canonical(JsonView::Object(member_views(data@))),
{
    let mut members: Vec<(String, Json)> = Vec::new();
    let mut i: usize = 0;
    while i < data.len()
        invariant
            i <= data@.len(),
            members@.len() == i,
            forall|j: int|
                0 <= j < i ==> (#[trigger] members@[j]).0@ == data@[j].0@ && members@[j].1@
                    == data@[j].1@,
        decreases data@.len() - i,
    {
        members.push((data[i].0.clone(), data[i].1.clone()));
        i += 1;
    }
    assert(member_views(members@) =~= member_views(data@));
    json_object(members).canonicalize()
}

fn event_data_metadata(kind: &str, data: &Vec<(String, Json)>) -> (r: Json)
    ensures
        r@ == data_metadata(kind@, member_views(data@)),
{
    let mut members: Vec<(String, Json)> = Vec::new();
    members.push(member("data", canonical_data(data)));
    members.push(member("event", json_text(kind)));
    assert(member_views(members@) =~= seq![
        ("data"@, canonical(JsonView::Object(member_views(data@)))),
        ("event"@, JsonView::Text(kind@)),
    ]);
    json_object(members)
}

fn sorted_object(object: Option<&Vec<(String, Json)>>) -> (r: Vec<(String, Json)>)
    ensures
        member_views(r@) == sorted_members(
            match object {
                Some(members) => member_views(members@),
                None => seq![],
            },
        ),
{
    let mut members: Vec<(String, Json)> = Vec::new();
    if let Some(object) = object {
        let mut i: usize = 0;
        while i < object.len()
            invariant
                i <= object@.len(),
                members@.len() == i,
                forall|j: int|
                    0 <= j < i ==> (#[trigger] members@[j]).0@ == object@[j].0@ && members@[j].1@
                        == object@[j].1@,
            decreases object@.len() - i,
        {
            members.push((object[i].0.clone(), object[i].1.clone()));
            i += 1;
        }
        assert(member_views(members@) =~= member_views(object@));
    } else {
        assert(member_views(members@) =~= seq![]);
    }
    sort_members(members)
}

fn workspace_thread(value: &Json, received_at: Timestamp) -> (r: Option<Thread>)
    ensures
        r matches Some(thread) ==> workspace_thread_of(value@, received_at) == Some(thread@),
        r is None ==> workspace_thread_of(value@, received_at) is None,
{
    match value {
        Json::Object(workspace) => {
            proof {
                lemma_object_view(*workspace);
            }
            match workspace_id(workspace) {
                Some(id) => Some(
                    thread_with_metadata(
                        id,
                        get_text(workspace, "label"),
                        received_at,
                        json_object(sorted_object(Some(workspace))),
                    ),
                ),
                None => None,
            }
        },
        _ => None,
    }
}

fn agent_contact(agent: &str, host: &str) -> (r: Contact)
    ensures
        r@ == agent_of(agent@, host@),
{
    let mut source_id = prefixed(host, ":");
    source_id.append(agent);
    let mut members: Vec<(String, Json)> = Vec::new();
    members.push(member("agent", json_text(agent)));
    members.push(member("host", json_text(host)));
    assert(member_views(members@) =~= seq![
        ("agent"@, JsonView::Text(agent@)),
        ("host"@, JsonView::Text(host@)),
    ]);
    Contact {
        id: contact_uuid(source_id.as_str()),
        source: "herdr".to_owned(),
        source_id,
        provider_instance: None,
        display_name: Some(agent.to_owned()),
        avatar_url: None,
        metadata: json_object(members),
    }
}

fn labels_suffix(labels: &Vec<(String, Json)>) -> (r: String)
    ensures
        r@ == labels_suffix_of(member_views(labels@)),
{
    let ghost all = member_views(labels@);
    if labels.len() == 0 {
        return String::new();
    }
    let mut parts: Vec<String> = Vec::new();
    let mut i: usize = 0;
    assert(all.take(0) =~= seq![]);
    assert(views(parts@) =~= label_texts(all.take(0)));
    while i < labels.len()
        invariant
            i <= labels@.len(),
            all == member_views(labels@),
            views(parts@) == label_texts(all.take(i as int)),
        decreases labels@.len() - i,
    {
        let ghost before = parts@;
        let ghost next = all.take(i + 1);
        proof {
            assert(next.drop_last() =~= all.take(i as int));
            assert(next.last() == all[i as int]);
        }
        if let Some(text) = labels[i].1.as_str() {
            let mut part = prefixed(labels[i].0.as_str(), "=");
            part.append(text);
            parts.push(part);
            assert(views(parts@) =~= views(before).push(part@));
        }
        i += 1;
    }
    assert(all.take(all.len() as int) =~= all);
    let mut out = prefixed(" (", join(&parts, ", ").as_str());
    out.append(")");
    out
}

fn dropped(kind: &str, reason: &'static str) -> (r: Vec<HerdrIntent>)
    ensures
        views(r@) == drop_of(kind@, reason@),
{
    let mut out: Vec<HerdrIntent> = Vec::new();
    out.push(HerdrIntent::Dropped { kind: kind.to_owned(), reason });
    assert(views(out@) =~= drop_of(kind@, reason@));
    out
}

fn one(intent: HerdrIntent) -> (r: Vec<HerdrIntent>)
    ensures
        views(r@) == seq![intent@],
{
    let mut out: Vec<HerdrIntent> = Vec::new();
    out.push(intent);
    assert(views(out@) =~= seq![intent@]);
    out
}

fn archive(id: &str) -> (r: HerdrIntent)
    ensures
        r@ == (HerdrIntentView::ArchiveThread { thread_id: thread_id_of(id@), source_id: id@ }),
{
    HerdrIntent::ArchiveThread { thread_id: thread_uuid(id), source_id: id.to_owned() }
}

fn refresh(id: &str, kind: &str, data: &Vec<(String, Json)>, at: Timestamp) -> (r: HerdrIntent)
    ensures
        r@ == HerdrIntentView::UpsertThread(
            thread_of(id@, None, at, data_metadata(kind@, member_views(data@))),
        ),
{
    HerdrIntent::UpsertThread(thread_with_metadata(id, None, at, event_data_metadata(kind, data)))
}

fn refresh_or_drop(
    workspace: Option<&str>,
    kind: &str,
    data: &Vec<(String, Json)>,
    at: Timestamp,
) -> (r: Vec<HerdrIntent>)
    ensures
        views(r@) == upsert_or_drop(
            match workspace {
                Some(id) => Some(id@),
                None => None,
            },
            kind@,
            member_views(data@),
            at,
        ),
{
    match workspace {
        Some(id) => one(refresh(id, kind, data, at)),
        None => dropped(kind, "missing workspace_id"),
    }
}

fn map_agent_status(
    kind: &str,
    data: &Vec<(String, Json)>,
    event: &HerdrEvent<'_>,
) -> (r: Vec<HerdrIntent>)
    ensures
        views(r@) == agent_status_of(
            kind@,
            member_views(data@),
            event.event_id@,
            event.received_at,
        ),
{
    let workspace = match workspace_id(data) {
        Some(id) => id,
        None => return dropped(kind, "missing workspace_id"),
    };
    let pane = match pane_id(data) {
        Some(id) => id,
        None => return dropped(kind, "missing pane_id"),
    };
    if is_blank(pane) {
        return dropped(kind, "missing pane_id");
    }
    let status = match get_text(data, "agent_status") {
        Some(status) => status,
        None => "unknown",
    };
    let agent = match get_text(data, "agent") {
        Some(agent) => agent,
        None => match get_text(data, "display_agent") {
            Some(agent) => agent,
            None => "unknown",
        },
    };
    let host = match get_text(data, "host") {
        Some(host) => host,
        None => "unknown-host",
    };
    let contact = agent_contact(agent, host);
    let labels = match lookup(data, "state_labels") {
        Some(Json::Object(labels)) => {
            proof {
                lemma_object_view(*labels);
            }
            sorted_object(Some(labels))
        },
        _ => sorted_object(None),
    };
    assert(member_views(labels@) == labels_of(member_views(data@)));
    let mut body = prefixed(agent, ": ");
    body.append(status);
    body.append(labels_suffix(&labels).as_str());
    let mut members: Vec<(String, Json)> = Vec::new();
    members.push(member("agent_status", json_text(status)));
    members.push(member("data", canonical_data(data)));
    members.push(member("event", json_text(kind)));
    members.push(member("pane_id", json_text(pane)));
    members.push(member("state_labels", json_object(labels)));
    let metadata = json_object(members);
    let message = Message {
        id: message_uuid(event.event_id),
        thread_id: thread_uuid(workspace),
        source: "herdr".to_owned(),
        source_id: event.event_id.to_owned(),
        sender: contact.clone(),
        kind: MessageKind::System,
        body,
        attachments: Vec::new(),
        timestamp: event.received_at,
        is_outbound: false,
        metadata,
    };
    proof {
        let expected = status_message_of(
            kind@,
            member_views(data@),
            event.event_id@,
            event.received_at,
            workspace@,
            pane@,
        );
        assert(member_views(members@) =~= expected.metadata->Object_0);
        assert(views(message.attachments@) =~= seq![]);
        assert(message@ =~= expected);
    }
    let mut out: Vec<HerdrIntent> = Vec::new();
    out.push(HerdrIntent::UpsertContact(contact));
    out.push(refresh(workspace, kind, data, event.received_at));
    out.push(HerdrIntent::AppendMessage(message));
    assert(views(out@) =~= agent_status_of(
        kind@,
        member_views(data@),
        event.event_id@,
        event.received_at,
    ));
    out
}

fn map_pane_moved(kind: &str, data: &Vec<(String, Json)>, received_at: Timestamp) -> (r: Vec<
    HerdrIntent,
>)
    ensures
        views(r@) == pane_moved_of(kind@, member_views(data@), received_at),
{
    let mut intents: Vec<HerdrIntent> = Vec::new();
    let ghost mut expected: Seq<HerdrIntentView> = seq![];
    assert(views(intents@) =~= expected);
    if let Some(workspace) = lookup(data, "created_workspace") {
        if let Some(thread) = workspace_thread(workspace, received_at) {
            intents.push(HerdrIntent::UpsertThread(thread));
            proof {
                expected = expected + seq![HerdrIntentView::UpsertThread(thread@)];
            }
            assert(views(intents@) =~= expected);
        }
    }
    if let Some(closed) = get_text(data, "closed_workspace_id") {
        let intent = archive(closed);
        intents.push(intent);
        proof {
            expected = expected + seq![intent@];
        }
        assert(views(intents@) =~= expected);
    }
    if let Some(current) = workspace_id_from_pane_event(data) {
        let intent = refresh(current, kind, data, received_at);
        intents.push(intent);
        proof {
            expected = expected + seq![intent@];
        }
        assert(views(intents@) =~= expected);
    }
    if intents.len() == 0 {
        assert(pane_moved_of(kind@, member_views(data@), received_at) == drop_of(
            kind@,
            "missing workspace identity"@,
        ));
        dropped(kind, "missing workspace identity")
    } else {
        assert(views(intents@).len() > 0);
        assert(views(intents@) =~= pane_moved_of(kind@, member_views(data@), received_at));
        intents
    }
}

fn is_one_of(kind: &str, a: &str, b: &str, c: &str) -> (r: bool)
    ensures
        r == (kind@ == a@ || kind@ == b@ || kind@ == c@),
{
    str_eq(kind, a) || str_eq(kind, b) || str_eq(kind, c)
}

fn is_ignored(kind: &str) -> (r: bool)
    ensures
        r == ignored_kind(kind@),
{
    is_one_of(kind, "worktree_created", "worktree_opened", "worktree_removed") || is_one_of(
        kind,
        "layout_updated",
        "pane_output_changed",
        "pane_output_matched",
    ) || str_eq(kind, "pane_scroll_changed") || str_eq(kind, "pane_closed")
}

fn map_data(kind: &str, data: &Vec<(String, Json)>, event: &HerdrEvent<'_>) -> (r: Vec<HerdrIntent>)
    ensures
        views(r@) == intents_with_data(
            kind@,
            member_views(data@),
            event.event_id@,
            event.received_at,
        ),
{
    let at = event.received_at;
    if is_one_of(kind, "workspace_created", "workspace_updated", "workspace_metadata_updated") {
        if let Some(workspace) = lookup(data, "workspace") {
            if let Some(thread) = workspace_thread(workspace, at) {
                return one(HerdrIntent::UpsertThread(thread));
            }
        }
        dropped(kind, "missing workspace identity")
    } else if str_eq(kind, "workspace_renamed") {
        match workspace_id(data) {
            Some(id) => one(
                HerdrIntent::UpsertThread(
                    thread_with_metadata(id, get_text(data, "label"), at, event_metadata(kind)),
                ),
            ),
            None => dropped(kind, "missing workspace_id"),
        }
    } else if str_eq(kind, "workspace_closed") {
        match workspace_id(data) {
            Some(id) => one(archive(id)),
            None => dropped(kind, "missing workspace_id"),
        }
    } else if is_one_of(kind, "workspace_moved", "workspace_reordered", "workspace_focused") {
        let ids = workspace_ids(data);
        if ids.len() == 0 {
            assert(views(ids@).len() == 0);
            return dropped(kind, "missing workspace identity");
        }
        let mut out: Vec<HerdrIntent> = Vec::new();
        let mut i: usize = 0;
        while i < ids.len()
            invariant
                i <= ids@.len(),
                out@.len() == i,
                forall|j: int|
                    0 <= j < i ==> (#[trigger] out@[j])@ == HerdrIntentView::UpsertThread(
                        thread_of(ids@[j]@, None, at, data_metadata(kind@, member_views(data@))),
                    ),
            decreases ids@.len() - i,
        {
            out.push(refresh(ids[i].as_str(), kind, data, at));
            i += 1;
        }
        assert(views(ids@).len() == ids@.len());
        assert(views(out@) =~= upserts_of(views(ids@), kind@, member_views(data@), at));
        out
    } else if is_one_of(kind, "tab_created", "tab_closed", "tab_renamed") || str_eq(
        kind,
        "tab_moved",
    ) || str_eq(kind, "tab_focused") {
        refresh_or_drop(workspace_id_from_tab_event(data), kind, data, at)
    } else if str_eq(kind, "pane_moved") {
        map_pane_moved(kind, data, at)
    } else if is_one_of(kind, "pane_created", "pane_updated", "pane_focused") || str_eq(
        kind,
        "pane_exited",
    ) || str_eq(kind, "pane_agent_detected") {
        refresh_or_drop(workspace_id_from_pane_event(data), kind, data, at)
    } else if str_eq(kind, "pane_agent_status_changed") {
        map_agent_status(kind, data, event)
    } else if is_ignored(kind) {
        dropped(kind, "out of scope for v1")
    } else {
        dropped(kind, "unknown or malformed protocol event")
    }
}

/// Maps one schema-tolerant protocol-19 event into ordered Iris write intents.
///
/// Unknown future event kinds and malformed payloads are deliberately dropped. Known event kinds
/// with the fields required by their mapping are converted into deterministic UUIDv5-backed Iris
/// models.
pub fn map_event(event: &HerdrEvent<'_>) -> (r: HerdrMapping)
    ensures
        r.dedupe_key@ == dedupe_key_of(event.event_id@),
        views(r.intents@) == intents_of(event.event_id@, event.payload@, event.received_at),
        forall|id: Seq<char>|
            views(r.intents@).contains(#[trigger] archiving(id)) <==> !blank(event.event_id@)
                && closes(event.payload@, id),
{
    proof {
        assert forall|id: Seq<char>|
            intents_of(event.event_id@, event.payload@, event.received_at).contains(
                #[trigger] archiving(id),
            ) <==> !blank(event.event_id@) && closes(event.payload@, id) by {
            law_only_closed_workspaces_are_archived(
                event.event_id@,
                event.payload@,
                event.received_at,
                id,
            );
        }
    }
    if is_blank(event.event_id) {
        return HerdrMapping {
            dedupe_key: "herdr:invalid-event-id".to_owned(),
            intents: dropped("unknown", "missing bridge event_id"),
        };
    }
    let data = match event.payload.get("data") {
        Some(Json::Object(members)) => {
            proof {
                lemma_object_view(*members);
            }
            Some(members)
        },
        _ => None,
    };
    let named = match event.payload.get_str("event") {
        Some(kind) => Some(kind),
        None => match data {
            Some(members) => get_text(members, "type"),
            None => None,
        },
    };
    let kind = replace_char(
        match named {
            Some(kind) => kind,
            None => "unknown",
        },
        '.',
        '_',
    );
    let dedupe_key = prefixed("herdr:", event.event_id);
    let intents = match data {
        Some(members) => map_data(kind.as_str(), members, event),
        None => if is_ignored(kind.as_str()) {
            dropped(kind.as_str(), "out of scope for v1")
        } else {
            dropped(kind.as_str(), "unknown or malformed protocol event")
        },
    };
    HerdrMapping { dedupe_key, intents }
}

/// Every event is answered: with writes, or with one explicit drop and nothing else.
pub proof fn law_every_event_is_answered(event_id: Seq<char>, payload: JsonView, at: Timestamp)
    ensures
        intents_of(event_id, payload, at).len() >= 1,
        forall|i: int|
            0 <= i < intents_of(event_id, payload, at).len() && (#[trigger] intents_of(
                event_id,
                payload,
                at,
            )[i]) is Dropped ==> intents_of(event_id, payload, at).len() == 1,
{
    if let Some(data) = event_data(payload) {
        let kind = event_kind(payload);
        let all = upserts_of(workspaces_of(data), kind, data, at);
        assert forall|i: int| 0 <= i < all.len() implies (#[trigger] all[i]) is UpsertThread by {}
    }
}

/// Writes come in order: before a message stand its sender and its thread.
pub proof fn law_messages_follow_what_they_refer_to(
    event_id: Seq<char>,
    payload: JsonView,
    at: Timestamp,
    i: int,
)
    requires
        0 <= i < intents_of(event_id, payload, at).len(),
        intents_of(event_id, payload, at)[i] is AppendMessage,
    ensures
        ({
            let intents = intents_of(event_id, payload, at);
            let message = intents[i]->AppendMessage_0;
            &&& exists|j: int|
                0 <= j < i && #[trigger] intents[j] == HerdrIntentView::UpsertContact(
                    message.sender,
                )
            &&& exists|j: int|
                0 <= j < i && (#[trigger] intents[j] matches HerdrIntentView::UpsertThread(thread)
                    && thread.id == message.thread_id)
        }),
{
    let intents = intents_of(event_id, payload, at);
    let kind = event_kind(payload);
    if let Some(data) = event_data(payload) {
        let all = upserts_of(workspaces_of(data), kind, data, at);
        assert forall|j: int| 0 <= j < all.len() implies (#[trigger] all[j]) is UpsertThread by {}
        assert(intents == agent_status_of(kind, data, event_id, at));
        assert(i == 2);
        assert(intents[0] == HerdrIntentView::UpsertContact(
            intents[2]->AppendMessage_0.sender,
        ));
        assert(intents[1] is UpsertThread);
    }
}

/// The identity that an intent writes under.
pub open spec fn written_id(intent: HerdrIntentView) -> Option<Uuid> {
    match intent {
        HerdrIntentView::UpsertThread(thread) => Some(thread.id),
        HerdrIntentView::ArchiveThread { thread_id, .. } => Some(thread_id),
        HerdrIntentView::UpsertContact(contact) => Some(contact.id),
        HerdrIntentView::AppendMessage(message) => Some(message.id),
        HerdrIntentView::Dropped { .. } => None,
    }
}

/// Whether two answers write under the same identities.
pub open spec fn same_ids(a: Seq<HerdrIntentView>, b: Seq<HerdrIntentView>) -> bool {
    a.len() == b.len() && forall|i: int|
        0 <= i < a.len() ==> written_id(#[trigger] a[i]) == written_id(b[i])
}

proof fn lemma_pane_moved_ids(kind: Seq<char>, data: Members, first: Timestamp, second: Timestamp)
    ensures
        same_ids(pane_moved_of(kind, data, first), pane_moved_of(kind, data, second)),
{
    if let Some(value) = find_member(data, "created_workspace"@) {
        let a = workspace_thread_of(value, first);
        let b = workspace_thread_of(value, second);
        assert(a is Some <==> b is Some);
        assert(a is Some ==> a->0.id == b->0.id);
    }
    let a = pane_moved_of(kind, data, first);
    let b = pane_moved_of(kind, data, second);
    assert(a.len() == b.len());
    assert forall|i: int| 0 <= i < a.len() implies written_id(#[trigger] a[i]) == written_id(
        b[i],
    ) by {}
}

proof fn lemma_data_ids(
    kind: Seq<char>,
    data: Members,
    event_id: Seq<char>,
    first: Timestamp,
    second: Timestamp,
)
    ensures
        same_ids(
            intents_with_data(kind, data, event_id, first),
            intents_with_data(kind, data, event_id, second),
        ),
{
    lemma_pane_moved_ids(kind, data, first, second);
    assert(same_ids(
        agent_status_of(kind, data, event_id, first),
        agent_status_of(kind, data, event_id, second),
    ));
    assert(same_ids(
        upserts_of(workspaces_of(data), kind, data, first),
        upserts_of(workspaces_of(data), kind, data, second),
    ));
}

/// A replayed event writes under the same identities, whenever it is received.
pub proof fn law_replays_keep_their_ids(
    event_id: Seq<char>,
    payload: JsonView,
    first: Timestamp,
    second: Timestamp,
)
    ensures
        same_ids(intents_of(event_id, payload, first), intents_of(event_id, payload, second)),
{
    if let Some(data) = event_data(payload) {
        lemma_data_ids(event_kind(payload), data, event_id, first, second);
    }
}

/// Which of the mappings a kind of event has: a number for each, and none for unknown kinds.
spec fn mapping_of(kind: Seq<char>) -> int {
    if carries_workspace(kind) {
        1
    } else if kind == "workspace_renamed"@ {
        2
    } else if kind == "workspace_closed"@ {
        3
    } else if touches_workspaces(kind) {
        4
    } else if tab_kind(kind) {
        5
    } else if kind == "pane_moved"@ {
        6
    } else if pane_kind(kind) {
        7
    } else if kind == "pane_agent_status_changed"@ {
        8
    } else if ignored_kind(kind) {
        9
    } else {
        0
    }
}

/// The kinds of events are told apart.
#[verifier::spinoff_prover]
#[verifier::rlimit(60)]
proof fn lemma_kinds()
    ensures
        mapping_of("workspace_created"@) == 1,
        mapping_of("workspace_updated"@) == 1,
        mapping_of("workspace_metadata_updated"@) == 1,
        mapping_of("workspace_renamed"@) == 2,
        mapping_of("workspace_closed"@) == 3,
        mapping_of("workspace_moved"@) == 4,
        mapping_of("workspace_reordered"@) == 4,
        mapping_of("workspace_focused"@) == 4,
        mapping_of("tab_created"@) == 5,
        mapping_of("tab_closed"@) == 5,
        mapping_of("tab_renamed"@) == 5,
        mapping_of("tab_moved"@) == 5,
        mapping_of("tab_focused"@) == 5,
        mapping_of("pane_moved"@) == 6,
        mapping_of("pane_created"@) == 7,
        mapping_of("pane_updated"@) == 7,
        mapping_of("pane_focused"@) == 7,
        mapping_of("pane_exited"@) == 7,
        mapping_of("pane_agent_detected"@) == 7,
        mapping_of("pane_agent_status_changed"@) == 8,
        mapping_of("worktree_created"@) == 9,
        mapping_of("worktree_opened"@) == 9,
        mapping_of("worktree_removed"@) == 9,
        mapping_of("layout_updated"@) == 9,
        mapping_of("pane_output_changed"@) == 9,
        mapping_of("pane_output_matched"@) == 9,
        mapping_of("pane_scroll_changed"@) == 9,
        mapping_of("pane_closed"@) == 9,
{
    reveal_strlit("workspace_created");
    reveal_strlit("workspace_updated");
    reveal_strlit("workspace_metadata_updated");
    reveal_strlit("workspace_renamed");
    reveal_strlit("workspace_closed");
    reveal_strlit("workspace_moved");
    reveal_strlit("workspace_reordered");
    reveal_strlit("workspace_focused");
    reveal_strlit("tab_created");
    reveal_strlit("tab_closed");
    reveal_strlit("tab_renamed");
    reveal_strlit("tab_moved");
    reveal_strlit("tab_focused");
    reveal_strlit("pane_moved");
    reveal_strlit("pane_created");
    reveal_strlit("pane_updated");
    reveal_strlit("pane_focused");
    reveal_strlit("pane_exited");
    reveal_strlit("pane_agent_detected");
    reveal_strlit("pane_agent_status_changed");
    reveal_strlit("worktree_created");
    reveal_strlit("worktree_opened");
    reveal_strlit("worktree_removed");
    reveal_strlit("layout_updated");
    reveal_strlit("pane_output_changed");
    reveal_strlit("pane_output_matched");
    reveal_strlit("pane_scroll_changed");
    reveal_strlit("pane_closed");
    assert("workspace_created"@.len() == 17);
    assert("workspace_created"@[10] == 'c');
    assert("workspace_updated"@.len() == 17);
    assert("workspace_updated"@[10] == 'u');
    assert("workspace_metadata_updated"@.len() == 26);
    assert("workspace_renamed"@.len() == 17);
    assert("workspace_renamed"@[10] == 'r');
    assert("workspace_closed"@.len() == 16);
    assert("workspace_closed"@[4] == 's');
    assert("workspace_moved"@.len() == 15);
    assert("workspace_moved"@[4] == 's');
    assert("workspace_reordered"@.len() == 19);
    assert("workspace_reordered"@[0] == 'w');
    assert("workspace_focused"@.len() == 17);
    assert("workspace_focused"@[10] == 'f');
    assert("tab_created"@.len() == 11);
    assert("tab_created"@[0] == 't');
    assert("tab_closed"@.len() == 10);
    assert("tab_closed"@[0] == 't');
    assert("tab_renamed"@.len() == 11);
    assert("tab_renamed"@[0] == 't');
    assert("tab_moved"@.len() == 9);
    assert("tab_focused"@.len() == 11);
    assert("tab_focused"@[0] == 't');
    assert("pane_moved"@.len() == 10);
    assert("pane_moved"@[0] == 'p');
    assert("pane_created"@.len() == 12);
    assert("pane_updated"@.len() == 12);
    assert("pane_focused"@.len() == 12);
    assert("pane_exited"@.len() == 11);
    assert("pane_exited"@[0] == 'p');
    assert("pane_exited"@[5] == 'e');
    assert("pane_agent_detected"@.len() == 19);
    assert("pane_agent_detected"@[0] == 'p');
    assert("pane_agent_detected"@[5] == 'a');
    assert("pane_agent_status_changed"@.len() == 25);
    assert("worktree_created"@.len() == 16);
    assert("worktree_created"@[4] == 't');
    assert("worktree_opened"@.len() == 15);
    assert("worktree_opened"@[4] == 't');
    assert("worktree_removed"@.len() == 16);
    assert("worktree_removed"@[4] == 't');
    assert("layout_updated"@.len() == 14);
    assert("pane_output_changed"@.len() == 19);
    assert("pane_output_changed"@[0] == 'p');
    assert("pane_output_changed"@[5] == 'o');
    assert("pane_output_matched"@.len() == 19);
    assert("pane_output_matched"@[0] == 'p');
    assert("pane_output_matched"@[5] == 'o');
    assert("pane_scroll_changed"@.len() == 19);
    assert("pane_scroll_changed"@[0] == 'p');
    assert("pane_scroll_changed"@[5] == 's');
    assert("pane_closed"@.len() == 11);
    assert("pane_closed"@[0] == 'p');
    assert("pane_closed"@[5] == 'c');
}

/// Whether a payload tells of an event of a kind with some data. In the name of an event dots stand
/// for underscores.
pub open spec fn tells(payload: JsonView, kind: Seq<char>, data: Members) -> bool {
    &&& payload.member("event"@) matches Some(JsonView::Text(name)) && replaced(name, '.', '_')
        == kind
    &&& payload.member("data"@) == Some(JsonView::Object(data))
}

/// The text that a member is, if it is one.
pub open spec fn said(members: Members, key: Seq<char>) -> Option<Seq<char>> {
    match find_member(members, key) {
        Some(JsonView::Text(text)) => Some(text),
        _ => None,
    }
}

/// The text that a member of an inner object is, if there are both.
pub open spec fn said_within(members: Members, outer: Seq<char>, key: Seq<char>) -> Option<
    Seq<char>,
> {
    match find_member(members, outer) {
        Some(JsonView::Object(inner)) => said(inner, key),
        _ => None,
    }
}

/// Whether data names a workspace: by its `workspace_id`, or else by that of its `workspace`.
pub open spec fn names_workspace(data: Members, id: Seq<char>) -> bool {
    ||| said(data, "workspace_id"@) == Some(id)
    ||| said(data, "workspace_id"@) is None && said_within(data, "workspace"@, "workspace_id"@)
        == Some(id)
}

/// Whether data names no workspace, neither by itself nor by its `workspace`.
pub open spec fn names_no_workspace(data: Members) -> bool {
    said(data, "workspace_id"@) is None && said_within(data, "workspace"@, "workspace_id"@) is None
}

/// Whether data names the workspace of a tab or a pane: its own, or else the one of that part.
pub open spec fn names_workspace_of(data: Members, part: Seq<char>, id: Seq<char>) -> bool {
    ||| names_workspace(data, id)
    ||| names_no_workspace(data) && said_within(data, part, "workspace_id"@) == Some(id)
}

/// The UUID that Herdr's things have under a name.
pub open spec fn herdr_uuid(name: Seq<char>) -> Uuid {
    Uuid {
        value: uuid_v5(
            0xc8a4_bec7_f33d_4fb0_93e1_c45e_0dd2_5cf7,
            vstd::utf8::encode_utf8(name),
        ),
    }
}

/// The archiving of a workspace's thread.
pub open spec fn archiving(id: Seq<char>) -> HerdrIntentView {
    HerdrIntentView::ArchiveThread { thread_id: herdr_uuid("thread:"@ + id), source_id: id }
}

/// The writing of a workspace's thread, active at a time.
pub open spec fn writing(
    id: Seq<char>,
    title: Option<Seq<char>>,
    at: Timestamp,
    metadata: JsonView,
) -> HerdrIntentView {
    HerdrIntentView::UpsertThread(
        ThreadView {
            id: herdr_uuid("thread:"@ + id),
            source: "herdr"@,
            source_id: id,
            provider_instance: None,
            title,
            participants: Seq::empty(),
            last_message_at: at,
            unread_count: None,
            metadata,
        },
    )
}

/// The metadata of a thread that an event touches: the event's kind and its data.
pub open spec fn event_and_data(kind: Seq<char>, data: Members) -> JsonView {
    JsonView::Object(
        seq![("data"@, canonical(JsonView::Object(data))), ("event"@, JsonView::Text(kind))],
    )
}

/// The one answer of an event that is not mapped.
pub open spec fn refusing(kind: Seq<char>, reason: Seq<char>) -> Seq<HerdrIntentView> {
    seq![HerdrIntentView::Dropped { kind, reason }]
}

/// A workspace that is closed is archived: the one intent is the archiving of its thread. Without a
/// workspace the event is dropped.
pub proof fn law_closed_workspaces_are_archived(
    event_id: Seq<char>,
    payload: JsonView,
    at: Timestamp,
    data: Members,
    id: Seq<char>,
)
    requires
        !blank(event_id),
        tells(payload, "workspace_closed"@, data),
    ensures
        names_workspace(data, id) ==> intents_of(event_id, payload, at) == seq![archiving(id)],
        names_no_workspace(data) ==> intents_of(event_id, payload, at) == refusing(
            "workspace_closed"@,
            "missing workspace_id"@,
        ),
{
    lemma_kinds();
}

/// Whether an event closes a workspace: it is the closing of it, or the move of a pane that leaves
/// it empty.
pub open spec fn closes(payload: JsonView, id: Seq<char>) -> bool {
    match payload.member("data"@) {
        Some(JsonView::Object(data)) => {
            ||| named_kind(payload) == "workspace_closed"@ && names_workspace(data, id)
            ||| named_kind(payload) == "pane_moved"@ && said(data, "closed_workspace_id"@) == Some(
                id,
            )
        },
        _ => false,
    }
}

/// The kind that a payload names: by its `event`, or else by the `type` of its data; `unknown`
/// where it names none. Dots stand for underscores.
pub open spec fn named_kind(payload: JsonView) -> Seq<char> {
    match (payload.member("event"@), payload.member("data"@)) {
        (Some(JsonView::Text(name)), _) => replaced(name, '.', '_'),
        (_, Some(JsonView::Object(data))) => match said(data, "type"@) {
            Some(name) => replaced(name, '.', '_'),
            None => replaced("unknown"@, '.', '_'),
        },
        _ => replaced("unknown"@, '.', '_'),
    }
}

proof fn lemma_named_kind(payload: JsonView)
    ensures
        event_kind(payload) == named_kind(payload),
{
}

/// A thread is archived exactly where an event closes its workspace, and under the UUID of that
/// workspace.
pub proof fn law_only_closed_workspaces_are_archived(
    event_id: Seq<char>,
    payload: JsonView,
    at: Timestamp,
    id: Seq<char>,
)
    ensures
        intents_of(event_id, payload, at).contains(archiving(id)) <==> !blank(event_id) && closes(
            payload,
            id,
        ),
        forall|i: int|
            0 <= i < intents_of(event_id, payload, at).len() ==> ((#[trigger] intents_of(
                event_id,
                payload,
                at,
            )[i]) matches HerdrIntentView::ArchiveThread { thread_id, source_id } ==> thread_id
                == herdr_uuid("thread:"@ + source_id)),
{
    lemma_kinds();
    lemma_named_kind(payload);
    let intents = intents_of(event_id, payload, at);
    let kind = event_kind(payload);
    if let Some(data) = event_data(payload) {
        let all = upserts_of(workspaces_of(data), kind, data, at);
        assert forall|j: int| 0 <= j < all.len() implies (#[trigger] all[j]) is UpsertThread by {}
        if !blank(event_id) && kind == "workspace_closed"@ {
            if workspace_of(data) is Some {
                assert(intents[0] == archiving(workspace_of(data)->0));
            }
        }
        if !blank(event_id) && kind == "pane_moved"@ {
            if let Some(closed) = text_member(data, "closed_workspace_id"@) {
                let created = match find_member(data, "created_workspace"@) {
                    Some(value) => workspace_thread_of(value, at) is Some,
                    None => false,
                };
                if created {
                    assert(intents[1] == archiving(closed));
                } else {
                    assert(intents[0] == archiving(closed));
                }
            }
        }
    }
}

/// A workspace that is created or updated is written under its label, with all that the event says
/// of it in the order of the names. Without a workspace the event is dropped.
pub proof fn law_workspaces_are_written_as_they_are(
    event_id: Seq<char>,
    payload: JsonView,
    at: Timestamp,
    kind: Seq<char>,
    data: Members,
    id: Seq<char>,
)
    requires
        !blank(event_id),
        tells(payload, kind, data),
        kind == "workspace_created"@ || kind == "workspace_updated"@ || kind
            == "workspace_metadata_updated"@,
    ensures
        find_member(data, "workspace"@) matches Some(JsonView::Object(workspace)) ==> {
            &&& names_workspace(workspace, id) ==> intents_of(event_id, payload, at) == seq![
                writing(
                    id,
                    said(workspace, "label"@),
                    at,
                    JsonView::Object(sorted_members(workspace)),
                ),
            ]
            &&& names_no_workspace(workspace) ==> intents_of(event_id, payload, at) == refusing(
                kind,
                "missing workspace identity"@,
            )
        },
        !(find_member(data, "workspace"@) matches Some(JsonView::Object(_))) ==> intents_of(
            event_id,
            payload,
            at,
        ) == refusing(kind, "missing workspace identity"@),
{
    lemma_kinds();
}

/// A workspace that is renamed is written under its new label.
pub proof fn law_renamed_workspaces_have_their_new_label(
    event_id: Seq<char>,
    payload: JsonView,
    at: Timestamp,
    data: Members,
    id: Seq<char>,
)
    requires
        !blank(event_id),
        tells(payload, "workspace_renamed"@, data),
    ensures
        names_workspace(data, id) ==> intents_of(event_id, payload, at) == seq![
            writing(
                id,
                said(data, "label"@),
                at,
                JsonView::Object(seq![("event"@, JsonView::Text("workspace_renamed"@))]),
            ),
        ],
        names_no_workspace(data) ==> intents_of(event_id, payload, at) == refusing(
            "workspace_renamed"@,
            "missing workspace_id"@,
        ),
{
    lemma_kinds();
}

/// The texts among some values.
pub open spec fn texts_among(items: Seq<JsonView>) -> Seq<Seq<char>> {
    items.filter(|item: JsonView| item is Text).map_values(|item: JsonView| item->Text_0)
}

proof fn lemma_texts(items: Seq<JsonView>)
    ensures
        texts(items) == texts_among(items),
    decreases items.len(),
{
    reveal(Seq::filter);
    let ok = |item: JsonView| item is Text;
    let f = |item: JsonView| item->Text_0;
    if items.len() > 0 {
        lemma_texts(items.drop_last());
        if items.last() is Text {
            assert(items.filter(ok).map_values(f) =~= items.drop_last().filter(ok).map_values(
                f,
            ).push(f(items.last())));
        }
    } else {
        assert(items.filter(ok).map_values(f) =~= seq![]);
    }
}

/// Workspaces that are moved, reordered or focused are refreshed, each once and in the order in
/// which they are named: the one, or else all that are listed. Where none is named the event is
/// dropped.
pub proof fn law_touched_workspaces_are_refreshed(
    event_id: Seq<char>,
    payload: JsonView,
    at: Timestamp,
    kind: Seq<char>,
    data: Members,
    id: Seq<char>,
)
    requires
        !blank(event_id),
        tells(payload, kind, data),
        kind == "workspace_moved"@ || kind == "workspace_reordered"@ || kind
            == "workspace_focused"@,
    ensures
        names_workspace(data, id) ==> intents_of(event_id, payload, at) == seq![
            writing(id, None, at, event_and_data(kind, data)),
        ],
        names_no_workspace(data) ==> {
            let intents = intents_of(event_id, payload, at);
            match find_member(data, "workspace_ids"@) {
                Some(JsonView::Array(items)) if texts_among(items).len() > 0 => {
                    &&& intents.len() == texts_among(items).len()
                    &&& forall|i: int|
                        0 <= i < intents.len() ==> #[trigger] intents[i] == writing(
                            texts_among(items)[i],
                            None,
                            at,
                            event_and_data(kind, data),
                        )
                },
                _ => intents == refusing(kind, "missing workspace identity"@),
            }
        },
{
    lemma_kinds();
    let intents = intents_of(event_id, payload, at);
    if let Some(JsonView::Array(items)) = find_member(data, "workspace_ids"@) {
        lemma_texts(items);
    }
    if names_workspace(data, id) {
        assert(workspaces_of(data) =~= seq![id]);
        assert(intents =~= seq![writing(id, None, at, event_and_data(kind, data))]);
    }
}

/// What happens to a tab or a pane refreshes its workspace: the one that the event names, or else
/// the one of the tab or the pane.
pub proof fn law_tabs_and_panes_refresh_their_workspace(
    event_id: Seq<char>,
    payload: JsonView,
    at: Timestamp,
    kind: Seq<char>,
    data: Members,
    part: Seq<char>,
    id: Seq<char>,
)
    requires
        !blank(event_id),
        tells(payload, kind, data),
        ({
            ||| part == "tab"@ && (kind == "tab_created"@ || kind == "tab_closed"@ || kind
                == "tab_renamed"@ || kind == "tab_moved"@ || kind == "tab_focused"@)
            ||| part == "pane"@ && (kind == "pane_created"@ || kind == "pane_updated"@ || kind
                == "pane_focused"@ || kind == "pane_exited"@ || kind == "pane_agent_detected"@)
        }),
    ensures
        names_workspace_of(data, part, id) ==> intents_of(event_id, payload, at) == seq![
            writing(id, None, at, event_and_data(kind, data)),
        ],
        names_no_workspace(data) && said_within(data, part, "workspace_id"@) is None ==> intents_of(
            event_id,
            payload,
            at,
        ) == refusing(kind, "missing workspace_id"@),
{
    lemma_kinds();
}

/// The move of a pane writes the workspace that it created, archives the one that it closed, and
/// refreshes the one where the pane is now, in this order and as far as the event names them; where
/// it names none the event is dropped.
pub proof fn law_moved_panes_change_their_workspaces(
    event_id: Seq<char>,
    payload: JsonView,
    at: Timestamp,
    data: Members,
)
    requires
        !blank(event_id),
        tells(payload, "pane_moved"@, data),
    ensures
        ({
            let created = match find_member(data, "created_workspace"@) {
                Some(JsonView::Object(inner)) => match (
                    said(inner, "workspace_id"@),
                    said_within(inner, "workspace"@, "workspace_id"@),
                ) {
                    (Some(id), _) => seq![
                        writing(
                            id,
                            said(inner, "label"@),
                            at,
                            JsonView::Object(sorted_members(inner)),
                        ),
                    ],
                    (None, Some(id)) => seq![
                        writing(
                            id,
                            said(inner, "label"@),
                            at,
                            JsonView::Object(sorted_members(inner)),
                        ),
                    ],
                    _ => Seq::<HerdrIntentView>::empty(),
                },
                _ => Seq::<HerdrIntentView>::empty(),
            };
            let closed = match said(data, "closed_workspace_id"@) {
                Some(id) => seq![archiving(id)],
                None => Seq::<HerdrIntentView>::empty(),
            };
            let current = match (
                said(data, "workspace_id"@),
                said_within(data, "workspace"@, "workspace_id"@),
                said_within(data, "pane"@, "workspace_id"@),
            ) {
                (Some(id), _, _) => seq![
                    writing(id, None, at, event_and_data("pane_moved"@, data)),
                ],
                (None, Some(id), _) => seq![
                    writing(id, None, at, event_and_data("pane_moved"@, data)),
                ],
                (None, None, Some(id)) => seq![
                    writing(id, None, at, event_and_data("pane_moved"@, data)),
                ],
                _ => Seq::<HerdrIntentView>::empty(),
            };
            intents_of(event_id, payload, at) == (if (created + closed + current).len() == 0 {
                refusing("pane_moved"@, "missing workspace identity"@)
            } else {
                created + closed + current
            })
        }),
{
    lemma_kinds();
    assert(intents_of(event_id, payload, at) == pane_moved_of("pane_moved"@, data, at));
}

/// The contact of an agent on a host.
pub open spec fn agent_on(agent: Seq<char>, host: Seq<char>) -> ContactView {
    ContactView {
        id: herdr_uuid("contact:"@ + (host + ":"@ + agent)),
        source: "herdr"@,
        source_id: host + ":"@ + agent,
        provider_instance: None,
        display_name: Some(agent),
        avatar_url: None,
        metadata: JsonView::Object(
            seq![("agent"@, JsonView::Text(agent)), ("host"@, JsonView::Text(host))],
        ),
    }
}

/// The labels of a status as they are shown: nothing where there are none, else those that are
/// texts, each behind its name, in the order of the names.
pub open spec fn shown_labels(data: Members) -> Seq<char> {
    match find_member(data, "state_labels"@) {
        Some(JsonView::Object(labels)) if labels.len() > 0 => " ("@ + joined(
            sorted_members(labels).filter(|label: (Seq<char>, JsonView)| label.1 is Text).map_values(
                |label: (Seq<char>, JsonView)| label.0 + "="@ + label.1->Text_0,
            ),
            ", "@,
        ) + ")"@,
        _ => Seq::empty(),
    }
}

proof fn lemma_shown_labels(data: Members)
    ensures
        labels_suffix_of(labels_of(data)) == shown_labels(data),
{
    lemma_sorted_by(seq![], crate::json::by_key());
    if let Some(JsonView::Object(labels)) = find_member(data, "state_labels"@) {
        lemma_sorted_by(labels, crate::json::by_key());
        lemma_label_texts(sorted_members(labels));
    }
}

proof fn lemma_label_texts(labels: Members)
    ensures
        label_texts(labels) == labels.filter(
            |label: (Seq<char>, JsonView)| label.1 is Text,
        ).map_values(|label: (Seq<char>, JsonView)| label.0 + "="@ + label.1->Text_0),
    decreases labels.len(),
{
    reveal(Seq::filter);
    let ok = |label: (Seq<char>, JsonView)| label.1 is Text;
    let f = |label: (Seq<char>, JsonView)| label.0 + "="@ + label.1->Text_0;
    if labels.len() > 0 {
        lemma_label_texts(labels.drop_last());
        if labels.last().1 is Text {
            assert(labels.filter(ok).map_values(f) =~= labels.drop_last().filter(ok).map_values(
                f,
            ).push(f(labels.last())));
        }
    } else {
        assert(labels.filter(ok).map_values(f) =~= seq![]);
    }
}

/// The status of an agent writes the agent as a contact, refreshes the workspace, and appends a
/// system message of the agent to the workspace's thread that says the status and its labels. It
/// needs the workspace and the pane.
pub proof fn law_agent_statuses_become_messages(
    event_id: Seq<char>,
    payload: JsonView,
    at: Timestamp,
    data: Members,
    workspace: Seq<char>,
    pane: Seq<char>,
)
    requires
        !blank(event_id),
        tells(payload, "pane_agent_status_changed"@, data),
    ensures
        names_no_workspace(data) ==> intents_of(event_id, payload, at) == refusing(
            "pane_agent_status_changed"@,
            "missing workspace_id"@,
        ),
        names_workspace(data, workspace) ==> {
            let named_pane = match said(data, "pane_id"@) {
                Some(id) => Some(id),
                None => said_within(data, "pane"@, "pane_id"@),
            };
            let agent = match (said(data, "agent"@), said(data, "display_agent"@)) {
                (Some(name), _) => name,
                (None, Some(name)) => name,
                (None, None) => "unknown"@,
            };
            let host = match said(data, "host"@) {
                Some(host) => host,
                None => "unknown-host"@,
            };
            let status = match said(data, "agent_status"@) {
                Some(status) => status,
                None => "unknown"@,
            };
            let intents = intents_of(event_id, payload, at);
            &&& named_pane == Some(pane) && !blank(pane) ==> intents.len() == 3 && intents[0]
                == HerdrIntentView::UpsertContact(agent_on(agent, host)) && intents[1] == writing(
                workspace,
                None,
                at,
                event_and_data("pane_agent_status_changed"@, data),
            ) && (intents[2] matches HerdrIntentView::AppendMessage(message) && {
                &&& message.id == herdr_uuid("message:"@ + event_id)
                &&& message.thread_id == herdr_uuid("thread:"@ + workspace)
                &&& message.source == "herdr"@
                &&& message.source_id == event_id
                &&& message.sender == agent_on(agent, host)
                &&& message.kind == MessageKind::System
                &&& message.body == agent + ": "@ + status + shown_labels(data)
                &&& message.attachments.len() == 0
                &&& message.timestamp == at
                &&& !message.is_outbound
                &&& message.metadata.member("agent_status"@) == Some(JsonView::Text(status))
                &&& message.metadata.member("pane_id"@) == Some(JsonView::Text(pane))
                &&& message.metadata.member("event"@) == Some(
                    JsonView::Text("pane_agent_status_changed"@),
                )
                &&& message.metadata.member("data"@) == Some(canonical(JsonView::Object(data)))
            })
            &&& named_pane is None || (named_pane == Some(pane) && blank(pane)) ==> intents
                == refusing("pane_agent_status_changed"@, "missing pane_id"@)
        },
{
    lemma_kinds();
    lemma_shown_labels(data);
    reveal_strlit("agent_status");
    reveal_strlit("data");
    reveal_strlit("event");
    reveal_strlit("pane_id");
    reveal_with_fuel(find_member, 5);
    assert("agent_status"@[0] == 'a' && "data"@[0] == 'd' && "event"@[0] == 'e' && "pane_id"@[0]
        == 'p');
    if names_workspace(data, workspace) {
        if let Some(named) = pane_of(data) {
            if !blank(named) {
                let message = status_message_of(
                    "pane_agent_status_changed"@,
                    data,
                    event_id,
                    at,
                    workspace,
                    named,
                );
                let members = message.metadata->Object_0;
                lemma_member_at(members, 0);
                lemma_member_at(members, 1);
                lemma_member_at(members, 2);
                lemma_member_at(members, 3);
            }
        }
    }
}

/// The first member of its name is the one that is found.
proof fn lemma_member_at(members: Members, i: int)
    requires
        0 <= i < members.len(),
        forall|j: int| 0 <= j < i ==> (#[trigger] members[j]).0 != members[i].0,
    ensures
        find_member(members, members[i].0) == Some(members[i].1),
    decreases i,
{
    if i > 0 {
        assert(members[0].0 != members[i].0);
        let rest = members.drop_first();
        assert(rest[i - 1] == members[i]);
        assert forall|j: int| 0 <= j < i - 1 implies (#[trigger] rest[j]).0 != rest[i - 1].0 by {
            assert(rest[j] == members[j + 1]);
        }
        lemma_member_at(rest, i - 1);
    }
}

/// The kinds of events that are known.
pub open spec fn known_kinds() -> Seq<Seq<char>> {
    seq![
        "workspace_created"@,
        "workspace_updated"@,
        "workspace_metadata_updated"@,
        "workspace_renamed"@,
        "workspace_closed"@,
        "workspace_moved"@,
        "workspace_reordered"@,
        "workspace_focused"@,
        "tab_created"@,
        "tab_closed"@,
        "tab_renamed"@,
        "tab_moved"@,
        "tab_focused"@,
        "pane_moved"@,
        "pane_created"@,
        "pane_updated"@,
        "pane_focused"@,
        "pane_exited"@,
        "pane_agent_detected"@,
        "pane_agent_status_changed"@,
        "worktree_created"@,
        "worktree_opened"@,
        "worktree_removed"@,
        "layout_updated"@,
        "pane_output_changed"@,
        "pane_output_matched"@,
        "pane_scroll_changed"@,
        "pane_closed"@,
    ]
}

/// An event of a kind that is not known is dropped.
pub proof fn law_unknown_events_are_dropped(
    event_id: Seq<char>,
    payload: JsonView,
    at: Timestamp,
    kind: Seq<char>,
    data: Members,
)
    requires
        !blank(event_id),
        tells(payload, kind, data),
        !known_kinds().contains(kind),
    ensures
        intents_of(event_id, payload, at) == refusing(kind, "unknown or malformed protocol event"@),
{
    let known = known_kinds();
    assert(known[0] != kind);
    assert(known[1] != kind);
    assert(known[2] != kind);
    assert(known[3] != kind);
    assert(known[4] != kind);
    assert(known[5] != kind);
    assert(known[6] != kind);
    assert(known[7] != kind);
    assert(known[8] != kind);
    assert(known[9] != kind);
    assert(known[10] != kind);
    assert(known[11] != kind);
    assert(known[12] != kind);
    assert(known[13] != kind);
    assert(known[14] != kind);
    assert(known[15] != kind);
    assert(known[16] != kind);
    assert(known[17] != kind);
    assert(known[18] != kind);
    assert(known[19] != kind);
    assert(known[20] != kind);
    assert(known[21] != kind);
    assert(known[22] != kind);
    assert(known[23] != kind);
    assert(known[24] != kind);
    assert(known[25] != kind);
    assert(known[26] != kind);
    assert(known[27] != kind);
}

/// What is out of scope, unknown or malformed is dropped with the reason, and so is an event
/// without an ID.
pub proof fn law_other_events_are_dropped(
    event_id: Seq<char>,
    payload: JsonView,
    at: Timestamp,
    kind: Seq<char>,
    data: Members,
)
    ensures
        blank(event_id) ==> intents_of(event_id, payload, at) == refusing(
            "unknown"@,
            "missing bridge event_id"@,
        ) && dedupe_key_of(event_id) == "herdr:invalid-event-id"@,
        !blank(event_id) ==> dedupe_key_of(event_id) == "herdr:"@ + event_id,
        !blank(event_id) && tells(payload, kind, data) && (kind == "worktree_created"@ || kind
            == "worktree_opened"@ || kind == "worktree_removed"@ || kind == "layout_updated"@
            || kind == "pane_output_changed"@ || kind == "pane_output_matched"@ || kind
            == "pane_scroll_changed"@ || kind == "pane_closed"@) ==> intents_of(
            event_id,
            payload,
            at,
        ) == refusing(kind, "out of scope for v1"@),
        !blank(event_id) && !(payload.member("data"@) matches Some(JsonView::Object(_)))
            ==> intents_of(event_id, payload, at).len() == 1 && intents_of(
            event_id,
            payload,
            at,
        )[0] is Dropped,
{
    lemma_kinds();
}

/// An event may be named by the `type` of its data in place of its `event`: it is answered alike.
pub proof fn law_the_type_stands_in_for_the_event(
    event_id: Seq<char>,
    payload: JsonView,
    other: JsonView,
    at: Timestamp,
    data: Members,
    name: Seq<char>,
)
    requires
        payload.member("event"@) == Some(JsonView::Text(name)),
        payload.member("data"@) == Some(JsonView::Object(data)),
        !(other.member("event"@) matches Some(JsonView::Text(_))),
        other.member("data"@) == Some(JsonView::Object(data)),
        said(data, "type"@) == Some(name),
    ensures
        intents_of(event_id, payload, at) == intents_of(event_id, other, at),
{
}

/// An event is told apart by its ID, and events without one are all the same.
pub proof fn law_events_are_told_apart_by_their_id(a: Seq<char>, b: Seq<char>)
    ensures
        !blank(a) ==> dedupe_key_of(a) == "herdr:"@ + a,
        blank(a) ==> dedupe_key_of(a) == "herdr:invalid-event-id"@,
        !blank(a) && !blank(b) && a != b ==> dedupe_key_of(a) != dedupe_key_of(b),
{
    if !blank(a) && !blank(b) && dedupe_key_of(a) == dedupe_key_of(b) {
        let n = "herdr:"@.len() as int;
        assert(("herdr:"@ + a).skip(n) =~= a);
        assert(("herdr:"@ + b).skip(n) =~= b);
    }
}

} // verus!
