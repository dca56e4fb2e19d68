//! Provider-agnostic, tamper-evident audit trail.
//!
//! Entries are linked by SHA-256 hashes. This module decides what an entry holds, what is appended,
//! in which order entries that were read from storage belong, and whether a trail is intact.

use vstd::prelude::*;
use crate::digest::{sha256, sha256_hex};
use crate::error::prefixed;
use crate::ids::{uuid_text, Uuid};
use crate::json::{
    canonical, json_object, json_opt_text, json_text, member, member_views, opt_text_view, rendered,
    Json, JsonView,
};
use crate::order::lemma_filtered_from;
use crate::rendering::{
    distinct_names, law_the_canonical_text_tells_the_canonical_form, lemma_members_agree, sound,
};
use crate::text::{blank, copy_opt, is_blank, lines, lines_of, str_eq, view_opt, views};
use crate::time::{calendar_date, law_earlier_points_come_first, rfc3339_zulu, Timestamp};

verus! {

/// An operation whose execution should be captured in the audit trail.
#[derive(Clone, Copy, Debug, PartialEq, Eq, Structural)]
pub enum AuditAction {
    /// A provider normalized data returned by an upstream source.
    Normalize,
    /// A provider submitted an outbound message.
    Send,
    /// A provider fetched attachment bytes from an upstream source.
    FetchAttachment,
}

impl AuditAction {
    /// The name under which the action stands in JSON.
    pub open spec fn wire_name(self) -> Seq<char> {
        match self {
            AuditAction::Normalize => "normalize"@,
            AuditAction::Send => "send"@,
            AuditAction::FetchAttachment => "fetch_attachment"@,
        }
    }

    /// The name under which the action stands in JSON.
    pub fn as_str(&self) -> (r: &'static str)
        ensures
            r@ == self.wire_name(),
    {
        match self {
            AuditAction::Normalize => "normalize",
            AuditAction::Send => "send",
            AuditAction::FetchAttachment => "fetch_attachment",
        }
    }
}

/// The data recorded by a provider operation before it is chained into the log.
#[derive(Debug, PartialEq, Eq)]
pub struct AuditEvent {
    /// The action performed.
    pub action: AuditAction,
    /// Provider that performed the action.
    pub provider: String,
    /// Provider-specific source identifier affected by the action, if any.
    pub source_id: Option<String>,
    /// Time at which the operation occurred.
    pub timestamp: Timestamp,
    /// Non-secret, provider-specific operation metadata.
    pub metadata: Json,
}

/// The mathematical value of an audit event.
#[verifier::ext_equal]
pub struct AuditEventView {
    pub action: AuditAction,
    pub provider: Seq<char>,
    pub source_id: Option<Seq<char>>,
    pub timestamp: Timestamp,
    pub metadata: JsonView,
}

impl View for AuditEvent {
    type V = AuditEventView;

    open spec fn view(&self) -> AuditEventView {
        AuditEventView {
            action: self.action,
            provider: self.provider@,
            source_id: view_opt(self.source_id),
            timestamp: self.timestamp,
            metadata: self.metadata@,
        }
    }
}

impl Clone for AuditEvent {
    fn clone(&self) -> (r: AuditEvent)
        ensures
            r@ == self@,
    {
        AuditEvent {
            action: self.action,
            provider: self.provider.clone(),
            source_id: copy_opt(&self.source_id),
            timestamp: self.timestamp,
            metadata: self.metadata.clone(),
        }
    }
}

/// The event of a provider operation.
pub fn operation_event(
    action: AuditAction,
    provider: &str,
    source_id: Option<&str>,
    timestamp: Timestamp,
    metadata: Json,
) -> (r: AuditEvent)
    ensures
        r@ == (AuditEventView {
            action,
            provider: provider@,
            source_id: match source_id {
                Some(id) => Some(id@),
                None => None,
            },
            timestamp,
            metadata: metadata@,
        }),
{
    AuditEvent {
        action,
        provider: provider.to_owned(),
        source_id: match source_id {
            Some(id) => Some(id.to_owned()),
            None => None,
        },
        timestamp,
        metadata,
    }
}

/// An immutable audit event linked to its predecessor by SHA-256 hash.
#[derive(Debug, PartialEq, Eq)]
pub struct AuditEntry {
    /// Stable Iris ID for this event.
    pub id: Uuid,
    /// Event payload.
    pub event: AuditEvent,
    /// SHA-256 hash of the prior entry's canonical JSON, or `None` for genesis.
    pub prev_hash: Option<String>,
    /// SHA-256 hash of this entry's canonical JSON excluding `self_hash`.
    pub self_hash: String,
}

/// The mathematical value of an audit entry.
#[verifier::ext_equal]
pub struct AuditEntryView {
    pub id: Uuid,
    pub event: AuditEventView,
    pub prev_hash: Option<Seq<char>>,
    pub self_hash: Seq<char>,
}

impl View for AuditEntry {
    type V = AuditEntryView;

    open spec fn view(&self) -> AuditEntryView {
        AuditEntryView {
            id: self.id,
            event: self.event@,
            prev_hash: view_opt(self.prev_hash),
            self_hash: self.self_hash@,
        }
    }
}

impl Clone for AuditEntry {
    fn clone(&self) -> (r: AuditEntry)
        ensures
            r@ == self@,
    {
        AuditEntry {
            id: self.id,
            event: self.event.clone(),
            prev_hash: copy_opt(&self.prev_hash),
            self_hash: self.self_hash.clone(),
        }
    }
}

/// Criteria for selecting audit entries.
#[derive(Debug, PartialEq, Eq)]
pub struct AuditFilter {
    /// Include only events emitted by this provider.
    pub provider: Option<String>,
    /// Include only this operation type.
    pub action: Option<AuditAction>,
    /// Include entries at or after this timestamp.
    pub since: Option<Timestamp>,
    /// Include entries at or before this timestamp.
    pub until: Option<Timestamp>,
    /// Maximum number of entries returned, after chronological ordering.
    pub limit: Option<usize>,
    /// Include only this provider-specific source ID.
    pub source_id: Option<String>,
}

impl Default for AuditFilter {
    fn default() -> (r: AuditFilter)
        ensures
            r == (AuditFilter {
                provider: None,
                action: None,
                since: None,
                until: None,
                limit: None,
                source_id: None,
            }),
    {
        AuditFilter {
            provider: None,
            action: None,
            since: None,
            until: None,
            limit: None,
            source_id: None,
        }
    }
}

impl AuditFilter {
    /// Filter for the record-once key `(provider, source_id)`.
    pub fn for_record_once_key(provider: &str, source_id: &str) -> (r: AuditFilter)
        ensures
            view_opt(r.provider) == Some(provider@),
            view_opt(r.source_id) == Some(source_id@),
            r.action is None,
            r.since is None,
            r.until is None,
            r.limit is None,
    {
        AuditFilter {
            provider: Some(provider.to_owned()),
            source_id: Some(source_id.to_owned()),
            action: None,
            since: None,
            until: None,
            limit: None,
        }
    }

    /// Whether the filter selects an entry.
    pub open spec fn selects(self, entry: AuditEntryView) -> bool {
        &&& self.provider matches Some(provider) ==> entry.event.provider == provider@
        &&& self.action matches Some(action) ==> entry.event.action == action
        &&& self.source_id matches Some(id) ==> entry.event.source_id == Some(id@)
        &&& self.since matches Some(since) ==> !entry.event.timestamp.earlier(since)
        &&& self.until matches Some(until) ==> !until.earlier(entry.event.timestamp)
    }

    /// Whether the filter selects an entry.
    pub fn is_match(&self, entry: &AuditEntry) -> (r: bool)
        ensures
            r == self.selects(entry@),
    {
        if let Some(provider) = &self.provider {
            if !str_eq(entry.event.provider.as_str(), provider.as_str()) {
                return false;
            }
        }
        if let Some(action) = self.action {
            if entry.event.action != action {
                return false;
            }
        }
        if let Some(id) = &self.source_id {
            match &entry.event.source_id {
                Some(source_id) => {
                    if !str_eq(source_id.as_str(), id.as_str()) {
                        return false;
                    }
                },
                None => return false,
            }
        }
        if let Some(since) = &self.since {
            if entry.event.timestamp.is_earlier(since) {
                return false;
            }
        }
        if let Some(until) = &self.until {
            if until.is_earlier(&entry.event.timestamp) {
                return false;
            }
        }
        true
    }
}

/// Outcome of an atomic record-once append.
#[derive(Clone, Copy, Debug, PartialEq, Eq, Structural)]
pub enum RecordOutcome {
    /// No prior entry existed for the key; a new entry was appended.
    Inserted,
    /// An entry with the same key already exists; nothing was appended.
    AlreadyRecorded,
}

/// The JSON of a point in time.
pub open spec fn time_view(at: Timestamp) -> JsonView {
    JsonView::Text(rfc3339_zulu(at.secs(), at.nanos()))
}

/// The JSON of a point in time.
pub fn json_time(at: &Timestamp) -> (r: Json)
    ensures
        r@ == time_view(*at),
{
    Json::Text(at.json_form())
}

/// The JSON of a UUID.
pub open spec fn id_view(id: Uuid) -> JsonView {
    JsonView::Text(uuid_text(id.value))
}

/// The JSON of a UUID.
pub fn json_id(id: &Uuid) -> (r: Json)
    ensures
        r@ == id_view(*id),
{
    Json::Text(id.text())
}

/// The JSON of an audit event.
pub open spec fn event_view(event: AuditEventView) -> JsonView {
    JsonView::Object(
        seq![
            ("action"@, JsonView::Text(event.action.wire_name())),
            ("provider"@, JsonView::Text(event.provider)),
            ("source_id"@, opt_text_view(event.source_id)),
            ("timestamp"@, time_view(event.timestamp)),
            ("metadata"@, event.metadata),
        ],
    )
}

impl AuditEvent {
    /// The JSON of the event.
    pub fn to_json(&self) -> (r: Json)
        ensures
            r@ == event_view(self@),
    {
        let mut members: Vec<(String, Json)> = Vec::new();
        members.push(member("action", json_text(self.action.as_str())));
        members.push(member("provider", json_text(self.provider.as_str())));
        members.push(member("source_id", json_opt_text(&self.source_id)));
        members.push(member("timestamp", json_time(&self.timestamp)));
        members.push(member("metadata", self.metadata.clone()));
        assert(member_views(members@) =~= event_view(self@)->Object_0);
        json_object(members)
    }
}

/// What an entry's hash is taken of.
pub open spec fn payload_view(entry: AuditEntryView) -> JsonView {
    JsonView::Object(
        seq![
            ("id"@, id_view(entry.id)),
            ("event"@, event_view(entry.event)),
            ("prev_hash"@, opt_text_view(entry.prev_hash)),
        ],
    )
}

/// The bytes that an entry's hash is taken of: its canonical JSON without the hash itself.
pub open spec fn hashed_bytes(entry: AuditEntryView) -> Seq<u8> {
    vstd::utf8::encode_utf8(rendered(canonical(payload_view(entry))))
}

/// The hash of an entry: of its canonical JSON without the hash itself.
pub open spec fn hash_of(entry: AuditEntryView) -> Seq<char> {
    sha256_hex(hashed_bytes(entry))
}

/// The hash of an entry: of its canonical JSON without the hash itself.
pub fn entry_hash(entry: &AuditEntry) -> (r: String)
    ensures
        r@ == hash_of(entry@),
{
    let mut members: Vec<(String, Json)> = Vec::new();
    members.push(member("id", json_id(&entry.id)));
    members.push(member("event", entry.event.to_json()));
    members.push(member("prev_hash", json_opt_text(&entry.prev_hash)));
    assert(member_views(members@) =~= payload_view(entry@)->Object_0);
    let text = json_object(members).canonicalize().render();
    sha256(text.as_str().as_bytes())
}

/// The JSON of an entry.
pub open spec fn entry_view(entry: AuditEntryView) -> JsonView {
    JsonView::Object(
        seq![
            ("id"@, id_view(entry.id)),
            ("event"@, event_view(entry.event)),
            ("prev_hash"@, opt_text_view(entry.prev_hash)),
            ("self_hash"@, JsonView::Text(entry.self_hash)),
        ],
    )
}

/// The line under which an entry is stored.
pub fn entry_line(entry: &AuditEntry) -> (r: String)
    ensures
        r@ == rendered(entry_view(entry@)) + "\n"@,
{
    let mut members: Vec<(String, Json)> = Vec::new();
    members.push(member("id", json_id(&entry.id)));
    members.push(member("event", entry.event.to_json()));
    members.push(member("prev_hash", json_opt_text(&entry.prev_hash)));
    members.push(member("self_hash", json_text(entry.self_hash.as_str())));
    assert(member_views(members@) =~= entry_view(entry@)->Object_0);
    let mut line = json_object(members).render();
    line.append("\n");
    line
}

/// The directory of an entry: the UTC date of its event.
pub fn entry_directory(entry: &AuditEntry) -> (r: String)
    ensures
        r@ == calendar_date(entry.event.timestamp.secs(), entry.event.timestamp.nanos()),
{
    entry.event.timestamp.date()
}

/// The file of an entry.
pub fn entry_file(entry: &AuditEntry) -> (r: String)
    ensures
        r@ == uuid_text(entry.id.value) + ".jsonl"@,
{
    let mut name = entry.id.text();
    name.append(".jsonl");
    name
}

/// The file to which an entry is written before it is published under its own name.
pub fn entry_temporary_file(entry: &AuditEntry) -> (r: String)
    ensures
        r@ == "."@ + uuid_text(entry.id.value) + ".tmp"@,
{
    let mut name = prefixed(".", entry.id.text().as_str());
    name.append(".tmp");
    name
}

/// The lines of a stored file that hold entries: those that are not blank.
pub open spec fn record_lines_of(all: Seq<Seq<char>>) -> Seq<Seq<char>>
    decreases all.len(),
{
    if all.len() == 0 {
        seq![]
    } else if blank(all.last()) {
        record_lines_of(all.drop_last())
    } else {
        record_lines_of(all.drop_last()).push(all.last())
    }
}

/// The lines of a stored file that hold entries.
pub fn record_lines(contents: &str) -> (r: Vec<String>)
    ensures
        views(r@) == record_lines_of(lines_of(contents@)),
{
    let found = lines(contents);
    let ghost all = views(found@);
    let mut out: Vec<String> = Vec::new();
    let mut i: usize = 0;
    assert(all.take(0) =~= seq![]);
    assert(views(out@) =~= seq![]);
    while i < found.len()
        invariant
            i <= found@.len(),
            all == views(found@),
            views(out@) == record_lines_of(all.take(i as int)),
        decreases found@.len() - i,
    {
        let ghost before = out@;
        proof {
            let next = all.take(i + 1);
            assert(next.drop_last() =~= all.take(i as int));
            assert(next.last() == found@[i as int]@);
        }
        if !is_blank(found[i].as_str()) {
            out.push(found[i].clone());
            assert(views(out@) =~= views(before).push(found@[i as int]@));
        }
        i += 1;
    }
    assert(all.take(all.len() as int) =~= all);
    out
}

/// Where the first entry stands that follows the given hash: its index, or the length.
pub open spec fn successor(entries: Seq<AuditEntry>, previous: Option<Seq<char>>) -> int
    decreases entries.len(),
{
    if entries.len() == 0 || entries[0]@.prev_hash == previous {
        0
    } else {
        1 + successor(entries.drop_first(), previous)
    }
}

/// The entries in the order of the chain that starts behind the given hash, and behind them those
/// that the chain does not reach.
pub open spec fn chained(entries: Seq<AuditEntry>, previous: Option<Seq<char>>) -> Seq<AuditEntry>
    decreases entries.len(),
{
    let at = successor(entries, previous);
    if 0 <= at < entries.len() {
        seq![entries[at]] + chained(entries.remove(at), Some(entries[at]@.self_hash))
    } else {
        entries
    }
}

proof fn lemma_successor(entries: Seq<AuditEntry>, previous: Option<Seq<char>>)
    ensures
        0 <= successor(entries, previous) <= entries.len(),
        successor(entries, previous) < entries.len() ==> entries[successor(
            entries,
            previous,
        )]@.prev_hash == previous,
        forall|i: int|
            0 <= i < successor(entries, previous) ==> (#[trigger] entries[i])@.prev_hash
                != previous,
    decreases entries.len(),
{
    if entries.len() > 0 && entries[0]@.prev_hash != previous {
        let rest = entries.drop_first();
        lemma_successor(rest, previous);
        assert forall|i: int| 0 <= i < successor(entries, previous) implies (
        #[trigger] entries[i])@.prev_hash != previous by {
            if i > 0 {
                assert(rest[i - 1] == entries[i]);
            }
        }
    }
}

fn same_hash(a: &Option<String>, b: &Option<String>) -> (r: bool)
    ensures
        r == (view_opt(*a) == view_opt(*b)),
{
    match (a, b) {
        (Some(a), Some(b)) => str_eq(a.as_str(), b.as_str()),
        (None, None) => true,
        _ => false,
    }
}

/// Puts entries that were read in any order into the order of the chain.
///
/// Entries that the chain does not reach stay behind, so that verification can reject them.
pub fn order_entries(entries: Vec<AuditEntry>) -> (r: Vec<AuditEntry>)
    ensures
        r@ == chained(entries@, None),
{
    let ghost all = entries@;
    let mut unordered = entries;
    let mut ordered: Vec<AuditEntry> = Vec::new();
    let mut expected: Option<String> = None;
    assert(ordered@ + chained(unordered@, None) =~= chained(all, None));
    loop
        invariant
            all == entries@,
            ordered@ + chained(unordered@, view_opt(expected)) == chained(all, None),
        decreases unordered@.len(),
    {
        let ghost rest = unordered@;
        let ghost previous = view_opt(expected);
        let mut at: usize = 0;
        while at < unordered.len() && !same_hash(&unordered[at].prev_hash, &expected)
            invariant
                at <= unordered@.len(),
                rest == unordered@,
                previous == view_opt(expected),
                forall|i: int| 0 <= i < at ==> (#[trigger] rest[i])@.prev_hash != previous,
            decreases unordered@.len() - at,
        {
            at += 1;
        }
        proof {
            lemma_successor(rest, previous);
            let found = successor(rest, previous);
            if found < at {
                assert(rest[found]@.prev_hash == previous);
            }
            if at < found {
                assert(rest[at as int]@.prev_hash != previous);
            }
            assert(found == at);
        }
        if at < unordered.len() {
            let entry = unordered.remove(at);
            assert(unordered@ =~= rest.remove(at as int));
            expected = Some(entry.self_hash.clone());
            let ghost before = ordered@;
            ordered.push(entry);
            proof {
                let tail = chained(rest.remove(at as int), Some(entry@.self_hash));
                assert(chained(rest, previous) == seq![entry] + tail);
                assert(before + (seq![entry] + tail) =~= before.push(entry) + tail);
            }
        } else {
            assert(chained(rest, previous) == rest);
            let ghost before = ordered@;
            ordered.append(&mut unordered);
            assert(ordered@ =~= before + rest);
            return ordered;
        }
    }
}

/// Whether the entry at a position is linked to the one before it and carries its own hash.
pub open spec fn linked(entries: Seq<AuditEntry>, i: int) -> bool {
    &&& entries[i]@.prev_hash == (if i == 0 {
        None
    } else {
        Some(entries[i - 1]@.self_hash)
    })
    &&& entries[i]@.self_hash == hash_of(entries[i]@)
}

/// Whether every entry is linked to the one before it and carries its own hash.
pub open spec fn intact(entries: Seq<AuditEntry>) -> bool {
    forall|i: int| 0 <= i < entries.len() ==> #[trigger] linked(entries, i)
}

/// Whether some entry has the record-once key.
pub open spec fn recorded(entries: Seq<AuditEntry>, provider: Seq<char>, source_id: Seq<char>) -> bool {
    exists|i: int|
        0 <= i < entries.len() && (#[trigger] entries[i])@.event.provider == provider
            && entries[i]@.event.source_id == Some(source_id)
}

/// The hash that the next entry refers to.
pub open spec fn tail_hash(entries: Seq<AuditEntry>) -> Option<Seq<char>> {
    if entries.len() == 0 {
        None
    } else {
        Some(entries.last()@.self_hash)
    }
}

/// The entry for an event behind some entries.
pub open spec fn entry_of(entries: Seq<AuditEntry>, id: Uuid, event: AuditEventView) -> AuditEntryView {
    let unsigned = AuditEntryView { id, event, prev_hash: tail_hash(entries), self_hash: seq![] };
    AuditEntryView { self_hash: hash_of(unsigned), ..unsigned }
}

/// The entries that a filter selects, in order.
pub open spec fn selected(entries: Seq<AuditEntry>, filter: AuditFilter) -> Seq<AuditEntryView>
    decreases entries.len(),
{
    if entries.len() == 0 {
        seq![]
    } else if filter.selects(entries.last()@) {
        selected(entries.drop_last(), filter).push(entries.last()@)
    } else {
        selected(entries.drop_last(), filter)
    }
}

/// At most so many of the first items.
pub open spec fn at_most<A>(items: Seq<A>, limit: Option<usize>) -> Seq<A> {
    match limit {
        Some(limit) => if limit < items.len() {
            items.take(limit as int)
        } else {
            items
        },
        None => items,
    }
}

/// A trail of audit entries in the order of their chain.
pub struct AuditTrail {
    pub entries: Vec<AuditEntry>,
}

impl AuditTrail {
    /// The trail of entries that were read from storage in any order.
    pub fn load(entries: Vec<AuditEntry>) -> (r: AuditTrail)
        ensures
            r.entries@ == chained(entries@, None),
    {
        AuditTrail { entries: order_entries(entries) }
    }

    /// Whether some entry has the record-once key.
    pub fn is_recorded(&self, provider: &str, source_id: &str) -> (r: bool)
        ensures
            r == recorded(self.entries@, provider@, source_id@),
    {
        let mut i: usize = 0;
        while i < self.entries.len()
            invariant
                i <= self.entries@.len(),
                forall|j: int|
                    0 <= j < i ==> !((#[trigger] self.entries@[j])@.event.provider == provider@
                        && self.entries@[j]@.event.source_id == Some(source_id@)),
            decreases self.entries@.len() - i,
        {
            let event = &self.entries[i].event;
            if str_eq(event.provider.as_str(), provider) {
                if let Some(id) = &event.source_id {
                    if str_eq(id.as_str(), source_id) {
                        assert(self.entries@[i as int]@.event.provider == provider@);
                        return true;
                    }
                }
            }
            i += 1;
        }
        false
    }

    /// Append an entry, unless a key is given that some entry already has.
    ///
    /// The entry comes back with the outcome; one that was refused is linked to nothing.
    pub fn append_with_key_check(
        &mut self,
        key: Option<(&str, &str)>,
        id: Uuid,
        event: AuditEvent,
    ) -> (r: (AuditEntry, RecordOutcome))
        ensures
            r.1 == RecordOutcome::AlreadyRecorded <==> (key matches Some(key) && recorded(
                old(self).entries@,
                key.0@,
                key.1@,
            )),
            r.1 == RecordOutcome::AlreadyRecorded ==> final(self).entries@ == old(self).entries@
                && r.0@ == (AuditEntryView {
                id,
                event: event@,
                prev_hash: None,
                self_hash: seq![],
            }),
            r.1 == RecordOutcome::Inserted ==> r.0@ == entry_of(old(self).entries@, id, event@)
                && final(self).entries@.len() == old(self).entries@.len() + 1
                && final(self).entries@.drop_last() == old(self).entries@
                && final(self).entries@.last()@ == r.0@,
    {
        if let Some((provider, source_id)) = key {
            if self.is_recorded(provider, source_id) {
                return (
                    AuditEntry { id, event, prev_hash: None, self_hash: String::new() },
                    RecordOutcome::AlreadyRecorded,
                );
            }
        }
        let previous = if self.entries.len() > 0 {
            Some(self.entries[self.entries.len() - 1].self_hash.clone())
        } else {
            None
        };
        let mut entry = AuditEntry { id, event, prev_hash: previous, self_hash: String::new() };
        let hash = entry_hash(&entry);
        entry.self_hash = hash;
        let ghost before = self.entries@;
        self.entries.push(entry.clone());
        assert(self.entries@.drop_last() =~= before);
        (entry, RecordOutcome::Inserted)
    }

    /// Append an event and return its hash-linked entry.
    pub fn record(&mut self, id: Uuid, event: AuditEvent) -> (r: AuditEntry)
        ensures
            r@ == entry_of(old(self).entries@, id, event@),
            final(self).entries@.len() == old(self).entries@.len() + 1,
            final(self).entries@.drop_last() == old(self).entries@,
            final(self).entries@.last()@ == r@,
    {
        let (entry, _) = self.append_with_key_check(None, id, event);
        entry
    }

    /// Append an event only when no entry with the same `(provider, source_id)` key exists yet,
    /// and report which happened.
    pub fn record_once(&mut self, provider: &str, source_id: &str, id: Uuid, event: AuditEvent) -> (r:
        RecordOutcome)
        ensures
            r == RecordOutcome::AlreadyRecorded <==> recorded(
                old(self).entries@,
                provider@,
                source_id@,
            ),
            r == RecordOutcome::AlreadyRecorded ==> final(self).entries@ == old(self).entries@,
            r == RecordOutcome::Inserted ==> final(self).entries@.len() == old(
                self,
            ).entries@.len() + 1 && final(self).entries@.drop_last() == old(self).entries@
                && final(self).entries@.last()@ == entry_of(old(self).entries@, id, event@),
    {
        let (_, outcome) = self.append_with_key_check(Some((provider, source_id)), id, event);
        outcome
    }

    /// Return matching entries in chronological insertion order.
    pub fn query(&self, filter: &AuditFilter) -> (r: Vec<AuditEntry>)
        ensures
            views(r@) == at_most(selected(self.entries@, *filter), filter.limit),
            forall|i: int|
                0 <= i < r@.len() ==> {
                    let event = (#[trigger] r@[i]).event;
                    &&& filter.provider matches Some(provider) ==> event.provider@ == provider@
                    &&& filter.action matches Some(action) ==> event.action == action
                    &&& filter.source_id matches Some(id) ==> view_opt(event.source_id) == Some(id@)
                    &&& filter.since matches Some(since) ==> since.ticks()
                        <= event.timestamp.ticks()
                    &&& filter.until matches Some(until) ==> event.timestamp.ticks()
                        <= until.ticks()
                    &&& views(self.entries@).contains(r@[i]@)
                },
            filter.limit is None ==> forall|i: int|
                0 <= i < self.entries@.len() && {
                    let event = (#[trigger] self.entries@[i]).event;
                    &&& filter.provider matches Some(provider) ==> event.provider@ == provider@
                    &&& filter.action matches Some(action) ==> event.action == action
                    &&& filter.source_id matches Some(id) ==> view_opt(event.source_id) == Some(id@)
                    &&& filter.since matches Some(since) ==> since.ticks()
                        <= event.timestamp.ticks()
                    &&& filter.until matches Some(until) ==> event.timestamp.ticks()
                        <= until.ticks()
                } ==> views(r@).contains(self.entries@[i]@),
            filter.limit matches Some(limit) ==> r@.len() <= limit,
    {
        let ghost all = self.entries@;
        let mut out: Vec<AuditEntry> = Vec::new();
        let mut i: usize = 0;
        assert(all.take(0) =~= seq![]);
        assert(views(out@) =~= seq![]);
        while i < self.entries.len()
            invariant
                i <= self.entries@.len(),
                all == self.entries@,
                views(out@) == selected(all.take(i as int), *filter),
            decreases self.entries@.len() - i,
        {
            let ghost before = out@;
            proof {
                let next = all.take(i + 1);
                assert(next.drop_last() =~= all.take(i as int));
                assert(next.last() == all[i as int]);
            }
            if filter.is_match(&self.entries[i]) {
                out.push(self.entries[i].clone());
                assert(views(out@) =~= views(before).push(all[i as int]@));
            }
            i += 1;
        }
        assert(all.take(all.len() as int) =~= all);
        let ghost full = out@;
        assert(views(full).len() == full.len());
        if let Some(limit) = filter.limit {
            out.truncate(limit);
            proof {
                if limit < full.len() {
                    assert(views(out@) =~= views(full).take(limit as int));
                }
            }
        }
        proof {
            let ok = asked_for(*filter);
            law_a_query_returns_what_meets_every_criterion(all, *filter);
            assert(views(full) == views(all).filter(ok));
            assert forall|i: int| 0 <= i < out@.len() implies ok((#[trigger] out@[i])@) && views(
                all,
            ).contains(out@[i]@) by {
                assert(views(full)[i] == out@[i]@);
                views(all).lemma_filter_pred(ok, i);
                lemma_filtered_from(views(all), ok, i);
            }
            if filter.limit is None {
                assert forall|i: int| 0 <= i < all.len() && ok((#[trigger] all[i])@) implies views(
                    out@,
                ).contains(all[i]@) by {
                    assert(views(all)[i] == all[i]@);
                    views(all).lemma_filter_contains(ok, i);
                }
            }
        }
        out
    }

    /// Recompute the chain and return whether every entry is intact.
    pub fn verify_chain(&self) -> (r: bool)
        ensures
            r == intact(self.entries@),
    {
        let mut prior: Option<String> = None;
        let mut i: usize = 0;
        while i < self.entries.len()
            invariant
                i <= self.entries@.len(),
                forall|j: int| 0 <= j < i ==> #[trigger] linked(self.entries@, j),
                view_opt(prior) == (if i == 0 {
                    None
                } else {
                    Some(self.entries@[i - 1]@.self_hash)
                }),
            decreases self.entries@.len() - i,
        {
            let entry = &self.entries[i];
            let hash = entry_hash(entry);
            if !same_hash(&entry.prev_hash, &prior) || !str_eq(
                entry.self_hash.as_str(),
                hash.as_str(),
            ) {
                assert(!linked(self.entries@, i as int));
                return false;
            }
            assert(linked(self.entries@, i as int));
            prior = Some(entry.self_hash.clone());
            i += 1;
        }
        true
    }
}

/// What a filter asks of an entry: each criterion that is given.
pub open spec fn asked_for(filter: AuditFilter) -> spec_fn(AuditEntryView) -> bool {
    |entry: AuditEntryView|
        {
            &&& filter.provider matches Some(provider) ==> entry.event.provider == provider@
            &&& filter.action matches Some(action) ==> entry.event.action == action
            &&& filter.source_id matches Some(id) ==> entry.event.source_id == Some(id@)
            &&& filter.since matches Some(since) ==> since.ticks() <= entry.event.timestamp.ticks()
            &&& filter.until matches Some(until) ==> entry.event.timestamp.ticks() <= until.ticks()
        }
}

/// A query keeps, in their order, exactly the entries that have the given provider, action and
/// source ID and lie in the window, whose ends belong to it; what is not given does not count.
pub proof fn law_a_query_returns_what_meets_every_criterion(
    entries: Seq<AuditEntry>,
    filter: AuditFilter,
)
    ensures
        selected(entries, filter) == views(entries).filter(asked_for(filter)),
    decreases entries.len(),
{
    reveal(Seq::filter);
    let all = views(entries);
    if entries.len() > 0 {
        law_a_query_returns_what_meets_every_criterion(entries.drop_last(), filter);
        assert(all.drop_last() =~= views(entries.drop_last()));
        let at = entries.last()@.event.timestamp;
        if let Some(since) = filter.since {
            law_earlier_points_come_first(at, since);
        }
        if let Some(until) = filter.until {
            law_earlier_points_come_first(until, at);
        }
        assert(all.last() == entries.last()@);
    } else {
        assert(all =~= seq![]);
    }
}

/// A narrower query returns no more: adding a criterion to a filter takes entries away, and never
/// adds one.
pub proof fn law_narrower_queries_return_less(
    entries: Seq<AuditEntry>,
    wide: AuditFilter,
    narrow: AuditFilter,
    i: int,
)
    requires
        wide.provider is Some ==> view_opt(narrow.provider) == view_opt(wide.provider),
        wide.action is Some ==> narrow.action == wide.action,
        wide.source_id is Some ==> view_opt(narrow.source_id) == view_opt(wide.source_id),
        wide.since matches Some(from) ==> (narrow.since matches Some(later) && from.ticks()
            <= later.ticks()),
        wide.until matches Some(to) ==> (narrow.until matches Some(sooner) && sooner.ticks()
            <= to.ticks()),
        0 <= i < selected(entries, narrow).len(),
    ensures
        selected(entries, wide).contains(selected(entries, narrow)[i]),
{
    let all = views(entries);
    law_a_query_returns_what_meets_every_criterion(entries, wide);
    law_a_query_returns_what_meets_every_criterion(entries, narrow);
    all.lemma_filter_pred(asked_for(narrow), i);
    lemma_filtered_from(all, asked_for(narrow), i);
    let entry = selected(entries, narrow)[i];
    let j = choose|j: int| 0 <= j < all.len() && all[j] == entry;
    assert(asked_for(wide)(entry));
    all.lemma_filter_contains(asked_for(wide), j);
}

/// An entry holds what was recorded: the event as it is under the ID that it was given, linked to
/// the entry that was last.
pub proof fn law_an_entry_holds_its_event(entries: Seq<AuditEntry>, id: Uuid, event: AuditEventView)
    ensures
        entry_of(entries, id, event).id == id,
        entry_of(entries, id, event).event == event,
        entries.len() == 0 ==> entry_of(entries, id, event).prev_hash is None,
        entries.len() > 0 ==> entry_of(entries, id, event).prev_hash == Some(
            entries[entries.len() - 1].self_hash@,
        ),
{
}

/// Exactly the keys of the entries are recorded: appending makes the key of its own event recorded,
/// and no other.
pub proof fn law_appending_records_one_key(
    before: Seq<AuditEntry>,
    after: Seq<AuditEntry>,
    id: Uuid,
    event: AuditEventView,
    provider: Seq<char>,
    source_id: Seq<char>,
)
    requires
        after.len() == before.len() + 1,
        after.drop_last() == before,
        after.last()@ == entry_of(before, id, event),
    ensures
        !recorded(Seq::<AuditEntry>::empty(), provider, source_id),
        recorded(after, provider, source_id) <==> recorded(before, provider, source_id) || (
        event.provider == provider && event.source_id == Some(source_id)),
{
    assert forall|j: int| 0 <= j < before.len() implies after[j] == before[j] by {
        assert(after.drop_last()[j] == before[j]);
    }
    if recorded(before, provider, source_id) {
        let i = choose|i: int|
            0 <= i < before.len() && (#[trigger] before[i])@.event.provider == provider
                && before[i]@.event.source_id == Some(source_id);
        assert(after[i]@.event.provider == provider);
    }
    if event.provider == provider && event.source_id == Some(source_id) {
        assert(after[after.len() - 1]@.event.provider == provider);
    }
    if recorded(after, provider, source_id) {
        let i = choose|i: int|
            0 <= i < after.len() && (#[trigger] after[i])@.event.provider == provider
                && after[i]@.event.source_id == Some(source_id);
        if i < before.len() {
            assert(before[i]@.event.provider == provider);
        }
    }
}

/// An entry's hash does not depend on the hash that the entry carries.
proof fn lemma_hash_ignores_itself(a: AuditEntryView, b: AuditEntryView)
    requires
        a.id == b.id,
        a.event == b.event,
        a.prev_hash == b.prev_hash,
    ensures
        hash_of(a) == hash_of(b),
{
    assert(payload_view(a) == payload_view(b));
}

/// Appending to an intact trail leaves an intact trail.
pub proof fn law_appending_keeps_the_trail_intact(
    before: Seq<AuditEntry>,
    after: Seq<AuditEntry>,
    id: Uuid,
    event: AuditEventView,
)
    requires
        intact(before),
        after.len() == before.len() + 1,
        after.drop_last() == before,
        after.last()@ == entry_of(before, id, event),
    ensures
        intact(after),
{
    assert forall|i: int| 0 <= i < after.len() implies #[trigger] linked(after, i) by {
        assert forall|j: int| 0 <= j < before.len() implies after[j] == before[j] by {
            assert(after.drop_last()[j] == before[j]);
        }
        if i < before.len() {
            assert(linked(before, i));
        } else {
            let unsigned = AuditEntryView {
                id,
                event,
                prev_hash: tail_hash(before),
                self_hash: seq![],
            };
            lemma_hash_ignores_itself(unsigned, after.last()@);
        }
    }
}

/// Once an event is recorded under its own key, recording under that key again is refused.
pub proof fn law_a_key_is_recorded_once(
    before: Seq<AuditEntry>,
    after: Seq<AuditEntry>,
    id: Uuid,
    event: AuditEventView,
    source_id: Seq<char>,
)
    requires
        event.source_id == Some(source_id),
        after.len() == before.len() + 1,
        after.drop_last() == before,
        after.last()@ == entry_of(before, id, event),
    ensures
        recorded(after, event.provider, source_id),
{
    let i = after.len() - 1;
    assert(after[i]@.event.provider == event.provider);
}

proof fn lemma_event_names(event: AuditEventView)
    ensures
        distinct_names(event_view(event)->Object_0),
{
    reveal_strlit("action");
    reveal_strlit("provider");
    reveal_strlit("source_id");
    reveal_strlit("timestamp");
    reveal_strlit("metadata");
    assert("action"@[0] == 'a' && "provider"@[0] == 'p' && "source_id"@[0] == 's');
    assert("timestamp"@[0] == 't' && "metadata"@[0] == 'm');
}

/// The JSON of an event is sound where its metadata is.
pub proof fn lemma_event_is_sound(event: AuditEventView)
    requires
        sound(event.metadata),
    ensures
        sound(event_view(event)),
{
    reveal_with_fuel(sound, 2);
    let members = event_view(event)->Object_0;
    assert forall|i: int| 0 <= i < members.len() implies sound((#[trigger] members[i]).1) by {
        assert(i == 0 || i == 1 || i == 2 || i == 3 || i == 4);
    }
}

/// The canonical JSON of an event tells the event, but for the order of the members of its
/// metadata. The time counts by the text in which it stands in JSON.
pub proof fn law_the_json_of_an_event_tells_it(a: AuditEventView, b: AuditEventView)
    requires
        canonical(event_view(a)) == canonical(event_view(b)),
    ensures
        a.action == b.action,
        a.provider == b.provider,
        a.source_id == b.source_id,
        time_view(a.timestamp) == time_view(b.timestamp),
        canonical(a.metadata) == canonical(b.metadata),
{
    let ours = event_view(a)->Object_0;
    let theirs = event_view(b)->Object_0;
    lemma_event_names(b);
    lemma_members_agree(ours, theirs, 0, 0);
    lemma_members_agree(ours, theirs, 1, 1);
    lemma_members_agree(ours, theirs, 2, 2);
    lemma_members_agree(ours, theirs, 3, 3);
    lemma_members_agree(ours, theirs, 4, 4);
    reveal_strlit("normalize");
    reveal_strlit("send");
    reveal_strlit("fetch_attachment");
    assert("normalize"@[0] == 'n' && "send"@[0] == 's' && "fetch_attachment"@[0] == 'f');
    assert(canonical(ours[2].1) == opt_text_view(a.source_id));
    assert(canonical(theirs[2].1) == opt_text_view(b.source_id));
}

/// Entries whose hashes are taken of the same bytes say the same: they have the same ID, the same
/// predecessor, and events that differ at most in the order of the members of their metadata. IDs
/// and times count by the texts in which they stand in JSON.
pub proof fn law_the_hashed_bytes_tell_the_entry(a: AuditEntryView, b: AuditEntryView)
    requires
        sound(a.event.metadata),
        sound(b.event.metadata),
        hashed_bytes(a) == hashed_bytes(b),
    ensures
        uuid_text(a.id.value) == uuid_text(b.id.value),
        a.prev_hash == b.prev_hash,
        a.event.action == b.event.action,
        a.event.provider == b.event.provider,
        a.event.source_id == b.event.source_id,
        time_view(a.event.timestamp) == time_view(b.event.timestamp),
        canonical(a.event.metadata) == canonical(b.event.metadata),
{
    let left = rendered(canonical(payload_view(a)));
    let right = rendered(canonical(payload_view(b)));
    vstd::utf8::encode_utf8_decode_utf8(left);
    vstd::utf8::encode_utf8_decode_utf8(right);
    assert(left == right);
    lemma_payload_is_sound(a);
    lemma_payload_is_sound(b);
    law_the_canonical_text_tells_the_canonical_form(payload_view(a), payload_view(b));
    let ours = payload_view(a)->Object_0;
    let theirs = payload_view(b)->Object_0;
    reveal_strlit("event");
    reveal_strlit("id");
    reveal_strlit("prev_hash");
    assert("event"@[0] == 'e' && "id"@[0] == 'i' && "prev_hash"@[0] == 'p');
    assert(distinct_names(theirs));
    lemma_members_agree(ours, theirs, 0, 0);
    lemma_members_agree(ours, theirs, 1, 1);
    lemma_members_agree(ours, theirs, 2, 2);
    law_the_json_of_an_event_tells_it(a.event, b.event);
    assert(canonical(ours[2].1) == opt_text_view(a.prev_hash));
    assert(canonical(theirs[2].1) == opt_text_view(b.prev_hash));
}

proof fn lemma_payload_is_sound(entry: AuditEntryView)
    requires
        sound(entry.event.metadata),
    ensures
        sound(payload_view(entry)),
{
    reveal_with_fuel(sound, 2);
    lemma_event_is_sound(entry.event);
    let members = payload_view(entry)->Object_0;
    assert forall|i: int| 0 <= i < members.len() implies sound((#[trigger] members[i]).1) by {
        assert(i == 0 || i == 1 || i == 2);
    }
}

/// Whether a trail started empty and was only ever appended to, by recording.
pub open spec fn only_recorded(entries: Seq<AuditEntry>) -> bool
    decreases entries.len(),
{
    entries.len() == 0 || {
        let last = entries.last()@;
        &&& last == entry_of(entries.drop_last(), last.id, last.event)
        &&& only_recorded(entries.drop_last())
    }
}

/// A trail that started empty and was only ever appended to is intact: each entry carries its own
/// hash and refers to the hash of the entry before it, and the first one refers to none.
pub proof fn law_a_recorded_trail_is_intact(entries: Seq<AuditEntry>)
    requires
        only_recorded(entries),
    ensures
        intact(entries),
    decreases entries.len(),
{
    if entries.len() > 0 {
        let last = entries.last()@;
        law_a_recorded_trail_is_intact(entries.drop_last());
        law_appending_keeps_the_trail_intact(entries.drop_last(), entries, last.id, last.event);
    }
}

/// Whether no two entries carry the same hash.
pub open spec fn distinct_hashes(entries: Seq<AuditEntry>) -> bool {
    forall|i: int, j: int|
        0 <= i < j < entries.len() ==> (#[trigger] entries[i])@.self_hash != (
        #[trigger] entries[j])@.self_hash
}

/// Putting entries into the order of the chain neither adds nor drops one.
pub proof fn law_ordering_keeps_every_entry(read: Seq<AuditEntry>, previous: Option<Seq<char>>)
    ensures
        chained(read, previous).to_multiset() == read.to_multiset(),
    decreases read.len(),
{
    broadcast use vstd::seq_lib::group_to_multiset_ensures;

    lemma_successor(read, previous);
    let at = successor(read, previous);
    if at < read.len() {
        let entry = read[at];
        let rest = chained(read.remove(at), Some(entry@.self_hash));
        law_ordering_keeps_every_entry(read.remove(at), Some(entry@.self_hash));
        assert(read.contains(entry));
        vstd::seq_lib::lemma_multiset_commutative(seq![entry], rest);
        assert(seq![entry] =~= Seq::<AuditEntry>::empty().push(entry));
        assert(chained(read, previous).to_multiset() =~= read.to_multiset());
    }
}

/// Entries with the same contents hold the same entries.
proof fn lemma_same_entries(a: Seq<AuditEntry>, b: Seq<AuditEntry>, i: int) -> (j: int)
    requires
        a.to_multiset() == b.to_multiset(),
        0 <= i < a.len(),
    ensures
        0 <= j < b.len(),
        b[j] == a[i],
{
    broadcast use vstd::seq_lib::group_to_multiset_ensures;

    assert(a.contains(a[i]));
    assert(a.to_multiset().count(a[i]) > 0);
    assert(b.contains(a[i]));
    choose|j: int| 0 <= j < b.len() && b[j] == a[i]
}

/// Hashes that are distinct stay so in any order.
proof fn lemma_distinct_in_any_order(a: Seq<AuditEntry>, b: Seq<AuditEntry>)
    requires
        distinct_hashes(a),
        a.to_multiset() == b.to_multiset(),
    ensures
        distinct_hashes(b),
{
    broadcast use vstd::seq_lib::group_to_multiset_ensures;

    assert(a.no_duplicates());
    a.lemma_multiset_has_no_duplicates();
    assert(b.to_multiset().len() == b.len());
    b.lemma_multiset_has_no_duplicates_conv();
    assert forall|i: int, j: int| 0 <= i < j < b.len() implies (#[trigger] b[i])@.self_hash != (
    #[trigger] b[j])@.self_hash by {
        let k = lemma_same_entries(b, a, i);
        let l = lemma_same_entries(b, a, j);
        assert(b[i] != b[j]);
        assert(k != l);
        if k < l {
            assert(a[k]@.self_hash != a[l]@.self_hash);
        } else {
            assert(a[l]@.self_hash != a[k]@.self_hash);
        }
    }
}

/// In an intact trail with distinct hashes no two entries refer to the same one.
proof fn lemma_links_are_distinct(entries: Seq<AuditEntry>, i: int, j: int)
    requires
        intact(entries),
        distinct_hashes(entries),
        0 <= i < entries.len(),
        0 <= j < entries.len(),
        entries[i]@.prev_hash == entries[j]@.prev_hash,
    ensures
        i == j,
{
    assert(linked(entries, i));
    assert(linked(entries, j));
    if 0 < i < j {
        assert(entries[i - 1]@.self_hash != entries[j - 1]@.self_hash);
    }
    if 0 < j < i {
        assert(entries[j - 1]@.self_hash != entries[i - 1]@.self_hash);
    }
}

/// Whether two entries say something different: another ID, another event or another predecessor.
/// IDs and times count by the texts in which they stand in JSON, and the order of the members of
/// metadata does not count.
pub open spec fn says_otherwise(a: AuditEntryView, b: AuditEntryView) -> bool {
    ||| uuid_text(a.id.value) != uuid_text(b.id.value)
    ||| a.prev_hash != b.prev_hash
    ||| a.event.action != b.event.action
    ||| a.event.provider != b.event.provider
    ||| a.event.source_id != b.event.source_id
    ||| time_view(a.event.timestamp) != time_view(b.event.timestamp)
    ||| canonical(a.event.metadata) != canonical(b.event.metadata)
}

/// Whether SHA-256 tells the bytes apart that the hashes of two entries are taken of.
pub open spec fn told_apart(a: AuditEntryView, b: AuditEntryView) -> bool {
    hashed_bytes(a) != hashed_bytes(b) ==> sha256_hex(hashed_bytes(a)) != sha256_hex(
        hashed_bytes(b),
    )
}

/// Entries that were read back in any order fail verification where one of them has another ID,
/// event or predecessor than was recorded, unless two texts share their SHA-256 hash.
pub proof fn law_a_changed_entry_is_detected(
    entries: Seq<AuditEntry>,
    i: int,
    changed: AuditEntry,
    read: Seq<AuditEntry>,
)
    requires
        intact(entries),
        0 <= i < entries.len(),
        sound(entries[i]@.event.metadata),
        sound(changed@.event.metadata),
        changed@.self_hash == entries[i]@.self_hash,
        says_otherwise(changed@, entries[i]@),
        told_apart(changed@, entries[i]@),
        read.to_multiset() == entries.update(i, changed).to_multiset(),
    ensures
        !intact(chained(read, None)),
{
    let ordered = chained(read, None);
    law_ordering_keeps_every_entry(read, None);
    assert(linked(entries, i));
    if hashed_bytes(changed@) == hashed_bytes(entries[i]@) {
        law_the_hashed_bytes_tell_the_entry(changed@, entries[i]@);
    }
    let at = lemma_same_entries(entries.update(i, changed), ordered, i);
    assert(!linked(ordered, at));
}

/// Entries that were read back in any order fail verification where one of them carries another
/// hash than was recorded.
pub proof fn law_a_changed_hash_is_detected(
    entries: Seq<AuditEntry>,
    i: int,
    changed: AuditEntry,
    read: Seq<AuditEntry>,
)
    requires
        intact(entries),
        0 <= i < entries.len(),
        changed@ == (AuditEntryView { self_hash: changed@.self_hash, ..entries[i]@ }),
        changed@.self_hash != entries[i]@.self_hash,
        read.to_multiset() == entries.update(i, changed).to_multiset(),
    ensures
        !intact(chained(read, None)),
{
    let ordered = chained(read, None);
    law_ordering_keeps_every_entry(read, None);
    assert(linked(entries, i));
    lemma_hash_ignores_itself(changed@, entries[i]@);
    let at = lemma_same_entries(entries.update(i, changed), ordered, i);
    assert(!linked(ordered, at));
}

/// Entries that were read back in any order fail verification where one of them refers to another
/// entry than was recorded, whatever it then hashes to.
pub proof fn law_a_changed_link_is_detected(
    entries: Seq<AuditEntry>,
    i: int,
    changed: AuditEntry,
    read: Seq<AuditEntry>,
)
    requires
        intact(entries),
        distinct_hashes(entries),
        0 <= i < entries.len(),
        changed@.self_hash == entries[i]@.self_hash,
        changed@.prev_hash != entries[i]@.prev_hash,
        read.to_multiset() == entries.update(i, changed).to_multiset(),
    ensures
        !intact(chained(read, None)),
{
    let stored = entries.update(i, changed);
    let ordered = chained(read, None);
    law_ordering_keeps_every_entry(read, None);
    if intact(ordered) {
        assert(distinct_hashes(stored));
        lemma_distinct_in_any_order(stored, ordered);
        lemma_recorded_up_to(entries, i, changed, ordered, i);
        assert(ordered.to_multiset().len() == stored.to_multiset().len()) by {
            broadcast use vstd::seq_lib::group_to_multiset_ensures;

        }
        assert(ordered.len() == stored.len()) by {
            broadcast use vstd::seq_lib::group_to_multiset_ensures;

        }
        assert(linked(ordered, i));
        assert(linked(entries, i));
        if i > 0 {
            assert(ordered[i - 1] == entries[i - 1]);
        }
        let k = lemma_same_entries(ordered, stored, i);
        assert(stored[k]@.prev_hash == entries[i]@.prev_hash);
        if k != i {
            lemma_links_are_distinct(entries, k, i);
        }
    }
}

/// What stands before a changed link is in the order in which it was recorded.
proof fn lemma_recorded_up_to(
    entries: Seq<AuditEntry>,
    i: int,
    changed: AuditEntry,
    ordered: Seq<AuditEntry>,
    upto: int,
)
    requires
        intact(entries),
        0 <= upto <= i < entries.len(),
        ordered.to_multiset() == entries.update(i, changed).to_multiset(),
        intact(ordered),
        distinct_hashes(ordered),
    ensures
        upto <= ordered.len(),
        forall|j: int| 0 <= j < upto ==> #[trigger] ordered[j] == entries[j],
    decreases upto,
{
    broadcast use vstd::seq_lib::group_to_multiset_ensures;

    let stored = entries.update(i, changed);
    assert(ordered.to_multiset().len() == stored.to_multiset().len());
    assert(ordered.len() == stored.len());
    if upto > 0 {
        let j = upto - 1;
        lemma_recorded_up_to(entries, i, changed, ordered, j);
        assert(linked(ordered, j));
        assert(linked(entries, j));
        if j > 0 {
            assert(ordered[j - 1] == entries[j - 1]);
        }
        assert(stored[j] == entries[j]);
        let at = lemma_same_entries(stored, ordered, j);
        lemma_links_are_distinct(ordered, at, j);
    }
}

/// Entries that were read back in any order fail verification where any of them but the last is
/// missing.
pub proof fn law_a_removed_entry_is_detected(
    entries: Seq<AuditEntry>,
    i: int,
    read: Seq<AuditEntry>,
)
    requires
        intact(entries),
        distinct_hashes(entries),
        0 <= i < entries.len() - 1,
        read.to_multiset() == entries.remove(i).to_multiset(),
    ensures
        !intact(chained(read, None)),
{
    let rest = entries.remove(i);
    let ordered = chained(read, None);
    law_ordering_keeps_every_entry(read, None);
    if intact(ordered) {
        assert(linked(entries, i + 1));
        assert(rest[i] == entries[i + 1]);
        let at = lemma_same_entries(rest, ordered, i);
        assert(linked(ordered, at));
        let k = lemma_same_entries(ordered, rest, at - 1);
        let original = if k < i {
            k
        } else {
            k + 1
        };
        assert(rest[k] == entries[original]);
        if original < i {
            assert(entries[original]@.self_hash != entries[i]@.self_hash);
        } else {
            assert(entries[i]@.self_hash != entries[original]@.self_hash);
        }
    }
}

/// Entries that were read back in any order, unchanged, are put into the order in which they were
/// appended and pass verification.
pub proof fn law_order_is_rebuilt_from_the_chain(entries: Seq<AuditEntry>, read: Seq<AuditEntry>)
    requires
        intact(entries),
        distinct_hashes(entries),
        read.to_multiset() == entries.to_multiset(),
    ensures
        chained(read, None) == entries,
        intact(chained(read, None)),
{
    assert(entries.skip(0) =~= entries);
    lemma_chained(entries, 0, read);
}

proof fn lemma_chained(entries: Seq<AuditEntry>, k: int, read: Seq<AuditEntry>)
    requires
        intact(entries),
        distinct_hashes(entries),
        0 <= k <= entries.len(),
        read.to_multiset() == entries.skip(k).to_multiset(),
    ensures
        chained(read, if k == 0 {
            None
        } else {
            Some(entries[k - 1]@.self_hash)
        }) == entries.skip(k),
    decreases entries.len() - k,
{
    broadcast use vstd::seq_lib::group_to_multiset_ensures;
    let rest = entries.skip(k);
    let previous = if k == 0 {
        None
    } else {
        Some(entries[k - 1]@.self_hash)
    };
    assert(read.to_multiset().len() == rest.to_multiset().len());
    assert(read.len() == rest.len());
    lemma_successor(read, previous);
    let at = successor(read, previous);
    if k == entries.len() {
        assert(read =~= rest);
    } else {
        assert(linked(entries, k));
        assert(rest[0] == entries[k]);
        assert(rest.contains(entries[k]));
        assert(rest.to_multiset().count(entries[k]) > 0);
        assert(read.contains(entries[k]));
        let where_ = choose|i: int| 0 <= i < read.len() && read[i] == entries[k];
        assert(read[where_]@.prev_hash == previous);
        assert(at < read.len());
        assert(read.contains(read[at]));
        assert(read.to_multiset().count(read[at]) > 0);
        assert(rest.contains(read[at]));
        let j = choose|j: int| 0 <= j < rest.len() && rest[j] == read[at];
        assert(entries[k + j] == read[at]);
        assert(linked(entries, k + j));
        assert(j == 0) by {
            if j > 0 && k == 0 {
                assert(entries[j]@.prev_hash is Some);
            }
            if j > 0 && k > 0 {
                assert(entries[k - 1]@.self_hash != entries[k + j - 1]@.self_hash);
            }
        }
        assert(read[at] == entries[k]);
        let fewer = read.remove(at);
        assert(rest.remove(0) =~= entries.skip(k + 1));
        assert(fewer.to_multiset() =~= read.to_multiset().remove(read[at]));
        assert(entries.skip(k + 1).to_multiset() =~= rest.to_multiset().remove(rest[0]));
        lemma_chained(entries, k + 1, fewer);
        assert(seq![entries[k]] + entries.skip(k + 1) =~= rest);
    }
}

/// The lines of a log are those that are not blank, in their order.
pub proof fn law_blank_lines_hold_no_entry(all: Seq<Seq<char>>)
    ensures
        record_lines_of(all) == all.filter(|line: Seq<char>| !blank(line)),
    decreases all.len(),
{
    reveal(Seq::filter);
    if all.len() > 0 {
        law_blank_lines_hold_no_entry(all.drop_last());
    }
}

/// The JSON of an event and of an entry hold each value under its own name.
pub proof fn law_entries_hold_each_value_under_its_name(entry: AuditEntryView)
    ensures
        ({
            let event = event_view(entry.event)->Object_0;
            let members = entry_view(entry)->Object_0;
            &&& event_view(entry.event) is Object && event.len() == 5
            &&& event[0] == ("action"@, JsonView::Text(entry.event.action.wire_name()))
            &&& event[1] == ("provider"@, JsonView::Text(entry.event.provider))
            &&& event[2].0 == "source_id"@
            &&& entry.event.source_id matches Some(id) ==> event[2].1 == JsonView::Text(id)
            &&& entry.event.source_id is None ==> event[2].1 == JsonView::Null
            &&& event[3] == ("timestamp"@, time_view(entry.event.timestamp))
            &&& event[4] == ("metadata"@, entry.event.metadata)
            &&& entry_view(entry) is Object && members.len() == 4
            &&& members[0] == ("id"@, JsonView::Text(uuid_text(entry.id.value)))
            &&& members[1] == ("event"@, event_view(entry.event))
            &&& members[2].0 == "prev_hash"@
            &&& entry.prev_hash matches Some(hash) ==> members[2].1 == JsonView::Text(hash)
            &&& entry.prev_hash is None ==> members[2].1 == JsonView::Null
            &&& members[3] == ("self_hash"@, JsonView::Text(entry.self_hash))
        }),
{
}

/// A limit cuts the end of what a query found.
pub proof fn law_limited_queries_return_the_first<A>(items: Seq<A>, limit: usize)
    ensures
        at_most(items, None) == items,
        at_most(items, Some(limit)).len() == (if items.len() <= limit {
            items.len() as int
        } else {
            limit as int
        }),
        forall|i: int|
            0 <= i < at_most(items, Some(limit)).len() ==> #[trigger] at_most(items, Some(limit))[i]
                == items[i],
{
}

} // verus!
