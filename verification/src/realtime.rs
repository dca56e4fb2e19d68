//! The versioned, fixed, content-free audit metadata of realtime ingress.

use vstd::prelude::*;
use crate::audit::{json_time, time_view};
use crate::json::{
    json_array, json_number, json_object, json_opt_text, json_text, member, member_views,
    opt_text_view, Json, JsonNumberView, JsonView,
};
use crate::model::{Attachment, MessageKind};
use crate::text::{copy_opt, view_opt, views};
use crate::time::Timestamp;

verus! {

/// Current version of the realtime audit metadata schema.
pub const REALTIME_AUDIT_SCHEMA_VERSION: u32 = 1;

/// The kind of realtime event being audited.
#[derive(Clone, Copy, Debug, PartialEq, Eq, Structural)]
pub enum RealtimeEventKind {
    /// A normalizable message was received and normalized.
    Message,
    /// An update with no usable message shape (acknowledged and skipped).
    IgnoredUpdate,
    /// An update whose payload failed decode/normalization with a known ID.
    InvalidUpdate,
}

impl RealtimeEventKind {
    /// Stable wire name recorded in audit metadata.
    pub open spec fn wire_name(self) -> Seq<char> {
        match self {
            RealtimeEventKind::Message => "message"@,
            RealtimeEventKind::IgnoredUpdate => "ignored_update"@,
            RealtimeEventKind::InvalidUpdate => "invalid_update"@,
        }
    }

    /// Stable wire name recorded in audit metadata.
    pub fn as_str(self) -> (r: &'static str)
        ensures
            r@ == self.wire_name(),
    {
        match self {
            RealtimeEventKind::Message => "message",
            RealtimeEventKind::IgnoredUpdate => "ignored_update",
            RealtimeEventKind::InvalidUpdate => "invalid_update",
        }
    }
}

/// Attachment summary permitted in realtime audit metadata: content-free shape metadata only.
#[derive(Debug, PartialEq, Eq)]
pub struct RealtimeAttachmentSummary {
    /// MIME type of the attachment.
    pub mime_type: String,
    /// Filename, if known.
    pub name: Option<String>,
    /// Size in bytes, if known.
    pub byte_count: Option<u64>,
}

/// The mathematical value of an attachment summary.
#[verifier::ext_equal]
pub struct SummaryView {
    pub mime_type: Seq<char>,
    pub name: Option<Seq<char>>,
    pub byte_count: Option<u64>,
}

impl View for RealtimeAttachmentSummary {
    type V = SummaryView;

    open spec fn view(&self) -> SummaryView {
        SummaryView {
            mime_type: self.mime_type@,
            name: view_opt(self.name),
            byte_count: self.byte_count,
        }
    }
}

impl From<&Attachment> for RealtimeAttachmentSummary {
    fn from(attachment: &Attachment) -> (r: RealtimeAttachmentSummary) {
        RealtimeAttachmentSummary {
            mime_type: attachment.mime_type.clone(),
            name: copy_opt(&attachment.filename),
            byte_count: attachment.size,
        }
    }
}

impl vstd::std_specs::convert::FromSpecImpl<&Attachment> for RealtimeAttachmentSummary {
    open spec fn obeys_from_spec() -> bool {
        true
    }

    open spec fn from_spec(attachment: &Attachment) -> RealtimeAttachmentSummary {
        RealtimeAttachmentSummary {
            mime_type: attachment.mime_type,
            name: attachment.filename,
            byte_count: attachment.size,
        }
    }
}

/// Builder for the versioned, fixed, content-free realtime audit metadata.
///
/// Every field permitted by the schema is explicit; anything not present in this builder is
/// forbidden.
#[derive(Debug)]
pub struct RealtimeAuditMetadata {
    schema_version: u32,
    event_kind: RealtimeEventKind,
    provider: String,
    update_id: String,
    source_id: Option<String>,
    thread_id: Option<String>,
    message_id: Option<String>,
    message_kind: Option<MessageKind>,
    timestamp: Timestamp,
    attachments: Vec<RealtimeAttachmentSummary>,
}

/// The mathematical value of realtime audit metadata.
#[verifier::ext_equal]
pub struct RealtimeAuditView {
    pub schema_version: u32,
    pub event_kind: RealtimeEventKind,
    pub provider: Seq<char>,
    pub update_id: Seq<char>,
    pub source_id: Option<Seq<char>>,
    pub thread_id: Option<Seq<char>>,
    pub message_id: Option<Seq<char>>,
    pub message_kind: Option<MessageKind>,
    pub timestamp: Timestamp,
    pub attachments: Seq<SummaryView>,
}

impl View for RealtimeAuditMetadata {
    type V = RealtimeAuditView;

    closed spec fn view(&self) -> RealtimeAuditView {
        RealtimeAuditView {
            schema_version: self.schema_version,
            event_kind: self.event_kind,
            provider: self.provider@,
            update_id: self.update_id@,
            source_id: view_opt(self.source_id),
            thread_id: view_opt(self.thread_id),
            message_id: view_opt(self.message_id),
            message_kind: self.message_kind,
            timestamp: self.timestamp,
            attachments: views(self.attachments@),
        }
    }
}

/// Metadata as it begins: nothing recorded but the update itself.
pub open spec fn fresh_audit(
    event_kind: RealtimeEventKind,
    provider: Seq<char>,
    update_id: Seq<char>,
    timestamp: Timestamp,
) -> RealtimeAuditView {
    RealtimeAuditView {
        schema_version: REALTIME_AUDIT_SCHEMA_VERSION,
        event_kind,
        provider,
        update_id,
        source_id: None,
        thread_id: None,
        message_id: None,
        message_kind: None,
        timestamp,
        attachments: seq![],
    }
}

/// The members of an attachment summary's JSON.
pub open spec fn summary_members(summary: SummaryView) -> Seq<(Seq<char>, JsonView)> {
    (match summary.byte_count {
        Some(n) => seq![("byte_count"@, JsonView::Number(JsonNumberView::Unsigned(n)))],
        None => seq![],
    }) + seq![("mime_type"@, JsonView::Text(summary.mime_type))] + (match summary.name {
        Some(name) => seq![("name"@, JsonView::Text(name))],
        None => seq![],
    })
}

/// The JSON of an optional message kind.
pub open spec fn kind_view(kind: Option<MessageKind>) -> JsonView {
    match kind {
        Some(kind) => JsonView::Text(kind.wire_name()),
        None => JsonView::Null,
    }
}

/// The JSON of realtime audit metadata.
pub open spec fn audit_metadata_view(audit: RealtimeAuditView) -> JsonView {
    JsonView::Object(
        seq![
            (
                "attachments"@,
                JsonView::Array(
                    audit.attachments.map_values(
                        |summary: SummaryView| JsonView::Object(summary_members(summary)),
                    ),
                ),
            ),
            ("event_kind"@, JsonView::Text(audit.event_kind.wire_name())),
            ("message_id"@, opt_text_view(audit.message_id)),
            ("message_kind"@, kind_view(audit.message_kind)),
            ("provider"@, JsonView::Text(audit.provider)),
            (
                "schema_version"@,
                JsonView::Number(JsonNumberView::Unsigned(audit.schema_version as u64)),
            ),
            ("source_id"@, opt_text_view(audit.source_id)),
            ("thread_id"@, opt_text_view(audit.thread_id)),
            ("timestamp"@, time_view(audit.timestamp)),
            ("update_id"@, JsonView::Text(audit.update_id)),
        ],
    )
}

impl RealtimeAttachmentSummary {
    /// The JSON of the summary.
    pub fn to_json(&self) -> (r: Json)
        ensures
            r@ == JsonView::Object(summary_members(self@)),
    {
        let mut members: Vec<(String, Json)> = Vec::new();
        if let Some(byte_count) = self.byte_count {
            members.push(member("byte_count", json_number(byte_count)));
        }
        members.push(member("mime_type", json_text(self.mime_type.as_str())));
        if let Some(name) = &self.name {
            members.push(member("name", json_text(name.as_str())));
        }
        assert(member_views(members@) =~= summary_members(self@));
        json_object(members)
    }
}

impl RealtimeAuditMetadata {
    /// Begin building metadata for an audited realtime update.
    pub fn new(
        event_kind: RealtimeEventKind,
        provider: &str,
        update_id: &str,
        timestamp: Timestamp,
    ) -> (r: RealtimeAuditMetadata)
        ensures
            r@ == fresh_audit(event_kind, provider@, update_id@, timestamp),
    {
        let r = RealtimeAuditMetadata {
            schema_version: REALTIME_AUDIT_SCHEMA_VERSION,
            event_kind,
            provider: provider.to_owned(),
            update_id: update_id.to_owned(),
            source_id: None,
            thread_id: None,
            message_id: None,
            message_kind: None,
            timestamp,
            attachments: Vec::new(),
        };
        assert(views(r.attachments@) =~= seq![]);
        r
    }

    /// Record the provider-specific source identifier (e.g. chat/user ID).
    pub fn with_source_id(self, source_id: &str) -> (r: RealtimeAuditMetadata)
        ensures
            r@ == (RealtimeAuditView { source_id: Some(source_id@), ..self@ }),
    {
        RealtimeAuditMetadata { source_id: Some(source_id.to_owned()), ..self }
    }

    /// Record the Iris thread ID of the normalized message.
    pub fn with_thread_id(self, thread_id: &str) -> (r: RealtimeAuditMetadata)
        ensures
            r@ == (RealtimeAuditView { thread_id: Some(thread_id@), ..self@ }),
    {
        RealtimeAuditMetadata { thread_id: Some(thread_id.to_owned()), ..self }
    }

    /// Record the Iris message ID of the normalized message.
    pub fn with_message_id(self, message_id: &str) -> (r: RealtimeAuditMetadata)
        ensures
            r@ == (RealtimeAuditView { message_id: Some(message_id@), ..self@ }),
    {
        RealtimeAuditMetadata { message_id: Some(message_id.to_owned()), ..self }
    }

    /// Record the normalized message kind.
    pub fn with_message_kind(self, message_kind: MessageKind) -> (r: RealtimeAuditMetadata)
        ensures
            r@ == (RealtimeAuditView { message_kind: Some(message_kind), ..self@ }),
    {
        RealtimeAuditMetadata { message_kind: Some(message_kind), ..self }
    }

    /// Replace the attachment summary list.
    pub fn with_attachments(self, attachments: Vec<RealtimeAttachmentSummary>) -> (r:
        RealtimeAuditMetadata)
        ensures
            r@ == (RealtimeAuditView { attachments: views(attachments@), ..self@ }),
    {
        RealtimeAuditMetadata { attachments, ..self }
    }

    /// Serialize to the fixed content-free JSON metadata value.
    pub fn to_json(&self) -> (r: Json)
        ensures
            r@ == audit_metadata_view(self@),
    {
        let mut items: Vec<Json> = Vec::new();
        let mut i: usize = 0;
        while i < self.attachments.len()
            invariant
                i <= self.attachments@.len(),
                items@.len() == i,
                forall|j: int|
                    0 <= j < i ==> (#[trigger] items@[j])@ == JsonView::Object(
                        summary_members(self.attachments@[j]@),
                    ),
            decreases self.attachments@.len() - i,
        {
            items.push(self.attachments[i].to_json());
            i += 1;
        }
        assert(views(items@) =~= self@.attachments.map_values(
            |summary: SummaryView| JsonView::Object(summary_members(summary)),
        ));
        let kind = match &self.message_kind {
            Some(kind) => json_text(kind.kind_name()),
            None => Json::Null,
        };
        let mut members: Vec<(String, Json)> = Vec::new();
        members.push(member("attachments", json_array(items)));
        members.push(member("event_kind", json_text(self.event_kind.as_str())));
        members.push(member("message_id", json_opt_text(&self.message_id)));
        members.push(member("message_kind", kind));
        members.push(member("provider", json_text(self.provider.as_str())));
        members.push(member("schema_version", json_number(self.schema_version as u64)));
        members.push(member("source_id", json_opt_text(&self.source_id)));
        members.push(member("thread_id", json_opt_text(&self.thread_id)));
        members.push(member("timestamp", json_time(&self.timestamp)));
        members.push(member("update_id", json_text(self.update_id.as_str())));
        assert(member_views(members@) =~= audit_metadata_view(self@)->Object_0);
        json_object(members)
    }
}

/// The schema is fixed: whatever is recorded, the metadata has these members and no others.
pub proof fn law_metadata_schema_is_fixed(audit: RealtimeAuditView)
    ensures
        audit_metadata_view(audit) is Object,
        audit_metadata_view(audit)->Object_0.map_values(|member: (Seq<char>, JsonView)| member.0)
            == seq![
            "attachments"@,
            "event_kind"@,
            "message_id"@,
            "message_kind"@,
            "provider"@,
            "schema_version"@,
            "source_id"@,
            "thread_id"@,
            "timestamp"@,
            "update_id"@,
        ],
{
    let names = audit_metadata_view(audit)->Object_0.map_values(
        |member: (Seq<char>, JsonView)| member.0,
    );
    assert(names =~= seq![
        "attachments"@,
        "event_kind"@,
        "message_id"@,
        "message_kind"@,
        "provider"@,
        "schema_version"@,
        "source_id"@,
        "thread_id"@,
        "timestamp"@,
        "update_id"@,
    ]);
}

/// The metadata holds each value under its own name.
pub proof fn law_metadata_holds_each_value_under_its_name(audit: RealtimeAuditView)
    ensures
        ({
            let m = audit_metadata_view(audit)->Object_0;
            &&& m[0].1 is Array && m[0].1->Array_0.len() == audit.attachments.len()
            &&& m[1].1 == JsonView::Text(audit.event_kind.wire_name())
            &&& audit.message_id matches Some(id) ==> m[2].1 == JsonView::Text(id)
            &&& audit.message_id is None ==> m[2].1 == JsonView::Null
            &&& audit.message_kind matches Some(kind) ==> m[3].1 == JsonView::Text(kind.wire_name())
            &&& audit.message_kind is None ==> m[3].1 == JsonView::Null
            &&& m[4].1 == JsonView::Text(audit.provider)
            &&& m[5].1 == JsonView::Number(
                JsonNumberView::Unsigned(audit.schema_version as u64),
            )
            &&& audit.source_id matches Some(id) ==> m[6].1 == JsonView::Text(id)
            &&& audit.source_id is None ==> m[6].1 == JsonView::Null
            &&& audit.thread_id matches Some(id) ==> m[7].1 == JsonView::Text(id)
            &&& audit.thread_id is None ==> m[7].1 == JsonView::Null
            &&& m[8].1 == time_view(audit.timestamp)
            &&& m[9].1 == JsonView::Text(audit.update_id)
        }),
{
}

/// Each attachment is summed up by its type, and by its size and name as far as they are known.
pub proof fn law_attachments_are_summed_up(audit: RealtimeAuditView, i: int)
    requires
        0 <= i < audit.attachments.len(),
    ensures
        ({
            let summary = audit.attachments[i];
            let told = audit_metadata_view(audit)->Object_0[0].1->Array_0[i];
            let kind = ("mime_type"@, JsonView::Text(summary.mime_type));
            &&& told is Object && told->Object_0.contains(kind)
            &&& summary.byte_count matches Some(n) ==> told->Object_0[0] == (
                "byte_count"@,
                JsonView::Number(JsonNumberView::Unsigned(n)),
            )
            &&& summary.name matches Some(name) ==> told->Object_0.last() == (
                "name"@,
                JsonView::Text(name),
            )
            &&& told->Object_0.len() == 1 + (if summary.byte_count is Some {
                1int
            } else {
                0
            }) + (if summary.name is Some {
                1int
            } else {
                0
            })
        }),
{
    let summary = audit.attachments[i];
    let told = summary_members(summary);
    let kind = ("mime_type"@, JsonView::Text(summary.mime_type));
    if summary.byte_count is Some {
        assert(told[1] == kind);
    } else {
        assert(told[0] == kind);
    }
}

/// A fresh record is of the first version, for its update, and names no message yet.
pub proof fn law_fresh_records_name_no_message(
    event_kind: RealtimeEventKind,
    provider: Seq<char>,
    update_id: Seq<char>,
    timestamp: Timestamp,
)
    ensures
        ({
            let audit = fresh_audit(event_kind, provider, update_id, timestamp);
            &&& audit.schema_version == 1
            &&& audit.event_kind == event_kind
            &&& audit.provider == provider
            &&& audit.update_id == update_id
            &&& audit.timestamp == timestamp
            &&& audit.source_id is None && audit.thread_id is None
            &&& audit.message_id is None && audit.message_kind is None
            &&& audit.attachments.len() == 0
        }),
{
}

} // verus!
