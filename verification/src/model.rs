//! Unified domain model: the superset format all providers normalize into.

use vstd::prelude::*;
use crate::error::{IrisError, IrisErrorView};
use crate::ids::{random_id, Uuid};
use crate::json::{Json, JsonView};
use crate::text::{copy_opt, view_opt, views};
use crate::time::Timestamp;

verus! {

/// A contact is any entity that can send or receive messages.
#[derive(Debug, PartialEq, Eq)]
pub struct Contact {
    /// Globally unique Iris contact ID (assigned by Iris, not the source).
    pub id: Uuid,
    /// The provider this contact originated from.
    pub source: String,
    /// The provider-specific identifier (e.g. phone number, username, user ID).
    pub source_id: String,
    /// The configured provider instance that listed this contact.
    pub provider_instance: Option<String>,
    /// Human-readable display name, if available.
    pub display_name: Option<String>,
    /// Provider-specific avatar URL, if available.
    pub avatar_url: Option<String>,
    /// Additional provider-specific metadata that doesn't map to core fields.
    pub metadata: Json,
}

/// The mathematical value of a contact.
#[verifier::ext_equal]
pub struct ContactView {
    pub id: Uuid,
    pub source: Seq<char>,
    pub source_id: Seq<char>,
    pub provider_instance: Option<Seq<char>>,
    pub display_name: Option<Seq<char>>,
    pub avatar_url: Option<Seq<char>>,
    pub metadata: JsonView,
}

impl View for Contact {
    type V = ContactView;

    open spec fn view(&self) -> ContactView {
        ContactView {
            id: self.id,
            source: self.source@,
            source_id: self.source_id@,
            provider_instance: view_opt(self.provider_instance),
            display_name: view_opt(self.display_name),
            avatar_url: view_opt(self.avatar_url),
            metadata: self.metadata@,
        }
    }
}

impl Clone for Contact {
    fn clone(&self) -> (r: Contact)
        ensures
            r@ == self@,
    {
        Contact {
            id: self.id,
            source: self.source.clone(),
            source_id: self.source_id.clone(),
            provider_instance: copy_opt(&self.provider_instance),
            display_name: copy_opt(&self.display_name),
            avatar_url: copy_opt(&self.avatar_url),
            metadata: self.metadata.clone(),
        }
    }
}

/// The kind of content a message carries.
#[derive(Clone, Copy, Debug, PartialEq, Eq, Structural)]
pub enum MessageKind {
    /// Plain text.
    Text,
    /// Rich text with formatting (markdown, HTML, etc.).
    RichText,
    /// Image attachment.
    Image,
    /// Audio attachment.
    Audio,
    /// Video attachment.
    Video,
    /// File attachment.
    File,
    /// Sticker, emoji, or reaction.
    Sticker,
    /// Location sharing.
    Location,
    /// System event (join, leave, title change, etc.).
    System,
    /// Unknown or unsupported message type.
    Unknown,
}

impl MessageKind {
    /// The name under which the kind stands in JSON.
    pub open spec fn wire_name(self) -> Seq<char> {
        match self {
            MessageKind::Text => "text"@,
            MessageKind::RichText => "rich_text"@,
            MessageKind::Image => "image"@,
            MessageKind::Audio => "audio"@,
            MessageKind::Video => "video"@,
            MessageKind::File => "file"@,
            MessageKind::Sticker => "sticker"@,
            MessageKind::Location => "location"@,
            MessageKind::System => "system"@,
            MessageKind::Unknown => "unknown"@,
        }
    }

    /// The name under which the kind stands in JSON.
    pub fn kind_name(&self) -> (r: &'static str)
        ensures
            r@ == self.wire_name(),
    {
        match self {
            MessageKind::Text => "text",
            MessageKind::RichText => "rich_text",
            MessageKind::Image => "image",
            MessageKind::Audio => "audio",
            MessageKind::Video => "video",
            MessageKind::File => "file",
            MessageKind::Sticker => "sticker",
            MessageKind::Location => "location",
            MessageKind::System => "system",
            MessageKind::Unknown => "unknown",
        }
    }
}

/// A file or media attachment on a message.
#[derive(Debug, PartialEq, Eq)]
pub struct Attachment {
    /// Iris attachment ID: that of the stored content, or a random one before it is stored.
    pub id: Uuid,
    /// MIME type of the attachment.
    pub mime_type: String,
    /// URL to retrieve the attachment content.
    pub url: String,
    /// Filename, if known.
    pub filename: Option<String>,
    /// File size in bytes, if known.
    pub size: Option<u64>,
}

/// The mathematical value of an attachment, but for its ID, which the content does not determine.
#[verifier::ext_equal]
pub struct AttachmentView {
    pub mime_type: Seq<char>,
    pub url: Seq<char>,
    pub filename: Option<Seq<char>>,
    pub size: Option<u64>,
}

impl View for Attachment {
    type V = AttachmentView;

    open spec fn view(&self) -> AttachmentView {
        AttachmentView {
            mime_type: self.mime_type@,
            url: self.url@,
            filename: view_opt(self.filename),
            size: self.size,
        }
    }
}

/// The IDs of attachments.
pub open spec fn attachment_ids(items: Seq<Attachment>) -> Seq<Uuid> {
    items.map_values(|item: Attachment| item.id)
}

/// Whether every attachment has a random ID.
pub open spec fn randomly_named(items: Seq<Attachment>) -> bool {
    forall|i: int| 0 <= i < items.len() ==> random_id((#[trigger] items[i]).id.value)
}

impl Clone for Attachment {
    fn clone(&self) -> (r: Attachment)
        ensures
            r@ == self@,
            r.id == self.id,
    {
        Attachment {
            id: self.id,
            mime_type: self.mime_type.clone(),
            url: self.url.clone(),
            filename: copy_opt(&self.filename),
            size: self.size,
        }
    }
}

/// Copies a list of attachments.
pub fn copy_attachments(items: &Vec<Attachment>) -> (r: Vec<Attachment>)
    ensures
        views(r@) == views(items@),
        attachment_ids(r@) == attachment_ids(items@),
{
    let mut out: Vec<Attachment> = Vec::new();
    let mut i: usize = 0;
    while i < items.len()
        invariant
            i <= items@.len(),
            out@.len() == i,
            forall|j: int|
                0 <= j < i ==> (#[trigger] out@[j])@ == items@[j]@ && out@[j].id == items@[j].id,
        decreases items@.len() - i,
    {
        out.push(items[i].clone());
        i += 1;
    }
    assert(views(out@) =~= views(items@));
    assert(attachment_ids(out@) =~= attachment_ids(items@));
    out
}

/// Copies a list of contacts.
pub fn copy_contacts(items: &Vec<Contact>) -> (r: Vec<Contact>)
    ensures
        views(r@) == views(items@),
{
    let mut out: Vec<Contact> = Vec::new();
    let mut i: usize = 0;
    while i < items.len()
        invariant
            i <= items@.len(),
            out@.len() == i,
            forall|j: int| 0 <= j < i ==> (#[trigger] out@[j])@ == items@[j]@,
        decreases items@.len() - i,
    {
        out.push(items[i].clone());
        i += 1;
    }
    assert(views(out@) =~= views(items@));
    out
}

/// A normalized message: the core unit of Iris.
#[derive(Debug, PartialEq, Eq)]
pub struct Message {
    /// Globally unique Iris message ID.
    pub id: Uuid,
    /// The thread this message belongs to.
    pub thread_id: Uuid,
    /// The provider this message originated from.
    pub source: String,
    /// The provider-specific message ID.
    pub source_id: String,
    /// The contact that sent this message.
    pub sender: Contact,
    /// Message content kind.
    pub kind: MessageKind,
    /// Primary text body. For non-text kinds, this may be a caption or empty.
    pub body: String,
    /// Attachments (URLs to media files).
    pub attachments: Vec<Attachment>,
    /// When the message was created (provider timestamp).
    pub timestamp: Timestamp,
    /// Whether this message was sent by the Iris instance owner.
    pub is_outbound: bool,
    /// Additional provider-specific metadata.
    pub metadata: Json,
}

/// The mathematical value of a message.
#[verifier::ext_equal]
pub struct MessageView {
    pub id: Uuid,
    pub thread_id: Uuid,
    pub source: Seq<char>,
    pub source_id: Seq<char>,
    pub sender: ContactView,
    pub kind: MessageKind,
    pub body: Seq<char>,
    pub attachments: Seq<AttachmentView>,
    pub timestamp: Timestamp,
    pub is_outbound: bool,
    pub metadata: JsonView,
}

impl View for Message {
    type V = MessageView;

    open spec fn view(&self) -> MessageView {
        MessageView {
            id: self.id,
            thread_id: self.thread_id,
            source: self.source@,
            source_id: self.source_id@,
            sender: self.sender@,
            kind: self.kind,
            body: self.body@,
            attachments: views(self.attachments@),
            timestamp: self.timestamp,
            is_outbound: self.is_outbound,
            metadata: self.metadata@,
        }
    }
}

impl Clone for Message {
    fn clone(&self) -> (r: Message)
        ensures
            r@ == self@,
            attachment_ids(r.attachments@) == attachment_ids(self.attachments@),
    {
        Message {
            id: self.id,
            thread_id: self.thread_id,
            source: self.source.clone(),
            source_id: self.source_id.clone(),
            sender: self.sender.clone(),
            kind: self.kind,
            body: self.body.clone(),
            attachments: copy_attachments(&self.attachments),
            timestamp: self.timestamp,
            is_outbound: self.is_outbound,
            metadata: self.metadata.clone(),
        }
    }
}

/// A message with the IDs of its attachments, which its mathematical value leaves out.
#[verifier::ext_equal]
pub struct WholeMessage {
    pub message: MessageView,
    pub attachment_ids: Seq<Uuid>,
}

/// The whole of a message.
pub open spec fn whole(message: Message) -> WholeMessage {
    WholeMessage {
        message: message@,
        attachment_ids: attachment_ids(message.attachments@),
    }
}

/// The whole of a message that may be missing.
pub open spec fn whole_opt(message: Option<Message>) -> Option<WholeMessage> {
    match message {
        Some(message) => Some(whole(message)),
        None => None,
    }
}

/// The whole of a message, or the error that came in its place.
pub open spec fn whole_result(result: Result<Message, IrisError>) -> Result<
    WholeMessage,
    IrisErrorView,
> {
    match result {
        Ok(message) => Ok(whole(message)),
        Err(error) => Err(error@),
    }
}

/// The whole of each message.
pub open spec fn wholes(messages: Seq<Message>) -> Seq<WholeMessage> {
    messages.map_values(|message: Message| whole(message))
}

/// A thread is a conversation: a group of messages between contacts.
#[derive(Debug, PartialEq, Eq)]
pub struct Thread {
    /// Globally unique Iris thread ID.
    pub id: Uuid,
    /// The provider this thread originated from.
    pub source: String,
    /// The provider-specific thread ID.
    pub source_id: String,
    /// The configured provider instance that listed this thread.
    pub provider_instance: Option<String>,
    /// Human-readable thread title (contact name, group name, etc.).
    pub title: Option<String>,
    /// Participants in the thread.
    pub participants: Vec<Contact>,
    /// When the thread was last updated.
    pub last_message_at: Timestamp,
    /// Number of unread messages, if the provider exposes this.
    pub unread_count: Option<u32>,
    /// Additional provider-specific metadata.
    pub metadata: Json,
}

/// The mathematical value of a thread.
#[verifier::ext_equal]
pub struct ThreadView {
    pub id: Uuid,
    pub source: Seq<char>,
    pub source_id: Seq<char>,
    pub provider_instance: Option<Seq<char>>,
    pub title: Option<Seq<char>>,
    pub participants: Seq<ContactView>,
    pub last_message_at: Timestamp,
    pub unread_count: Option<u32>,
    pub metadata: JsonView,
}

impl View for Thread {
    type V = ThreadView;

    open spec fn view(&self) -> ThreadView {
        ThreadView {
            id: self.id,
            source: self.source@,
            source_id: self.source_id@,
            provider_instance: view_opt(self.provider_instance),
            title: view_opt(self.title),
            participants: views(self.participants@),
            last_message_at: self.last_message_at,
            unread_count: self.unread_count,
            metadata: self.metadata@,
        }
    }
}

impl Clone for Thread {
    fn clone(&self) -> (r: Thread)
        ensures
            r@ == self@,
    {
        Thread {
            id: self.id,
            source: self.source.clone(),
            source_id: self.source_id.clone(),
            provider_instance: copy_opt(&self.provider_instance),
            title: copy_opt(&self.title),
            participants: copy_contacts(&self.participants),
            last_message_at: self.last_message_at,
            unread_count: self.unread_count,
            metadata: self.metadata.clone(),
        }
    }
}

/// Each kind of message has a name of its own.
pub proof fn law_kinds_have_names_of_their_own(a: MessageKind, b: MessageKind)
    ensures
        a.wire_name() == b.wire_name() ==> a == b,
{
    reveal_strlit("text");
    reveal_strlit("rich_text");
    reveal_strlit("image");
    reveal_strlit("audio");
    reveal_strlit("video");
    reveal_strlit("file");
    reveal_strlit("sticker");
    reveal_strlit("location");
    reveal_strlit("system");
    reveal_strlit("unknown");
    assert("text"@.len() == 4 && "text"@[0] == 't' && "rich_text"@.len() == 9);
    assert("image"@.len() == 5 && "image"@[0] == 'i' && "audio"@.len() == 5 && "audio"@[0] == 'a');
    assert("video"@.len() == 5 && "video"@[0] == 'v' && "file"@.len() == 4 && "file"@[0] == 'f');
    assert("sticker"@.len() == 7 && "sticker"@[0] == 's' && "location"@.len() == 8);
    assert("system"@.len() == 6 && "unknown"@.len() == 7 && "unknown"@[0] == 'u');
}

} // verus!
