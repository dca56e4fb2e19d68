//! Telegram Bot API provider.
//!
//! Telegram bots can only read messages delivered to the bot. This provider therefore normalizes
//! the visible `getUpdates` backlog rather than pretending to provide an account-wide Telegram
//! archive.

pub mod download;
pub mod poller;
pub mod realtime;
pub mod send;

use vstd::prelude::*;
use crate::contacts::{
    dedupe_contacts, law_one_item_for_each_key, lemma_contains_either, source_ids,
    unique_contacts,
};
use crate::decimal::{
    decimal, law_decimals_read_back, parse_signed, parsed_signed, signed_text,
};
use crate::error::{config_error, prefixed, IrisError, IrisErrorView};
use crate::ids::{uuid_parsed, uuid_text, uuid_v5, Uuid};
use crate::json::{
    integer_view, json_array, json_integer, json_number, json_object, json_opt_text, json_text,
    member, member_views, opt_text_view, put_member, Json, JsonNumberView, JsonView,
};
use crate::listing::{
    allowed, first_items, keep_first, law_the_earliest_messages_are_listed,
    law_the_latest_threads_are_listed, lemma_first_views, newer, older, sort_newest_first,
    sort_oldest_first,
};
use crate::maps::{find, last_under, lemma_put, ordered, put, StringMap};
use crate::model::{
    randomly_named, Attachment, AttachmentView, Contact, ContactView, Message, MessageKind,
    MessageView, Thread, ThreadView,
};
use crate::order::{sorted_by, viewed};
use crate::provider::{ProviderCapability, ProviderMetadata};
use crate::text::{
    ascii_lowercase, begins, blank, copy_opt, is_blank, lowered_ascii, starts_with, str_eq, trim,
    trim_trailing, trimmed, view_opt, views, without_trailing,
};
use crate::time::{
    law_a_point_is_made_of_its_parts, law_earlier_points_come_first, Timestamp, MAX_SECS, MIN_SECS,
};
use crate::wire::{known_types, law_extensions_stand_for_types, mime_of};

verus! {

/// The namespace of the UUIDs of Telegram's chats, users and messages.
pub const UUID_NAMESPACE: u128 = 0x6e6c_4e12_1a7d_4a3c_8b53_8914_42f3_0001;

/// Static metadata about the provider.
pub fn metadata() -> (r: ProviderMetadata)
    ensures
        r.id@ == "telegram"@,
        r.name@ == "Telegram"@,
        r.capabilities@ == seq![
            ProviderCapability::ListMessages,
            ProviderCapability::SendMessages,
            ProviderCapability::SendAttachments,
            ProviderCapability::ListThreads,
            ProviderCapability::ListContacts,
            ProviderCapability::ReceiveRealtime,
        ],
{
    let capabilities: &'static [ProviderCapability] = &[
        ProviderCapability::ListMessages,
        ProviderCapability::SendMessages,
        ProviderCapability::SendAttachments,
        ProviderCapability::ListThreads,
        ProviderCapability::ListContacts,
        ProviderCapability::ReceiveRealtime,
    ];
    assert(capabilities@ =~= seq![
        ProviderCapability::ListMessages,
        ProviderCapability::SendMessages,
        ProviderCapability::SendAttachments,
        ProviderCapability::ListThreads,
        ProviderCapability::ListContacts,
        ProviderCapability::ReceiveRealtime,
    ]);
    ProviderMetadata { id: "telegram", name: "Telegram", capabilities }
}

/// Where the Bot API is reached, and as which bot.
#[derive(Debug, PartialEq, Eq)]
pub struct TelegramProvider {
    pub base_url: String,
    pub bot_token: String,
}

/// What a token and a base URL make.
pub open spec fn provider_of(bot_token: Seq<char>, base_url: Seq<char>) -> Result<
    (Seq<char>, Seq<char>),
    IrisErrorView,
> {
    if blank(bot_token) {
        Err(IrisErrorView::Config("telegram bot_token is required"@))
    } else {
        Ok((bot_token, without_trailing(base_url, '/')))
    }
}

/// The result of making a provider, over views.
pub open spec fn provider_result(r: Result<TelegramProvider, IrisError>) -> Result<
    (Seq<char>, Seq<char>),
    IrisErrorView,
> {
    match r {
        Ok(provider) => Ok((provider.bot_token@, provider.base_url@)),
        Err(error) => Err(error@),
    }
}

/// What resolved credentials make.
pub open spec fn provider_from(credentials: Seq<(Seq<char>, Seq<char>)>) -> Result<
    (Seq<char>, Seq<char>),
    IrisErrorView,
> {
    let token = match find(credentials, "bot_token"@) {
        Some(token) => Some(token),
        None => find(credentials, "token"@),
    };
    match token {
        Some(token) => provider_of(token, "https://api.telegram.org"@),
        None => Err(IrisErrorView::Config("telegram credentials.bot_token is required"@)),
    }
}

impl TelegramProvider {
    /// Create a Telegram provider using the public Bot API endpoint.
    pub fn new(bot_token: &str) -> (r: Result<TelegramProvider, IrisError>)
        ensures
            provider_result(r) == provider_of(bot_token@, "https://api.telegram.org"@),
    {
        TelegramProvider::with_base_url(bot_token, "https://api.telegram.org")
    }

    /// Create a Telegram provider with a custom base URL for tests or proxies.
    pub fn with_base_url(bot_token: &str, base_url: &str) -> (r: Result<
        TelegramProvider,
        IrisError,
    >)
        ensures
            provider_result(r) == provider_of(bot_token@, base_url@),
    {
        if is_blank(bot_token) {
            return Err(config_error("telegram bot_token is required"));
        }
        Ok(
            TelegramProvider {
                base_url: trim_trailing(base_url, '/').to_owned(),
                bot_token: bot_token.to_owned(),
            },
        )
    }

    /// Build from resolved provider credentials.
    pub fn from_credentials(credentials: &StringMap<String>) -> (r: Result<
        TelegramProvider,
        IrisError,
    >)
        ensures
            provider_result(r) == provider_from(credentials.texts()),
    {
        let token = match credentials.get_text("bot_token") {
            Some(token) => token,
            None => match credentials.get_text("token") {
                Some(token) => token,
                None => {
                    return Err(config_error("telegram credentials.bot_token is required"));
                },
            },
        };
        TelegramProvider::new(token.as_str())
    }

    /// The URL of a Bot API method.
    pub fn method_url(&self, method: &str) -> (r: String)
        ensures
            r@ == self.base_url@ + "/bot"@ + self.bot_token@ + "/"@ + method@,
    {
        let mut url = self.base_url.clone();
        url.append("/bot");
        url.append(self.bot_token.as_str());
        url.append("/");
        url.append(method);
        url
    }

    /// The download URL for a Telegram file path.
    pub fn file_download_url(&self, file_path: &str) -> (r: String)
        ensures
            r@ == self.base_url@ + "/file/bot"@ + self.bot_token@ + "/"@ + file_path@,
    {
        let mut url = self.base_url.clone();
        url.append("/file/bot");
        url.append(self.bot_token.as_str());
        url.append("/");
        url.append(file_path);
        url
    }
}

/// A reply of the Bot API.
#[derive(Debug)]
pub struct TelegramResponse<T> {
    pub ok: bool,
    pub result: Option<T>,
    pub description: Option<String>,
}

impl<T> TelegramResponse<T> {
    /// The error that a reply without a result stands for.
    pub open spec fn failure(self) -> IrisErrorView {
        IrisErrorView::Provider {
            provider: "telegram"@,
            message: match self.description {
                Some(description) => description@,
                None => "Telegram API request failed"@,
            },
        }
    }

    /// The result of an accepted request, or the error that the reply describes.
    pub fn into_result(self) -> (r: Result<T, IrisError>)
        ensures
            r is Ok <==> self.ok && self.result is Some,
            r matches Ok(value) ==> self.result == Some(value),
            r matches Err(error) ==> error@ == self.failure(),
    {
        let description = match self.description {
            Some(description) => description,
            None => "Telegram API request failed".to_owned(),
        };
        match (self.ok, self.result) {
            (true, Some(result)) => Ok(result),
            _ => Err(
                IrisError::Provider { provider: "telegram".to_owned(), message: description },
            ),
        }
    }
}

/// An update that the Bot API delivers.
#[derive(Debug, PartialEq, Eq)]
pub struct TelegramUpdate {
    pub update_id: i64,
    pub message: Option<TelegramMessage>,
}

/// A message as the Bot API describes it.
#[derive(Debug, PartialEq, Eq)]
pub struct TelegramMessage {
    pub message_id: i64,
    pub date: i64,
    pub chat: TelegramChat,
    pub from: Option<TelegramUser>,
    pub text: Option<String>,
    pub caption: Option<String>,
    pub photo: Option<Vec<TelegramPhotoSize>>,
    pub audio: Option<TelegramFilePayload>,
    pub voice: Option<TelegramFilePayload>,
    pub video: Option<TelegramFilePayload>,
    pub document: Option<TelegramFilePayload>,
    pub sticker: Option<TelegramFilePayload>,
    pub location: Option<Json>,
    pub new_chat_members: Vec<TelegramUser>,
    pub left_chat_member: Option<TelegramUser>,
    pub new_chat_title: Option<String>,
    pub new_chat_photo: Option<Vec<TelegramPhotoSize>>,
    pub delete_chat_photo: Option<bool>,
    pub group_chat_created: Option<bool>,
    pub supergroup_chat_created: Option<bool>,
    pub channel_chat_created: Option<bool>,
    pub migrate_to_chat_id: Option<i64>,
    pub migrate_from_chat_id: Option<i64>,
    pub pinned_message: Option<Box<TelegramMessage>>,
    /// What the message holds besides, in the order of the names.
    pub extra: Vec<(String, Json)>,
}

/// A chat.
#[derive(Debug, PartialEq, Eq)]
pub struct TelegramChat {
    pub id: i64,
    pub kind: String,
    pub title: Option<String>,
    pub username: Option<String>,
    pub first_name: Option<String>,
    pub last_name: Option<String>,
}

/// A user.
#[derive(Debug, PartialEq, Eq)]
pub struct TelegramUser {
    pub id: i64,
    pub is_bot: bool,
    pub first_name: String,
    pub last_name: Option<String>,
    pub username: Option<String>,
}

/// One size of a photo.
#[derive(Debug, PartialEq, Eq)]
pub struct TelegramPhotoSize {
    pub file_id: String,
    pub file_unique_id: String,
    pub width: u32,
    pub height: u32,
    pub file_size: Option<u64>,
}

/// What `getFile` says of a file.
#[derive(Debug, PartialEq, Eq)]
pub struct TelegramFile {
    pub file_id: String,
    pub file_unique_id: Option<String>,
    /// Path used to construct the download URL.
    pub file_path: String,
    pub file_size: Option<u64>,
}

/// A file on a message.
#[derive(Debug, PartialEq, Eq)]
pub struct TelegramFilePayload {
    pub file_id: String,
    pub file_unique_id: Option<String>,
    pub mime_type: Option<String>,
    pub file_name: Option<String>,
    pub file_size: Option<u64>,
}

/// One normalized Telegram update returned by long polling.
#[derive(Debug, PartialEq, Eq)]
pub struct TelegramPolledMessage {
    /// Telegram update id used to advance the next polling offset.
    pub update_id: i64,
    /// Offset callers should pass to the next poll after processing this update.
    pub next_offset: i64,
    /// Normalized Iris message.
    pub message: Message,
}

/// The UUID of a chat's thread.
pub open spec fn thread_id_of(chat_id: i64) -> Uuid {
    Uuid::named(UUID_NAMESPACE, "thread:"@ + decimal(chat_id as int))
}

/// The UUID of a message.
pub open spec fn message_id_of(chat_id: i64, message_id: i64) -> Uuid {
    Uuid::named(
        UUID_NAMESPACE,
        "message:"@ + decimal(chat_id as int) + ":"@ + decimal(message_id as int),
    )
}

/// The point so many seconds after the epoch, the epoch itself where the calendar has none.
pub open spec fn unix_time(secs: i64) -> Timestamp {
    if MIN_SECS <= secs <= MAX_SECS {
        Timestamp::at(secs, 0)
    } else {
        Timestamp::at(0, 0)
    }
}

/// The UUID of a chat's thread.
pub fn thread_uuid(chat_id: i64) -> (r: Uuid)
    ensures
        r == thread_id_of(chat_id),
{
    Uuid::of_name(
        UUID_NAMESPACE,
        prefixed("thread:", signed_text(chat_id).as_str()).as_str(),
    )
}

fn message_uuid(chat_id: i64, message_id: i64) -> (r: Uuid)
    ensures
        r == message_id_of(chat_id, message_id),
{
    let mut name = prefixed("message:", signed_text(chat_id).as_str());
    name.append(":");
    name.append(signed_text(message_id).as_str());
    Uuid::of_name(UUID_NAMESPACE, name.as_str())
}

/// The point so many seconds after the epoch, the epoch itself where the calendar has none.
pub fn unix_timestamp(timestamp: i64) -> (r: Timestamp)
    ensures
        r == unix_time(timestamp),
{
    match Timestamp::from_seconds(timestamp) {
        Some(at) => at,
        None => Timestamp::epoch(),
    }
}

/// The title of a chat: its own, else the name of the person, else the user name.
pub open spec fn title_of(chat: TelegramChat) -> Option<Seq<char>> {
    match chat.title {
        Some(title) => Some(title@),
        None => match (chat.first_name, chat.last_name) {
            (Some(first), Some(last)) => Some(first@ + " "@ + last@),
            (Some(first), None) => Some(first@),
            (None, Some(last)) => Some(last@),
            (None, None) => view_opt(chat.username),
        },
    }
}

/// The name under which a user is shown.
pub open spec fn name_of(user: TelegramUser) -> Seq<char> {
    match user.last_name {
        Some(last) => user.first_name@ + " "@ + last@,
        None => user.first_name@,
    }
}

/// The contact of a user.
pub open spec fn contact_of(user: TelegramUser) -> ContactView {
    ContactView {
        id: Uuid::named(UUID_NAMESPACE, "user:"@ + decimal(user.id as int)),
        source: "telegram"@,
        source_id: decimal(user.id as int),
        provider_instance: None,
        display_name: Some(name_of(user)),
        avatar_url: None,
        metadata: JsonView::Object(
            seq![
                ("is_bot"@, JsonView::Bool(user.is_bot)),
                ("username"@, opt_text_view(view_opt(user.username))),
            ],
        ),
    }
}

/// The sender of a message: the user, or the chat where no user is named.
pub open spec fn sender_of(message: TelegramMessage) -> ContactView {
    match message.from {
        Some(user) => contact_of(user),
        None => ContactView {
            id: Uuid::named(UUID_NAMESPACE, "chat:"@ + decimal(message.chat.id as int)),
            source: "telegram"@,
            source_id: decimal(message.chat.id as int),
            provider_instance: None,
            display_name: title_of(message.chat),
            avatar_url: None,
            metadata: JsonView::Object(seq![("chat_sender"@, JsonView::Bool(true))]),
        },
    }
}

/// Whether a message tells of a change to its chat.
pub open spec fn system_event(message: TelegramMessage) -> bool {
    message.left_chat_member is Some || message.new_chat_members@.len() > 0
        || message.new_chat_title is Some || message.new_chat_photo is Some
        || message.delete_chat_photo is Some || message.group_chat_created is Some
        || message.supergroup_chat_created is Some || message.channel_chat_created is Some
        || message.migrate_to_chat_id is Some || message.migrate_from_chat_id is Some
        || message.pinned_message is Some
}

/// The kind of a message.
pub open spec fn kind_of(message: TelegramMessage) -> MessageKind {
    if message.text is Some {
        MessageKind::Text
    } else if message.photo is Some {
        MessageKind::Image
    } else if message.audio is Some || message.voice is Some {
        MessageKind::Audio
    } else if message.video is Some {
        MessageKind::Video
    } else if message.document is Some {
        MessageKind::File
    } else if message.sticker is Some {
        MessageKind::Sticker
    } else if message.location is Some {
        MessageKind::Location
    } else if system_event(message) {
        MessageKind::System
    } else {
        MessageKind::Unknown
    }
}

/// The body of a message: its text, else its caption.
pub open spec fn body_of(message: TelegramMessage) -> Seq<char> {
    match message.text {
        Some(text) => text@,
        None => match message.caption {
            Some(caption) => caption@,
            None => seq![],
        },
    }
}

/// The JSON of one size of a photo.
pub open spec fn photo_view(photo: TelegramPhotoSize) -> JsonView {
    JsonView::Object(
        seq![
            ("file_id"@, JsonView::Text(photo.file_id@)),
            (
                "file_size"@,
                match photo.file_size {
                    Some(n) => JsonView::Number(JsonNumberView::Unsigned(n)),
                    None => JsonView::Null,
                },
            ),
            ("file_unique_id"@, JsonView::Text(photo.file_unique_id@)),
            ("height"@, JsonView::Number(JsonNumberView::Unsigned(photo.height as u64))),
            ("width"@, JsonView::Number(JsonNumberView::Unsigned(photo.width as u64))),
        ],
    )
}

/// The members with some more put among them, one after the other.
pub open spec fn put_all(
    members: Seq<(Seq<char>, JsonView)>,
    more: Seq<(Seq<char>, JsonView)>,
) -> Seq<(Seq<char>, JsonView)>
    decreases more.len(),
{
    if more.len() == 0 {
        members
    } else {
        put(put_all(members, more.drop_last()), more.last().0, more.last().1)
    }
}

/// What the metadata of a message always holds.
pub open spec fn chat_members(message: TelegramMessage) -> Seq<(Seq<char>, JsonView)> {
    put(
        put(seq![], "chat_id"@, JsonView::Number(integer_view(message.chat.id))),
        "chat_type"@,
        JsonView::Text(message.chat.kind@),
    )
}

/// The metadata of a message: its chat, its photo, and whatever it holds besides.
pub open spec fn metadata_of(message: TelegramMessage) -> JsonView {
    let with_photo = match message.photo {
        Some(photo) => put(
            chat_members(message),
            "photo"@,
            JsonView::Array(photo@.map_values(|size: TelegramPhotoSize| photo_view(size))),
        ),
        None => chat_members(message),
    };
    JsonView::Object(put_all(with_photo, member_views(message.extra@)))
}

/// The attachment of a file, to be fetched under its pseudo-URL.
pub open spec fn file_attachment(payload: TelegramFilePayload) -> AttachmentView {
    AttachmentView {
        mime_type: match payload.mime_type {
            Some(mime_type) => mime_type@,
            None => "application/octet-stream"@,
        },
        url: "telegram:file_id:"@ + payload.file_id@,
        filename: view_opt(payload.file_name),
        size: payload.file_size,
    }
}

/// The attachment of an optional file.
pub open spec fn opt_file(payload: Option<TelegramFilePayload>) -> Seq<AttachmentView> {
    match payload {
        Some(payload) => seq![file_attachment(payload)],
        None => seq![],
    }
}

/// The attachment of a photo: its last, which is its largest, size.
pub open spec fn photo_attachment(message: TelegramMessage) -> Seq<AttachmentView> {
    match message.photo {
        Some(sizes) => if sizes@.len() > 0 {
            seq![
                AttachmentView {
                    mime_type: "image/jpeg"@,
                    url: "telegram:file_id:"@ + sizes@.last().file_id@,
                    filename: None,
                    size: sizes@.last().file_size,
                },
            ]
        } else {
            seq![]
        },
        None => seq![],
    }
}

/// The attachments of a message: photo, audio, voice, video, document, sticker.
pub open spec fn attachments_of(message: TelegramMessage) -> Seq<AttachmentView> {
    photo_attachment(message) + opt_file(message.audio) + opt_file(message.voice) + opt_file(
        message.video,
    ) + opt_file(message.document) + opt_file(message.sticker)
}

/// The normalized form of a message.
pub open spec fn message_of(message: TelegramMessage) -> MessageView {
    MessageView {
        id: message_id_of(message.chat.id, message.message_id),
        thread_id: thread_id_of(message.chat.id),
        source: "telegram"@,
        source_id: decimal(message.message_id as int),
        sender: sender_of(message),
        kind: kind_of(message),
        body: body_of(message),
        attachments: attachments_of(message),
        timestamp: unix_time(message.date),
        is_outbound: message.from matches Some(user) && user.is_bot,
        metadata: metadata_of(message),
    }
}

/// The contacts of some users.
pub open spec fn contacts_of(users: Seq<TelegramUser>) -> Seq<ContactView> {
    users.map_values(|user: TelegramUser| contact_of(user))
}

/// The contact of an optional user.
pub open spec fn opt_contact(user: Option<TelegramUser>) -> Seq<ContactView> {
    match user {
        Some(user) => seq![contact_of(user)],
        None => seq![],
    }
}

/// The thread of a message's chat, as far as the message tells.
pub open spec fn thread_of(message: TelegramMessage) -> ThreadView {
    ThreadView {
        id: thread_id_of(message.chat.id),
        source: "telegram"@,
        source_id: decimal(message.chat.id as int),
        provider_instance: None,
        title: title_of(message.chat),
        participants: unique_contacts(
            opt_contact(message.from) + contacts_of(message.new_chat_members@) + opt_contact(
                message.left_chat_member,
            ),
        ),
        last_message_at: unix_time(message.date),
        unread_count: None,
        metadata: JsonView::Object(
            seq![
                ("chat_type"@, JsonView::Text(message.chat.kind@)),
                ("username"@, opt_text_view(view_opt(message.chat.username))),
            ],
        ),
    }
}

impl TelegramChat {
    /// The title of the chat.
    pub fn title(&self) -> (r: Option<String>)
        ensures
            view_opt(r) == title_of(*self),
    {
        if let Some(title) = &self.title {
            return Some(title.clone());
        }
        match (&self.first_name, &self.last_name) {
            (Some(first), Some(last)) => {
                let mut name = prefixed(first.as_str(), " ");
                name.append(last.as_str());
                Some(name)
            },
            (Some(first), None) => Some(first.clone()),
            (None, Some(last)) => Some(last.clone()),
            (None, None) => copy_opt(&self.username),
        }
    }
}

impl TelegramUser {
    /// The name under which the user is shown.
    pub fn display_name(&self) -> (r: String)
        ensures
            r@ == name_of(*self),
    {
        match &self.last_name {
            Some(last) => {
                let mut name = prefixed(self.first_name.as_str(), " ");
                name.append(last.as_str());
                name
            },
            None => self.first_name.clone(),
        }
    }

    /// The contact of the user.
    pub fn to_contact(&self) -> (r: Contact)
        ensures
            r@ == contact_of(*self),
    {
        let id = signed_text(self.id);
        let mut members: Vec<(String, Json)> = Vec::new();
        members.push(member("is_bot", Json::Bool(self.is_bot)));
        members.push(member("username", json_opt_text(&self.username)));
        assert(member_views(members@) =~= contact_of(*self).metadata->Object_0);
        Contact {
            id: Uuid::of_name(UUID_NAMESPACE, prefixed("user:", id.as_str()).as_str()),
            source: "telegram".to_owned(),
            source_id: id,
            provider_instance: None,
            display_name: Some(self.display_name()),
            avatar_url: None,
            metadata: json_object(members),
        }
    }
}

fn photo_json(photo: &TelegramPhotoSize) -> (r: Json)
    ensures
        r@ == photo_view(*photo),
{
    let mut members: Vec<(String, Json)> = Vec::new();
    members.push(member("file_id", json_text(photo.file_id.as_str())));
    members.push(
        member(
            "file_size",
            match photo.file_size {
                Some(n) => json_number(n),
                None => Json::Null,
            },
        ),
    );
    members.push(member("file_unique_id", json_text(photo.file_unique_id.as_str())));
    members.push(member("height", json_number(photo.height as u64)));
    members.push(member("width", json_number(photo.width as u64)));
    assert(member_views(members@) =~= photo_view(*photo)->Object_0);
    json_object(members)
}

fn push_file(attachments: &mut Vec<Attachment>, payload: &Option<TelegramFilePayload>)
    ensures
        views(final(attachments)@) == views(old(attachments)@) + opt_file(*payload),
        randomly_named(old(attachments)@) ==> randomly_named(final(attachments)@),
{
    let ghost before = attachments@;
    if let Some(file) = payload {
        attachments.push(
            Attachment {
                id: Uuid::fresh(),
                mime_type: match &file.mime_type {
                    Some(mime_type) => mime_type.clone(),
                    None => "application/octet-stream".to_owned(),
                },
                url: prefixed("telegram:file_id:", file.file_id.as_str()),
                filename: copy_opt(&file.file_name),
                size: file.file_size,
            },
        );
    }
    assert(views(attachments@) =~= views(before) + opt_file(*payload));
}

impl TelegramMessage {
    /// Whether the message belongs to a thread, which its chat id or its UUID names.
    pub open spec fn in_thread(self, thread_id: Seq<char>) -> bool {
        decimal(self.chat.id as int) == thread_id || uuid_text(thread_id_of(self.chat.id).value)
            == thread_id
    }

    /// Whether the message belongs to a thread, which its chat id or its UUID names.
    pub fn chat_matches_thread(&self, thread_id: &str) -> (r: bool)
        ensures
            r == self.in_thread(thread_id@),
    {
        str_eq(signed_text(self.chat.id).as_str(), thread_id) || str_eq(
            thread_uuid(self.chat.id).text().as_str(),
            thread_id,
        )
    }

    /// The thread of the message's chat, as far as the message tells.
    pub fn to_thread(&self) -> (r: Thread)
        ensures
            r@ == thread_of(*self),
    {
        let mut participants: Vec<Contact> = Vec::new();
        if let Some(from) = &self.from {
            participants.push(from.to_contact());
        }
        assert(views(participants@) =~= opt_contact(self.from));
        let ghost first = participants@;
        let mut i: usize = 0;
        while i < self.new_chat_members.len()
            invariant
                i <= self.new_chat_members@.len(),
                participants@.len() == first.len() + i,
                forall|j: int| 0 <= j < first.len() ==> participants@[j] == first[j],
                forall|j: int|
                    0 <= j < i ==> (#[trigger] participants@[first.len() + j])@ == contact_of(
                        self.new_chat_members@[j],
                    ),
            decreases self.new_chat_members@.len() - i,
        {
            participants.push(self.new_chat_members[i].to_contact());
            i += 1;
        }
        assert(views(participants@) =~= views(first) + contacts_of(self.new_chat_members@)) by {
            let members = self.new_chat_members@;
            assert forall|k: int| 0 <= k < participants@.len() implies (
            #[trigger] participants@[k])@ == (views(first) + contacts_of(members))[k] by {
                if k >= first.len() {
                    let j = k - first.len();
                    assert(participants@[first.len() + j]@ == contact_of(members[j]));
                }
            }
        }
        let ghost middle = participants@;
        if let Some(left) = &self.left_chat_member {
            participants.push(left.to_contact());
        }
        assert(views(participants@) =~= views(middle) + opt_contact(self.left_chat_member));
        let mut members: Vec<(String, Json)> = Vec::new();
        members.push(member("chat_type", json_text(self.chat.kind.as_str())));
        members.push(member("username", json_opt_text(&self.chat.username)));
        assert(member_views(members@) =~= thread_of(*self).metadata->Object_0);
        Thread {
            id: thread_uuid(self.chat.id),
            source: "telegram".to_owned(),
            source_id: signed_text(self.chat.id),
            provider_instance: None,
            title: self.chat.title(),
            participants: dedupe_contacts(participants),
            last_message_at: unix_timestamp(self.date),
            unread_count: None,
            metadata: json_object(members),
        }
    }

    /// The normalized form of the message.
    pub fn to_message(&self) -> (r: Message)
        ensures
            r@ == message_of(*self),
            randomly_named(r.attachments@),
    {
        Message {
            id: message_uuid(self.chat.id, self.message_id),
            thread_id: thread_uuid(self.chat.id),
            source: "telegram".to_owned(),
            source_id: signed_text(self.message_id),
            sender: self.sender_contact(),
            kind: self.kind(),
            body: self.body(),
            attachments: self.attachments(),
            timestamp: unix_timestamp(self.date),
            is_outbound: match &self.from {
                Some(user) => user.is_bot,
                None => false,
            },
            metadata: self.metadata(),
        }
    }

    fn sender_contact(&self) -> (r: Contact)
        ensures
            r@ == sender_of(*self),
    {
        if let Some(user) = &self.from {
            return user.to_contact();
        }
        let id = signed_text(self.chat.id);
        let mut members: Vec<(String, Json)> = Vec::new();
        members.push(member("chat_sender", Json::Bool(true)));
        assert(member_views(members@) =~= sender_of(*self).metadata->Object_0);
        Contact {
            id: Uuid::of_name(UUID_NAMESPACE, prefixed("chat:", id.as_str()).as_str()),
            source: "telegram".to_owned(),
            source_id: id,
            provider_instance: None,
            display_name: self.chat.title(),
            avatar_url: None,
            metadata: json_object(members),
        }
    }

    fn kind(&self) -> (r: MessageKind)
        ensures
            r == kind_of(*self),
    {
        if self.text.is_some() {
            MessageKind::Text
        } else if self.photo.is_some() {
            MessageKind::Image
        } else if self.audio.is_some() || self.voice.is_some() {
            MessageKind::Audio
        } else if self.video.is_some() {
            MessageKind::Video
        } else if self.document.is_some() {
            MessageKind::File
        } else if self.sticker.is_some() {
            MessageKind::Sticker
        } else if self.location.is_some() {
            MessageKind::Location
        } else if self.is_system_event() {
            MessageKind::System
        } else {
            MessageKind::Unknown
        }
    }

    fn body(&self) -> (r: String)
        ensures
            r@ == body_of(*self),
    {
        match &self.text {
            Some(text) => text.clone(),
            None => match &self.caption {
                Some(caption) => caption.clone(),
                None => String::new(),
            },
        }
    }

    fn metadata(&self) -> (r: Json)
        ensures
            r@ == metadata_of(*self),
    {
        let mut members: Vec<(String, Json)> = Vec::new();
        assert(member_views(members@) =~= seq![]);
        put_member(&mut members, "chat_id", json_integer(self.chat.id));
        put_member(&mut members, "chat_type", json_text(self.chat.kind.as_str()));
        if let Some(photo) = &self.photo {
            let mut sizes: Vec<Json> = Vec::new();
            let mut i: usize = 0;
            while i < photo.len()
                invariant
                    i <= photo@.len(),
                    sizes@.len() == i,
                    forall|j: int| 0 <= j < i ==> (#[trigger] sizes@[j])@ == photo_view(photo@[j]),
                decreases photo@.len() - i,
            {
                sizes.push(photo_json(&photo[i]));
                i += 1;
            }
            assert(views(sizes@) =~= photo@.map_values(
                |size: TelegramPhotoSize| photo_view(size),
            ));
            put_member(&mut members, "photo", json_array(sizes));
        }
        let ghost base = member_views(members@);
        let ghost more = member_views(self.extra@);
        let mut i: usize = 0;
        assert(more.take(0) =~= seq![]);
        while i < self.extra.len()
            invariant
                i <= self.extra@.len(),
                more == member_views(self.extra@),
                member_views(members@) == put_all(base, more.take(i as int)),
            decreases self.extra@.len() - i,
        {
            proof {
                let next = more.take(i + 1);
                assert(next.drop_last() =~= more.take(i as int));
                assert(next.last() == more[i as int]);
            }
            put_member(&mut members, self.extra[i].0.as_str(), self.extra[i].1.clone());
            i += 1;
        }
        assert(more.take(more.len() as int) =~= more);
        json_object(members)
    }

    fn attachments(&self) -> (r: Vec<Attachment>)
        ensures
            views(r@) == attachments_of(*self),
            randomly_named(r@),
    {
        let mut attachments: Vec<Attachment> = Vec::new();
        if let Some(sizes) = &self.photo {
            if sizes.len() > 0 {
                let photo = &sizes[sizes.len() - 1];
                attachments.push(
                    Attachment {
                        id: Uuid::fresh(),
                        mime_type: "image/jpeg".to_owned(),
                        url: prefixed("telegram:file_id:", photo.file_id.as_str()),
                        filename: None,
                        size: photo.file_size,
                    },
                );
            }
        }
        assert(views(attachments@) =~= photo_attachment(*self));
        push_file(&mut attachments, &self.audio);
        push_file(&mut attachments, &self.voice);
        push_file(&mut attachments, &self.video);
        push_file(&mut attachments, &self.document);
        push_file(&mut attachments, &self.sticker);
        attachments
    }

    fn is_system_event(&self) -> (r: bool)
        ensures
            r == system_event(*self),
    {
        self.left_chat_member.is_some() || self.new_chat_members.len() > 0
            || self.new_chat_title.is_some() || self.new_chat_photo.is_some()
            || self.delete_chat_photo.is_some() || self.group_chat_created.is_some()
            || self.supergroup_chat_created.is_some() || self.channel_chat_created.is_some()
            || self.migrate_to_chat_id.is_some() || self.migrate_from_chat_id.is_some()
            || self.pinned_message.is_some()
    }
}

/// The Bot API method that sends media of a MIME type.
pub open spec fn media_method_of(mime_type: Seq<char>) -> Seq<char> {
    let mime = lowered_ascii(trimmed(mime_type));
    if begins(mime, "image/"@) {
        "sendPhoto"@
    } else if begins(mime, "audio/"@) {
        "sendAudio"@
    } else if begins(mime, "video/"@) {
        "sendVideo"@
    } else {
        "sendDocument"@
    }
}

/// Select the Telegram Bot API method for an outbound attachment MIME type.
pub fn telegram_media_method(mime_type: &str) -> (r: &'static str)
    ensures
        r@ == media_method_of(mime_type@),
{
    let trimmed_type = trim(mime_type);
    let mime = ascii_lowercase(trimmed_type.as_str());
    if starts_with(mime.as_str(), "image/") {
        "sendPhoto"
    } else if starts_with(mime.as_str(), "audio/") {
        "sendAudio"
    } else if starts_with(mime.as_str(), "video/") {
        "sendVideo"
    } else {
        "sendDocument"
    }
}

/// The form field that carries the media of a method.
pub open spec fn media_field_of(method: Seq<char>) -> Seq<char> {
    if method == "sendPhoto"@ {
        "photo"@
    } else if method == "sendAudio"@ {
        "audio"@
    } else if method == "sendVideo"@ {
        "video"@
    } else {
        "document"@
    }
}

/// The multipart form field name carrying the media payload for a method.
pub fn media_field_name(method: &str) -> (r: &'static str)
    ensures
        r@ == media_field_of(method@),
{
    if str_eq(method, "sendPhoto") {
        "photo"
    } else if str_eq(method, "sendAudio") {
        "audio"
    } else if str_eq(method, "sendVideo") {
        "video"
    } else {
        "document"
    }
}

/// The conventional extension of a MIME type.
pub open spec fn conventional_extension(mime: Seq<char>) -> Seq<char> {
    if mime == "image/png"@ {
        "png"@
    } else if mime == "image/jpeg"@ {
        "jpg"@
    } else if mime == "image/gif"@ {
        "gif"@
    } else if mime == "image/webp"@ {
        "webp"@
    } else if mime == "audio/mpeg"@ {
        "mp3"@
    } else if mime == "audio/ogg"@ {
        "ogg"@
    } else if mime == "audio/wav"@ {
        "wav"@
    } else if mime == "video/mp4"@ {
        "mp4"@
    } else if mime == "video/webm"@ {
        "webm"@
    } else if mime == "application/pdf"@ {
        "pdf"@
    } else if mime == "text/plain"@ {
        "txt"@
    } else {
        "bin"@
    }
}

/// Best-effort filename for attachments that carry none.
pub fn default_filename(mime_type: &str) -> (r: String)
    ensures
        r@ == "attachment."@ + conventional_extension(lowered_ascii(trimmed(mime_type@))),
{
    let trimmed_type = trim(mime_type);
    let lowered = ascii_lowercase(trimmed_type.as_str());
    let mime = lowered.as_str();
    let extension = if str_eq(mime, "image/png") {
        "png"
    } else if str_eq(mime, "image/jpeg") {
        "jpg"
    } else if str_eq(mime, "image/gif") {
        "gif"
    } else if str_eq(mime, "image/webp") {
        "webp"
    } else if str_eq(mime, "audio/mpeg") {
        "mp3"
    } else if str_eq(mime, "audio/ogg") {
        "ogg"
    } else if str_eq(mime, "audio/wav") {
        "wav"
    } else if str_eq(mime, "video/mp4") {
        "mp4"
    } else if str_eq(mime, "video/webm") {
        "webm"
    } else if str_eq(mime, "application/pdf") {
        "pdf"
    } else if str_eq(mime, "text/plain") {
        "txt"
    } else {
        "bin"
    };
    prefixed("attachment.", extension)
}

/// How a thread id leads to a chat.
#[derive(Clone, Copy, Debug, PartialEq, Eq, Structural)]
pub enum ChatLookup {
    /// The id is the chat's own.
    Chat(i64),
    /// The id is a UUID that the known chats must be searched for.
    Search(Uuid),
}

/// How a thread id leads to a chat.
pub open spec fn lookup_of(thread_id: Seq<char>) -> Result<ChatLookup, IrisErrorView> {
    match parsed_signed(thread_id) {
        Ok(chat_id) => Ok(ChatLookup::Chat(chat_id as i64)),
        Err(_) => match uuid_parsed(thread_id) {
            Ok(value) => Ok(ChatLookup::Search(Uuid { value })),
            Err(_) => Err(
                IrisErrorView::Config(
                    "telegram thread id must be an Iris UUID or numeric chat id"@,
                ),
            ),
        },
    }
}

/// How a thread id leads to a chat.
pub fn chat_lookup(thread_id: &str) -> (r: Result<ChatLookup, IrisError>)
    ensures
        r matches Ok(found) ==> lookup_of(thread_id@) == Ok::<ChatLookup, IrisErrorView>(found),
        r matches Err(error) ==> lookup_of(thread_id@) == Err::<ChatLookup, IrisErrorView>(error@),
{
    if let Ok(chat_id) = parse_signed(thread_id) {
        return Ok(ChatLookup::Chat(chat_id));
    }
    match Uuid::parse(thread_id) {
        Ok(id) => Ok(ChatLookup::Search(id)),
        Err(_) => Err(
            config_error("telegram thread id must be an Iris UUID or numeric chat id"),
        ),
    }
}

/// The first chat among the updates whose thread has the UUID.
pub open spec fn chat_among(updates: Seq<TelegramUpdate>, requested: Uuid) -> Option<i64>
    decreases updates.len(),
{
    if updates.len() == 0 {
        None
    } else {
        match updates[0].message {
            Some(message) if thread_id_of(message.chat.id) == requested => Some(message.chat.id),
            _ => chat_among(updates.drop_first(), requested),
        }
    }
}

/// The chat of a thread, found among the updates.
pub fn find_chat(updates: &Vec<TelegramUpdate>, requested: Uuid, thread_id: &str) -> (r: Result<
    i64,
    IrisError,
>)
    ensures
        r matches Ok(chat_id) ==> chat_among(updates@, requested) == Some(chat_id),
        r matches Err(error) ==> chat_among(updates@, requested) is None && error@
            == IrisErrorView::NotFound("telegram thread not found: "@ + thread_id@),
{
    let ghost all = updates@;
    let mut i: usize = 0;
    assert(all.skip(0) =~= all);
    while i < updates.len()
        invariant
            i <= updates@.len(),
            all == updates@,
            chat_among(all, requested) == chat_among(all.skip(i as int), requested),
        decreases updates@.len() - i,
    {
        assert(all.skip(i as int)[0] == all[i as int]);
        if let Some(message) = &updates[i].message {
            if thread_uuid(message.chat.id) == requested {
                return Ok(message.chat.id);
            }
        }
        assert(all.skip(i as int).drop_first() =~= all.skip(i + 1));
        i += 1;
    }
    Err(IrisError::NotFound(prefixed("telegram thread not found: ", thread_id)))
}

/// The normalized messages of some updates with the offsets that follow them.
pub open spec fn polled_of(updates: Seq<TelegramUpdate>) -> Seq<(i64, int, MessageView)>
    decreases updates.len(),
{
    if updates.len() == 0 {
        seq![]
    } else {
        let front = polled_of(updates.drop_last());
        let last = updates.last();
        match last.message {
            Some(message) => front.push(
                (last.update_id, last.update_id + 1, message_of(message)),
            ),
            None => front,
        }
    }
}

/// What a poll reports, over views.
pub open spec fn polled_views(polled: Seq<TelegramPolledMessage>) -> Seq<(i64, int, MessageView)> {
    polled.map_values(
        |item: TelegramPolledMessage| (item.update_id, item.next_offset as int, item.message@),
    )
}

/// The normalized messages of some updates with the offsets that follow them.
pub fn poll_messages(updates: &Vec<TelegramUpdate>) -> (r: Vec<TelegramPolledMessage>)
    requires
        forall|i: int|
            0 <= i < updates@.len() ==> (#[trigger] updates@[i]).update_id < i64::MAX,
    ensures
        polled_views(r@) == polled_of(updates@),
{
    let ghost all = updates@;
    let mut out: Vec<TelegramPolledMessage> = Vec::new();
    let mut i: usize = 0;
    assert(all.take(0) =~= seq![]);
    assert(polled_views(out@) =~= seq![]);
    while i < updates.len()
        invariant
            i <= updates@.len(),
            all == updates@,
            forall|j: int| 0 <= j < all.len() ==> (#[trigger] all[j]).update_id < i64::MAX,
            polled_views(out@) == polled_of(all.take(i as int)),
        decreases updates@.len() - i,
    {
        let ghost before = out@;
        proof {
            let next = all.take(i + 1);
            assert(next.drop_last() =~= all.take(i as int));
            assert(next.last() == all[i as int]);
        }
        let update = &updates[i];
        if let Some(message) = &update.message {
            let item = TelegramPolledMessage {
                update_id: update.update_id,
                next_offset: update.update_id + 1,
                message: message.to_message(),
            };
            out.push(item);
            assert(polled_views(out@) =~= polled_views(before).push(
                (item.update_id, item.next_offset as int, item.message@),
            ));
        }
        i += 1;
    }
    assert(all.take(all.len() as int) =~= all);
    out
}

/// The query of a `getUpdates` request.
pub open spec fn updates_query(offset: Option<i64>, timeout: Option<u32>) -> Seq<
    (Seq<char>, Seq<char>),
> {
    seq![("allowed_updates"@, "[\"message\"]"@)] + (match offset {
        Some(offset) => seq![("offset"@, decimal(offset as int))],
        None => seq![],
    }) + (match timeout {
        Some(timeout) => seq![("timeout"@, decimal(timeout as int))],
        None => seq![],
    })
}

/// The pairs of a query, over views.
pub open spec fn query_views(query: Seq<(String, String)>) -> Seq<(Seq<char>, Seq<char>)> {
    query.map_values(|pair: (String, String)| (pair.0@, pair.1@))
}

/// The query of a `getUpdates` request.
pub fn get_updates_query(offset: Option<i64>, timeout_seconds: Option<u32>) -> (r: Vec<
    (String, String),
>)
    ensures
        query_views(r@) == updates_query(offset, timeout_seconds),
{
    let mut query: Vec<(String, String)> = Vec::new();
    query.push(("allowed_updates".to_owned(), "[\"message\"]".to_owned()));
    if let Some(offset) = offset {
        query.push(("offset".to_owned(), signed_text(offset)));
    }
    if let Some(timeout) = timeout_seconds {
        query.push(("timeout".to_owned(), crate::decimal::unsigned_text(timeout as u64)));
    }
    assert(query_views(query@) =~= updates_query(offset, timeout_seconds));
    query
}

/// Two sightings of a thread as one: the later message, the participants of both.
pub open spec fn joined_threads(existing: ThreadView, thread: ThreadView) -> ThreadView {
    ThreadView {
        last_message_at: if existing.last_message_at.earlier(thread.last_message_at) {
            thread.last_message_at
        } else {
            existing.last_message_at
        },
        participants: unique_contacts(existing.participants + thread.participants),
        ..existing
    }
}

/// The threads of chats in the order of the chats' ids, with one more sighting.
pub open spec fn with_sighting(known: Seq<(i64, ThreadView)>, chat: i64, thread: ThreadView) -> Seq<
    (i64, ThreadView),
>
    decreases known.len(),
{
    if known.len() == 0 {
        seq![(chat, thread)]
    } else if known[0].0 == chat {
        seq![(chat, joined_threads(known[0].1, thread))] + known.drop_first()
    } else if chat < known[0].0 {
        seq![(chat, thread)] + known
    } else {
        seq![known[0]] + with_sighting(known.drop_first(), chat, thread)
    }
}

/// The threads that some updates show, in the order of the chats' ids.
pub open spec fn threads_by_chat(updates: Seq<TelegramUpdate>) -> Seq<(i64, ThreadView)>
    decreases updates.len(),
{
    if updates.len() == 0 {
        seq![]
    } else {
        let known = threads_by_chat(updates.drop_last());
        match updates.last().message {
            Some(message) => with_sighting(known, message.chat.id, thread_of(message)),
            None => known,
        }
    }
}

/// The threads of a listing.
pub open spec fn listed_threads(updates: Seq<TelegramUpdate>, limit: Option<u32>) -> Seq<ThreadView> {
    let threads = threads_by_chat(updates).map_values(|entry: (i64, ThreadView)| entry.1);
    first_items(sorted_by(threads, newer()), allowed(limit))
}

/// The threads of chats, over views.
pub open spec fn chat_views(known: Seq<(i64, Thread)>) -> Seq<(i64, ThreadView)> {
    known.map_values(|entry: (i64, Thread)| (entry.0, entry.1@))
}

fn join_thread(existing: Thread, thread: Thread) -> (r: Thread)
    ensures
        r@ == joined_threads(existing@, thread@),
{
    let mut joined = existing;
    if joined.last_message_at.is_earlier(&thread.last_message_at) {
        joined.last_message_at = thread.last_message_at;
    }
    let mut participants = joined.participants;
    let ghost first = participants@;
    let ghost second = thread.participants@;
    let mut more = thread.participants;
    participants.append(&mut more);
    assert(views(participants@) =~= views(first) + views(second));
    joined.participants = dedupe_contacts(participants);
    joined
}

fn add_sighting(known: &mut Vec<(i64, Thread)>, chat: i64, thread: Thread)
    ensures
        chat_views(final(known)@) == with_sighting(chat_views(old(known)@), chat, thread@),
{
    let ghost all = chat_views(known@);
    let mut i: usize = 0;
    assert(all.skip(0) =~= all);
    assert(with_sighting(all, chat, thread@) =~= all.take(0) + with_sighting(
        all.skip(0),
        chat,
        thread@,
    ));
    while i < known.len() && known[i].0 < chat
        invariant
            i <= known@.len(),
            known@ == old(known)@,
            all == chat_views(known@),
            with_sighting(all, chat, thread@) == all.take(i as int) + with_sighting(
                all.skip(i as int),
                chat,
                thread@,
            ),
        decreases known@.len() - i,
    {
        proof {
            let rest = all.skip(i as int);
            assert(rest[0] == all[i as int]);
            assert(rest.drop_first() =~= all.skip(i + 1));
            assert(all.take(i as int) + (seq![rest[0]] + with_sighting(
                all.skip(i + 1),
                chat,
                thread@,
            )) =~= all.take(i + 1) + with_sighting(all.skip(i + 1), chat, thread@));
        }
        i += 1;
    }
    let ghost rest = all.skip(i as int);
    if i < known.len() && known[i].0 == chat {
        let (_, existing) = known.remove(i);
        let joined = join_thread(existing, thread);
        known.insert(i, (chat, joined));
        proof {
            assert(rest[0] == all[i as int]);
            assert(chat_views(known@) =~= all.take(i as int) + (seq![(chat, joined@)]
                + rest.drop_first()));
        }
    } else {
        proof {
            if i < all.len() {
                assert(rest[0] == all[i as int]);
            } else {
                assert(rest =~= Seq::<(i64, ThreadView)>::empty());
            }
            assert(with_sighting(rest, chat, thread@) =~= seq![(chat, thread@)] + rest);
        }
        known.insert(i, (chat, thread));
        assert(chat_views(known@) =~= all.take(i as int) + (seq![(chat, thread@)] + rest));
    }
}

/// The threads that some updates show: those with the latest messages first.
pub fn list_threads(updates: &Vec<TelegramUpdate>, limit: Option<u32>) -> (r: Vec<Thread>)
    ensures
        views(r@) == listed_threads(updates@, limit),
        forall|i: int, j: int|
            0 <= i < j < r@.len() ==> (#[trigger] views(r@)[i]).last_message_at.ticks() >= (
            #[trigger] views(r@)[j]).last_message_at.ticks(),
        forall|i: int|
            0 <= i < r@.len() ==> some_thread_shown(updates@, #[trigger] views(r@)[i]),
{
    proof {
        law_listed_threads_come_by_their_latest_message(updates@, limit);
    }
    let ghost all = updates@;
    let mut known: Vec<(i64, Thread)> = Vec::new();
    let mut i: usize = 0;
    assert(all.take(0) =~= seq![]);
    assert(chat_views(known@) =~= seq![]);
    while i < updates.len()
        invariant
            i <= updates@.len(),
            all == updates@,
            chat_views(known@) == threads_by_chat(all.take(i as int)),
        decreases updates@.len() - i,
    {
        proof {
            let next = all.take(i + 1);
            assert(next.drop_last() =~= all.take(i as int));
            assert(next.last() == all[i as int]);
        }
        if let Some(message) = &updates[i].message {
            add_sighting(&mut known, message.chat.id, message.to_thread());
        }
        i += 1;
    }
    assert(all.take(all.len() as int) =~= all);
    let ghost entries = known@;
    let mut threads: Vec<Thread> = Vec::new();
    for entry in it: known
        invariant
            it.seq() == entries,
            threads@.len() == it.index(),
            forall|j: int| 0 <= j < it.index() ==> (#[trigger] threads@[j]) == entries[j].1,
    {
        threads.push(entry.1);
    }
    assert(views(threads@) =~= chat_views(entries).map_values(|entry: (i64, ThreadView)| entry.1));
    let sorted = sort_newest_first(threads);
    proof {
        lemma_first_views(sorted@, allowed(limit));
    }
    keep_first(sorted, limit)
}

/// Whether a message is earlier than an optional cursor.
pub open spec fn before_cursor(message: MessageView, before: Option<Timestamp>) -> bool {
    before matches Some(cursor) ==> message.timestamp.earlier(cursor)
}

/// The messages of a thread among some updates, those before the cursor.
pub open spec fn thread_messages(
    updates: Seq<TelegramUpdate>,
    thread_id: Seq<char>,
    before: Option<Timestamp>,
) -> Seq<MessageView>
    decreases updates.len(),
{
    if updates.len() == 0 {
        seq![]
    } else {
        let front = thread_messages(updates.drop_last(), thread_id, before);
        match updates.last().message {
            Some(message) if message.in_thread(thread_id) && before_cursor(
                message_of(message),
                before,
            ) => front.push(message_of(message)),
            _ => front,
        }
    }
}

/// The messages of a thread among some updates, those before the cursor, as they were delivered.
pub fn select_messages(
    updates: &Vec<TelegramUpdate>,
    thread_id: &str,
    before: Option<Timestamp>,
) -> (r: Vec<Message>)
    ensures
        views(r@) == thread_messages(updates@, thread_id@, before),
        forall|i: int| 0 <= i < r@.len() ==> randomly_named((#[trigger] r@[i]).attachments@),
{
    let ghost all = updates@;
    let mut out: Vec<Message> = Vec::new();
    let mut i: usize = 0;
    assert(all.take(0) =~= seq![]);
    assert(views(out@) =~= seq![]);
    while i < updates.len()
        invariant
            i <= updates@.len(),
            all == updates@,
            views(out@) == thread_messages(all.take(i as int), thread_id@, before),
            forall|j: int| 0 <= j < out@.len() ==> randomly_named((#[trigger] out@[j]).attachments@),
        decreases updates@.len() - i,
    {
        let ghost known = out@;
        proof {
            let next = all.take(i + 1);
            assert(next.drop_last() =~= all.take(i as int));
            assert(next.last() == all[i as int]);
        }
        if let Some(message) = &updates[i].message {
            if message.chat_matches_thread(thread_id) {
                let normalized = message.to_message();
                let wanted = match &before {
                    Some(cursor) => normalized.timestamp.is_earlier(cursor),
                    None => true,
                };
                if wanted {
                    out.push(normalized);
                    assert(views(out@) =~= views(known).push(normalized@));
                }
            }
        }
        i += 1;
    }
    assert(all.take(all.len() as int) =~= all);
    out
}

/// The messages of a listing: the earliest first, as many as the limit allows.
pub fn order_messages(messages: Vec<Message>, limit: Option<u32>) -> (r: Vec<Message>)
    ensures
        r@ == first_items(sorted_by(messages@, viewed(older())), allowed(limit)),
        views(r@) == first_items(sorted_by(views(messages@), older()), allowed(limit)),
        forall|i: int, j: int|
            0 <= i < j < r@.len() ==> (#[trigger] views(r@)[i]).timestamp.ticks() <= (
            #[trigger] views(r@)[j]).timestamp.ticks(),
        limit matches Some(n) ==> r@.len() <= n,
{
    proof {
        law_the_earliest_messages_are_listed(views(messages@), limit);
    }
    let sorted = sort_oldest_first(messages);
    proof {
        lemma_first_views(sorted@, allowed(limit));
    }
    keep_first(sorted, limit)
}

/// The contacts that some updates show, in order.
pub open spec fn seen_contacts(updates: Seq<TelegramUpdate>) -> Seq<ContactView>
    decreases updates.len(),
{
    if updates.len() == 0 {
        seq![]
    } else {
        let front = seen_contacts(updates.drop_last());
        match updates.last().message {
            Some(message) => front + opt_contact(message.from) + contacts_of(
                message.new_chat_members@,
            ),
            None => front,
        }
    }
}

/// The contacts that some updates show, each once.
pub fn list_contacts(updates: &Vec<TelegramUpdate>, limit: Option<u32>) -> (r: Vec<Contact>)
    ensures
        views(r@) == first_items(unique_contacts(seen_contacts(updates@)), allowed(limit)),
{
    let ghost all = updates@;
    let mut out: Vec<Contact> = Vec::new();
    let mut i: usize = 0;
    assert(all.take(0) =~= seq![]);
    assert(views(out@) =~= seq![]);
    while i < updates.len()
        invariant
            i <= updates@.len(),
            all == updates@,
            views(out@) == seen_contacts(all.take(i as int)),
        decreases updates@.len() - i,
    {
        proof {
            let next = all.take(i + 1);
            assert(next.drop_last() =~= all.take(i as int));
            assert(next.last() == all[i as int]);
        }
        if let Some(message) = &updates[i].message {
            let ghost known = out@;
            if let Some(from) = &message.from {
                out.push(from.to_contact());
            }
            assert(views(out@) =~= views(known) + opt_contact(message.from));
            let ghost first = out@;
            let members = &message.new_chat_members;
            let mut k: usize = 0;
            assert(views(out@) =~= views(first) + contacts_of(members@.take(0)));
            while k < members.len()
                invariant
                    k <= members@.len(),
                    views(out@) == views(first) + contacts_of(members@.take(k as int)),
                decreases members@.len() - k,
            {
                let ghost so_far = out@;
                let contact = members[k].to_contact();
                out.push(contact);
                proof {
                    assert(contacts_of(members@.take(k + 1)) =~= contacts_of(
                        members@.take(k as int),
                    ).push(contact@));
                    assert(views(out@) =~= views(so_far).push(contact@));
                    assert(views(out@) =~= views(first) + contacts_of(members@.take(k + 1)));
                }
                k += 1;
            }
            assert(members@.take(members@.len() as int) =~= members@);
        }
        i += 1;
    }
    assert(all.take(all.len() as int) =~= all);
    let unique = dedupe_contacts(out);
    proof {
        lemma_first_views(unique@, allowed(limit));
    }
    keep_first(unique, limit)
}

/// The UUID that Telegram's things have under a name.
pub open spec fn telegram_uuid(name: Seq<char>) -> Uuid {
    Uuid {
        value: uuid_v5(
            0x6e6c_4e12_1a7d_4a3c_8b53_8914_42f3_0001,
            vstd::utf8::encode_utf8(name),
        ),
    }
}

/// Whether a point is that of a Unix time; what the calendar does not hold counts as the epoch.
pub open spec fn is_time_of(at: Timestamp, secs: i64) -> bool {
    &&& at.nanos() == 0
    &&& at.secs() == (if MIN_SECS <= secs <= MAX_SECS {
        secs
    } else {
        0
    })
}

/// A normalized message says who sent what, where and when: the chat names the thread, the message
/// its own ID in the chat; the body is the text, or else the caption; messages of bots go out.
pub proof fn law_a_message_says_who_sent_what_where_and_when(message: TelegramMessage)
    ensures
        ({
            let m = message_of(message);
            let chat = decimal(message.chat.id as int);
            let own = decimal(message.message_id as int);
            &&& m.id == telegram_uuid("message:"@ + chat + ":"@ + own)
            &&& m.thread_id == telegram_uuid("thread:"@ + chat)
            &&& m.source == "telegram"@
            &&& m.source_id == own
            &&& is_time_of(m.timestamp, message.date)
            &&& message.text matches Some(text) ==> m.body == text@
            &&& message.text is None ==> (message.caption matches Some(caption) ==> m.body
                == caption@)
            &&& message.text is None && message.caption is None ==> m.body.len() == 0
            &&& message.from is None ==> !m.is_outbound
            &&& message.from matches Some(user) ==> m.is_outbound == user.is_bot
        }),
{
    law_a_point_is_made_of_its_parts(message.date, 0);
    law_a_point_is_made_of_its_parts(0, 0);
}

/// The sender of a message is the user whom it names, under first and last name, or else the chat
/// under its title.
pub proof fn law_senders_are_users_or_chats(message: TelegramMessage)
    ensures
        ({
            let sender = message_of(message).sender;
            &&& sender.source == "telegram"@
            &&& sender.provider_instance is None
            &&& sender.avatar_url is None
            &&& message.from matches Some(user) ==> {
                &&& sender.source_id == decimal(user.id as int)
                &&& sender.id == telegram_uuid("user:"@ + decimal(user.id as int))
                &&& user.last_name matches Some(last) ==> sender.display_name == Some(
                    user.first_name@ + " "@ + last@,
                )
                &&& user.last_name is None ==> sender.display_name == Some(user.first_name@)
                &&& sender.metadata matches JsonView::Object(members) && members.len() == 2
                    && members[0] == ("is_bot"@, JsonView::Bool(user.is_bot)) && members[1].0
                    == "username"@ && members[1].1 == (match user.username {
                    Some(name) => JsonView::Text(name@),
                    None => JsonView::Null,
                })
            }
            &&& message.from is None ==> {
                &&& sender.source_id == decimal(message.chat.id as int)
                &&& sender.id == telegram_uuid("chat:"@ + decimal(message.chat.id as int))
                &&& sender.display_name == message_thread_title(message)
                &&& sender.metadata == JsonView::Object(
                    seq![("chat_sender"@, JsonView::Bool(true))],
                )
            }
        }),
{
}

/// What a chat is called: its title, else the first and last name of the person as far as there are
/// any, else the user name.
pub open spec fn message_thread_title(message: TelegramMessage) -> Option<Seq<char>> {
    let chat = message.chat;
    match (chat.title, chat.first_name, chat.last_name, chat.username) {
        (Some(title), _, _, _) => Some(title@),
        (None, Some(first), Some(last), _) => Some(first@ + " "@ + last@),
        (None, Some(first), None, _) => Some(first@),
        (None, None, Some(last), _) => Some(last@),
        (None, None, None, Some(username)) => Some(username@),
        (None, None, None, None) => None,
    }
}

/// The kind of a message is that of the first thing it holds: text, photo, sound, video, file,
/// sticker, place, or a change to the chat; where it holds none of them the kind is unknown.
pub proof fn law_kinds_follow_what_a_message_holds(message: TelegramMessage)
    ensures
        ({
            let m = message;
            let kind = message_of(message).kind;
            let changed = m.left_chat_member is Some || m.new_chat_members@.len() > 0
                || m.new_chat_title is Some || m.new_chat_photo is Some || m.delete_chat_photo is Some
                || m.group_chat_created is Some || m.supergroup_chat_created is Some
                || m.channel_chat_created is Some || m.migrate_to_chat_id is Some
                || m.migrate_from_chat_id is Some || m.pinned_message is Some;
            let sound = m.audio is Some || m.voice is Some;
            let shown = m.text is Some || m.photo is Some;
            &&& kind == MessageKind::Text <==> m.text is Some
            &&& kind == MessageKind::Image <==> m.text is None && m.photo is Some
            &&& kind == MessageKind::Audio <==> !shown && sound
            &&& kind == MessageKind::Video <==> !shown && !sound && m.video is Some
            &&& kind == MessageKind::File <==> !shown && !sound && m.video is None
                && m.document is Some
            &&& kind == MessageKind::Sticker <==> !shown && !sound && m.video is None
                && m.document is None && m.sticker is Some
            &&& kind == MessageKind::Location <==> !shown && !sound && m.video is None
                && m.document is None && m.sticker is None && m.location is Some
            &&& kind == MessageKind::System <==> !shown && !sound && m.video is None
                && m.document is None && m.sticker is None && m.location is None && changed
            &&& kind == MessageKind::Unknown <==> !shown && !sound && m.video is None
                && m.document is None && m.sticker is None && m.location is None && !changed
        }),
{
}

/// One for what is there, nothing for what is not.
pub open spec fn one_if(there: bool) -> int {
    if there {
        1
    } else {
        0
    }
}

/// Whether a message's attachments hold the one of a file, at a place: to be fetched by its ID,
/// with its own type, name and size.
#[verifier::opaque]
pub open spec fn attached(
    attachments: Seq<AttachmentView>,
    at: int,
    file: Option<TelegramFilePayload>,
) -> bool {
    file matches Some(payload) ==> 0 <= at < attachments.len() && {
        let attachment = attachments[at];
        &&& attachment.url == "telegram:file_id:"@ + payload.file_id@
        &&& payload.mime_type matches Some(mime_type) ==> attachment.mime_type == mime_type@
        &&& payload.mime_type is None ==> attachment.mime_type == "application/octet-stream"@
        &&& attachment.filename == view_opt(payload.file_name)
        &&& attachment.size == payload.file_size
    }
}

/// Every file of a message becomes an attachment, and nothing else does: photo, audio, voice,
/// video, document and sticker, in this order. Of a photo the last size counts.
pub proof fn law_every_file_is_attached(message: TelegramMessage)
    ensures
        ({
            let all = message_of(message).attachments;
            let photo = message.photo matches Some(sizes) && sizes@.len() > 0;
            let audio = one_if(photo);
            let voice = audio + one_if(message.audio is Some);
            let video = voice + one_if(message.voice is Some);
            let document = video + one_if(message.video is Some);
            let sticker = document + one_if(message.document is Some);
            &&& all.len() == sticker + one_if(message.sticker is Some)
            &&& message.photo matches Some(sizes) ==> sizes@.len() > 0 ==> {
                let size = sizes@[sizes@.len() - 1];
                &&& all[0].url == "telegram:file_id:"@ + size.file_id@
                &&& all[0].mime_type == "image/jpeg"@
                &&& all[0].filename is None
                &&& all[0].size == size.file_size
            }
            &&& attached(all, audio, message.audio)
            &&& attached(all, voice, message.voice)
            &&& attached(all, video, message.video)
            &&& attached(all, document, message.document)
            &&& attached(all, sticker, message.sticker)
        }),
{
    let photo = photo_attachment(message);
    lemma_files_in_turn(
        photo,
        message.audio,
        message.voice,
        message.video,
        message.document,
        message.sticker,
    );
    assert(photo.len() == one_if(message.photo matches Some(sizes) && sizes@.len() > 0));
}

proof fn lemma_files_in_turn(
    photo: Seq<AttachmentView>,
    audio: Option<TelegramFilePayload>,
    voice: Option<TelegramFilePayload>,
    video: Option<TelegramFilePayload>,
    document: Option<TelegramFilePayload>,
    sticker: Option<TelegramFilePayload>,
)
    ensures
        ({
            let all = photo + opt_file(audio) + opt_file(voice) + opt_file(video) + opt_file(
                document,
            ) + opt_file(sticker);
            let at_voice = photo.len() + one_if(audio is Some);
            let at_video = at_voice + one_if(voice is Some);
            let at_document = at_video + one_if(video is Some);
            let at_sticker = at_document + one_if(document is Some);
            &&& all.len() == at_sticker + one_if(sticker is Some)
            &&& photo.len() > 0 ==> all[0] == photo[0]
            &&& attached(all, photo.len() as int, audio)
            &&& attached(all, at_voice, voice)
            &&& attached(all, at_video, video)
            &&& attached(all, at_document, document)
            &&& attached(all, at_sticker, sticker)
        }),
{
    let a = opt_file(audio);
    let b = opt_file(voice);
    let c = opt_file(video);
    let d = opt_file(document);
    let e = opt_file(sticker);
    lemma_reading_in_turn(photo, a, b, c, d, e);
    lemma_attached(photo, audio, b + c + d + e);
    lemma_attached(photo + a, voice, c + d + e);
    lemma_attached(photo + a + b, video, d + e);
    lemma_attached(photo + a + b + c, document, e);
    lemma_attached(photo + a + b + c + d, sticker, seq![]);
}

proof fn lemma_reading_in_turn<A>(
    p: Seq<A>,
    a: Seq<A>,
    b: Seq<A>,
    c: Seq<A>,
    d: Seq<A>,
    e: Seq<A>,
)
    ensures
        p + a + b + c + d + e == p + a + (b + c + d + e),
        p + a + b + c + d + e == p + a + b + (c + d + e),
        p + a + b + c + d + e == p + a + b + c + (d + e),
        p + a + b + c + d + e == p + a + b + c + d + e + seq![],
        p.len() > 0 ==> (p + a + b + c + d + e)[0] == p[0],
{
}

proof fn lemma_attached(
    before: Seq<AttachmentView>,
    file: Option<TelegramFilePayload>,
    behind: Seq<AttachmentView>,
)
    ensures
        attached(before + opt_file(file) + behind, before.len() as int, file),
        opt_file(file).len() == one_if(file is Some),
{
    reveal(attached);
    if let Some(payload) = file {
        let all = before + opt_file(file) + behind;
        assert(all[before.len() as int] == file_attachment(payload));
    }
}

/// The metadata of a message tells its chat and the kind of the chat, and the sizes of its photo,
/// unless the message holds members of these names besides; whatever it holds besides is there.
pub proof fn law_metadata_keeps_what_the_message_holds(message: TelegramMessage, key: Seq<char>)
    ensures
        metadata_of(message) is Object,
        ({
            let members = metadata_of(message)->Object_0;
            let more = member_views(message.extra@);
            &&& last_under(more, key) is Some ==> find(members, key) == last_under(more, key)
            &&& last_under(more, key) is None ==> {
                &&& key == "chat_id"@ ==> find(members, key) == Some(
                    JsonView::Number(
                        if message.chat.id >= 0 {
                            JsonNumberView::Unsigned(message.chat.id as u64)
                        } else {
                            JsonNumberView::Negative(message.chat.id)
                        },
                    ),
                )
                &&& key == "chat_type"@ ==> find(members, key) == Some(
                    JsonView::Text(message.chat.kind@),
                )
                &&& key == "photo"@ ==> (find(members, key) is Some <==> message.photo is Some)
                &&& key != "chat_id"@ && key != "chat_type"@ && key != "photo"@ ==> find(
                    members,
                    key,
                ) is None
            }
        }),
{
    reveal_strlit("chat_id");
    reveal_strlit("chat_type");
    reveal_strlit("photo");
    assert("chat_id"@.len() == 7 && "chat_type"@.len() == 9 && "photo"@.len() == 5);
    let none = Seq::<(Seq<char>, JsonView)>::empty();
    let id = JsonView::Number(integer_view(message.chat.id));
    lemma_put(none, "chat_id"@, id);
    let one = put(none, "chat_id"@, id);
    lemma_put(one, "chat_type"@, JsonView::Text(message.chat.kind@));
    let base = match message.photo {
        Some(photo) => {
            let sizes = JsonView::Array(
                photo@.map_values(|size: TelegramPhotoSize| photo_view(size)),
            );
            lemma_put(chat_members(message), "photo"@, sizes);
            put(chat_members(message), "photo"@, sizes)
        },
        None => chat_members(message),
    };
    lemma_put_all(base, member_views(message.extra@), key);
}

proof fn lemma_put_all(
    members: Seq<(Seq<char>, JsonView)>,
    more: Seq<(Seq<char>, JsonView)>,
    key: Seq<char>,
)
    requires
        ordered(members),
    ensures
        ordered(put_all(members, more)),
        find(put_all(members, more), key) == (match last_under(more, key) {
            Some(value) => Some(value),
            None => find(members, key),
        }),
    decreases more.len(),
{
    if more.len() > 0 {
        let front = more.drop_last();
        lemma_put_all(members, front, key);
        lemma_put(put_all(members, front), more.last().0, more.last().1);
    }
}

/// Whether an update holds a message of a chat.
pub open spec fn from_chat(update: TelegramUpdate, chat: i64) -> bool {
    update.message matches Some(message) && message.chat.id == chat
}

/// Whether a message shows a user, whom their ID names: as its sender, or as one who joined or
/// left.
pub open spec fn shows_user(message: TelegramMessage, id: Seq<char>) -> bool {
    ||| message.from matches Some(user) && decimal(user.id as int) == id
    ||| message.left_chat_member matches Some(user) && decimal(user.id as int) == id
    ||| exists|i: int|
        0 <= i < message.new_chat_members@.len() && decimal(
            (#[trigger] message.new_chat_members@[i]).id as int,
        ) == id
}

/// Whether a thread is what some updates show of a chat: it is named and titled after the chat as
/// it was first seen, is as late as the latest of its messages, and has for participants the users
/// whom its messages show, each once.
#[verifier::opaque]
pub open spec fn thread_shown(updates: Seq<TelegramUpdate>, chat: i64, thread: ThreadView) -> bool {
    &&& thread.id == telegram_uuid("thread:"@ + decimal(chat as int))
    &&& thread.source == "telegram"@
    &&& thread.source_id == decimal(chat as int)
    &&& thread.provider_instance is None
    &&& thread.unread_count is None
    &&& forall|j: int|
        0 <= j < updates.len() && from_chat(#[trigger] updates[j], chat) ==> unix_time(
            updates[j].message->0.date,
        ).ticks() <= thread.last_message_at.ticks()
    &&& exists|j: int|
        0 <= j < updates.len() && from_chat(#[trigger] updates[j], chat)
            && is_time_of(thread.last_message_at, updates[j].message->0.date)
    &&& exists|j: int|
        0 <= j < updates.len() && from_chat(#[trigger] updates[j], chat) && thread.title
            == message_thread_title(updates[j].message->0) && forall|k: int|
            0 <= k < j ==> !from_chat(#[trigger] updates[k], chat)
    &&& source_ids(thread.participants).no_duplicates()
    &&& forall|id: Seq<char>| #[trigger]
        source_ids(thread.participants).contains(id) <==> exists|j: int|
            0 <= j < updates.len() && from_chat(#[trigger] updates[j], chat) && shows_user(
                updates[j].message->0,
                id,
            )
}

proof fn lemma_participants(message: TelegramMessage)
    ensures
        source_ids(thread_of(message).participants).no_duplicates(),
        forall|id: Seq<char>| #[trigger]
            source_ids(thread_of(message).participants).contains(id) <==> shows_user(message, id),
{
    let first = opt_contact(message.from);
    let middle = contacts_of(message.new_chat_members@);
    let last = opt_contact(message.left_chat_member);
    let all = first + middle + last;
    let f = |contact: ContactView| contact.source_id;
    law_one_item_for_each_key(all, source_ids(all), f);
    let kept = unique_contacts(all);
    assert(kept.map_values(f) =~= source_ids(kept));
    assert forall|id: Seq<char>| #[trigger] source_ids(kept).contains(id) <==> shows_user(
        message,
        id,
    ) by {
        let ids = source_ids(all);
        if ids.contains(id) {
            let i = choose|i: int| 0 <= i < ids.len() && ids[i] == id;
            if i < first.len() {
            } else if i < first.len() + middle.len() {
                let k = i - first.len();
                assert(all[i] == middle[k]);
                assert(decimal(message.new_chat_members@[k].id as int) == id);
            } else {
                assert(all[i] == last[0]);
            }
        }
        if shows_user(message, id) {
            if message.from matches Some(user) && decimal(user.id as int) == id {
                assert(ids[0] == id);
            } else if message.left_chat_member matches Some(user) && decimal(user.id as int)
                == id {
                let i = first.len() + middle.len();
                assert(all[i as int] == last[0]);
                assert(ids[i as int] == id);
            } else {
                let k = choose|k: int|
                    0 <= k < message.new_chat_members@.len() && decimal(
                        (#[trigger] message.new_chat_members@[k]).id as int,
                    ) == id;
                assert(all[first.len() + k] == middle[k]);
                assert(ids[first.len() + k] == id);
            }
        }
    }
}

/// What a message alone shows of its chat.
proof fn lemma_first_sighting(updates: Seq<TelegramUpdate>, chat: i64)
    requires
        updates.len() > 0,
        from_chat(updates.last(), chat),
        forall|j: int| 0 <= j < updates.len() - 1 ==> !from_chat(#[trigger] updates[j], chat),
    ensures
        thread_shown(updates, chat, thread_of(updates.last().message->0)),
{
    reveal(thread_shown);
    let n = updates.len() - 1;
    let message = updates.last().message->0;
    let thread = thread_of(message);
    lemma_participants(message);
    law_a_point_is_made_of_its_parts(message.date, 0);
    law_a_point_is_made_of_its_parts(0, 0);
    assert(from_chat(updates[n], chat));
    assert forall|id: Seq<char>| #[trigger]
        source_ids(thread.participants).contains(id) <==> exists|j: int|
            0 <= j < updates.len() && from_chat(#[trigger] updates[j], chat) && shows_user(
                updates[j].message->0,
                id,
            ) by {
        if exists|j: int|
            0 <= j < updates.len() && from_chat(#[trigger] updates[j], chat) && shows_user(
                updates[j].message->0,
                id,
            ) {
            let j = choose|j: int|
                0 <= j < updates.len() && from_chat(#[trigger] updates[j], chat) && shows_user(
                    updates[j].message->0,
                    id,
                );
            assert(j == n);
        }
    }
}

/// What one more message shows of a chat that was seen before.
proof fn lemma_next_sighting(updates: Seq<TelegramUpdate>, chat: i64, known: ThreadView)
    requires
        updates.len() > 0,
        from_chat(updates.last(), chat),
        thread_shown(updates.drop_last(), chat, known),
    ensures
        thread_shown(
            updates,
            chat,
            joined_threads(known, thread_of(updates.last().message->0)),
        ),
{
    reveal(thread_shown);
    let front = updates.drop_last();
    let n = updates.len() - 1;
    let message = updates.last().message->0;
    let seen = thread_of(message);
    let joined = joined_threads(known, seen);
    lemma_participants(message);
    law_a_point_is_made_of_its_parts(message.date, 0);
    law_a_point_is_made_of_its_parts(0, 0);
    law_earlier_points_come_first(known.last_message_at, seen.last_message_at);
    assert(from_chat(updates[n], chat));
    assert forall|j: int|
        0 <= j < updates.len() && from_chat(#[trigger] updates[j], chat) implies unix_time(
        updates[j].message->0.date,
    ).ticks() <= joined.last_message_at.ticks() by {
        if j < n {
            assert(front[j] == updates[j]);
            assert(from_chat(front[j], chat));
        }
    }
    let latest = choose|j: int|
        0 <= j < front.len() && from_chat(#[trigger] front[j], chat) && is_time_of(
            known.last_message_at,
            front[j].message->0.date,
        );
    assert(from_chat(updates[latest], chat));
    let first = choose|j: int|
        0 <= j < front.len() && from_chat(#[trigger] front[j], chat) && known.title
            == message_thread_title(front[j].message->0) && forall|k: int|
            0 <= k < j ==> !from_chat(#[trigger] front[k], chat);
    assert(from_chat(updates[first], chat));
    assert forall|k: int| 0 <= k < first implies !from_chat(#[trigger] updates[k], chat) by {
        assert(front[k] == updates[k]);
    }
    let all = known.participants + seen.participants;
    let f = |contact: ContactView| contact.source_id;
    law_one_item_for_each_key(all, source_ids(all), f);
    let kept = unique_contacts(all);
    assert(kept.map_values(f) =~= source_ids(kept));
    assert(source_ids(all) =~= source_ids(known.participants) + source_ids(seen.participants));
    assert forall|id: Seq<char>| #[trigger]
        source_ids(joined.participants).contains(id) <==> exists|j: int|
            0 <= j < updates.len() && from_chat(#[trigger] updates[j], chat) && shows_user(
                updates[j].message->0,
                id,
            ) by {
        let a = source_ids(known.participants);
        let b = source_ids(seen.participants);
        lemma_contains_either(a, b, id);
        if a.contains(id) {
            let j = choose|j: int|
                0 <= j < front.len() && from_chat(#[trigger] front[j], chat) && shows_user(
                    front[j].message->0,
                    id,
                );
            assert(from_chat(updates[j], chat));
        }
        if exists|j: int|
            0 <= j < updates.len() && from_chat(#[trigger] updates[j], chat) && shows_user(
                updates[j].message->0,
                id,
            ) {
            let j = choose|j: int|
                0 <= j < updates.len() && from_chat(#[trigger] updates[j], chat) && shows_user(
                    updates[j].message->0,
                    id,
                );
            if j < n {
                assert(front[j] == updates[j]);
                assert(from_chat(front[j], chat));
            }
        }
    }
}

/// An update that does not speak of a chat changes nothing of what is shown of it.
proof fn lemma_other_sighting(updates: Seq<TelegramUpdate>, chat: i64, thread: ThreadView)
    requires
        updates.len() > 0,
        !from_chat(updates.last(), chat),
        thread_shown(updates.drop_last(), chat, thread),
    ensures
        thread_shown(updates, chat, thread),
{
    reveal(thread_shown);
    let front = updates.drop_last();
    let n = updates.len() - 1;
    assert(!from_chat(updates[n], chat));
    assert forall|j: int|
        0 <= j < updates.len() && from_chat(#[trigger] updates[j], chat) implies unix_time(
        updates[j].message->0.date,
    ).ticks() <= thread.last_message_at.ticks() by {
        assert(front[j] == updates[j]);
        assert(from_chat(front[j], chat));
    }
    let latest = choose|j: int|
        0 <= j < front.len() && from_chat(#[trigger] front[j], chat) && is_time_of(
            thread.last_message_at,
            front[j].message->0.date,
        );
    assert(from_chat(updates[latest], chat));
    let first = choose|j: int|
        0 <= j < front.len() && from_chat(#[trigger] front[j], chat) && thread.title
            == message_thread_title(front[j].message->0) && forall|k: int|
            0 <= k < j ==> !from_chat(#[trigger] front[k], chat);
    assert(from_chat(updates[first], chat));
    assert forall|k: int| 0 <= k < first implies !from_chat(#[trigger] updates[k], chat) by {
        assert(front[k] == updates[k]);
    }
    assert forall|id: Seq<char>| #[trigger]
        source_ids(thread.participants).contains(id) <==> exists|j: int|
            0 <= j < updates.len() && from_chat(#[trigger] updates[j], chat) && shows_user(
                updates[j].message->0,
                id,
            ) by {
        if source_ids(thread.participants).contains(id) {
            let j = choose|j: int|
                0 <= j < front.len() && from_chat(#[trigger] front[j], chat) && shows_user(
                    front[j].message->0,
                    id,
                );
            assert(from_chat(updates[j], chat));
        }
        if exists|j: int|
            0 <= j < updates.len() && from_chat(#[trigger] updates[j], chat) && shows_user(
                updates[j].message->0,
                id,
            ) {
            let j = choose|j: int|
                0 <= j < updates.len() && from_chat(#[trigger] updates[j], chat) && shows_user(
                    updates[j].message->0,
                    id,
                );
            assert(front[j] == updates[j]);
            assert(from_chat(front[j], chat));
        }
    }
}

/// Whether the chats of some threads ascend.
spec fn ascending(known: Seq<(i64, ThreadView)>) -> bool {
    forall|i: int, j: int|
        0 <= i < j < known.len() ==> (#[trigger] known[i]).0 < (#[trigger] known[j]).0
}

/// The thread of a chat among some threads.
spec fn thread_at(known: Seq<(i64, ThreadView)>, chat: i64) -> Option<ThreadView>
    decreases known.len(),
{
    if known.len() == 0 {
        None
    } else if known[0].0 == chat {
        Some(known[0].1)
    } else {
        thread_at(known.drop_first(), chat)
    }
}

proof fn lemma_thread_at(known: Seq<(i64, ThreadView)>, chat: i64)
    ensures
        thread_at(known, chat) matches Some(thread) ==> exists|i: int|
            0 <= i < known.len() && (#[trigger] known[i]) == (chat, thread),
    decreases known.len(),
{
    if known.len() > 0 && known[0].0 == chat {
        assert(known[0] == (chat, known[0].1));
    } else if known.len() > 0 {
        let rest = known.drop_first();
        lemma_thread_at(rest, chat);
        if let Some(thread) = thread_at(rest, chat) {
            let i = choose|i: int| 0 <= i < rest.len() && (#[trigger] rest[i]) == (chat, thread);
            assert(known[i + 1] == (chat, thread));
        }
    }
}

proof fn lemma_at_its_chat(known: Seq<(i64, ThreadView)>, i: int)
    requires
        ascending(known),
        0 <= i < known.len(),
    ensures
        thread_at(known, known[i].0) == Some(known[i].1),
    decreases known.len(),
{
    if i > 0 {
        let rest = known.drop_first();
        lemma_rest_ascends(known);
        assert(known[0].0 < known[i].0);
        lemma_at_its_chat(rest, i - 1);
        assert(rest[i - 1] == known[i]);
    }
}

proof fn lemma_rest_ascends(known: Seq<(i64, ThreadView)>)
    requires
        ascending(known),
        known.len() > 0,
    ensures
        ascending(known.drop_first()),
{
    let rest = known.drop_first();
    assert forall|i: int, j: int| 0 <= i < j < rest.len() implies (#[trigger] rest[i]).0 < (
    #[trigger] rest[j]).0 by {
        assert(known[i + 1].0 < known[j + 1].0);
    }
}

/// A chat before the first one is not there.
proof fn lemma_not_there(known: Seq<(i64, ThreadView)>, chat: i64)
    requires
        ascending(known),
        known.len() == 0 || chat < known[0].0,
    ensures
        thread_at(known, chat) is None,
{
    lemma_thread_at(known, chat);
    if let Some(thread) = thread_at(known, chat) {
        let i = choose|i: int| 0 <= i < known.len() && (#[trigger] known[i]) == (chat, thread);
        if i > 0 {
            assert(known[0].0 < known[i].0);
        }
    }
}

/// A sighting changes the thread of its own chat: it is joined, or put in its place.
proof fn lemma_sighting(known: Seq<(i64, ThreadView)>, chat: i64, thread: ThreadView, other: i64)
    requires
        ascending(known),
    ensures
        ascending(with_sighting(known, chat, thread)),
        with_sighting(known, chat, thread).len() > 0,
        with_sighting(known, chat, thread)[0].0 == chat || (known.len() > 0 && with_sighting(
            known,
            chat,
            thread,
        )[0].0 == known[0].0),
        thread_at(with_sighting(known, chat, thread), other) == (if other != chat {
            thread_at(known, other)
        } else {
            match thread_at(known, chat) {
                Some(existing) => Some(joined_threads(existing, thread)),
                None => Some(thread),
            }
        }),
    decreases known.len(),
{
    let out = with_sighting(known, chat, thread);
    if known.len() == 0 {
        assert(out.drop_first() =~= seq![]);
        assert(thread_at(out.drop_first(), other) is None);
    } else if known[0].0 == chat {
        assert(out.drop_first() =~= known.drop_first());
        assert forall|i: int, j: int| 0 <= i < j < out.len() implies (#[trigger] out[i]).0 < (
        #[trigger] out[j]).0 by {
            assert(known[i].0 < known[j].0);
        }
    } else if chat < known[0].0 {
        assert(out.drop_first() =~= known);
        lemma_not_there(known, chat);
        assert forall|i: int, j: int| 0 <= i < j < out.len() implies (#[trigger] out[i]).0 < (
        #[trigger] out[j]).0 by {
            assert(out[j] == known[j - 1]);
            if i > 0 {
                assert(known[i - 1].0 < known[j - 1].0);
            } else if j > 1 {
                assert(known[0].0 < known[j - 1].0);
            }
        }
    } else {
        let rest = known.drop_first();
        lemma_rest_ascends(known);
        lemma_sighting(rest, chat, thread, other);
        let inner = with_sighting(rest, chat, thread);
        assert(out.drop_first() =~= inner);
        assert(known[0].0 < inner[0].0) by {
            if inner[0].0 != chat {
                assert(rest[0] == known[1]);
                assert(known[0].0 < known[1].0);
            }
        }
        assert forall|i: int, j: int| 0 <= i < j < out.len() implies (#[trigger] out[i]).0 < (
        #[trigger] out[j]).0 by {
            assert(out[j] == inner[j - 1]);
            if i > 0 {
                assert(out[i] == inner[i - 1]);
            } else if j > 1 {
                assert(inner[0].0 < inner[j - 1].0);
            }
        }
    }
}

proof fn lemma_shown(updates: Seq<TelegramUpdate>, chat: i64)
    ensures
        ascending(threads_by_chat(updates)),
        thread_at(threads_by_chat(updates), chat) matches Some(thread) ==> thread_shown(
            updates,
            chat,
            thread,
        ),
        thread_at(threads_by_chat(updates), chat) is None ==> forall|j: int|
            0 <= j < updates.len() ==> !from_chat(#[trigger] updates[j], chat),
    decreases updates.len(),
{
    if updates.len() > 0 {
        let front = updates.drop_last();
        let known = threads_by_chat(front);
        lemma_shown(front, chat);
        assert forall|j: int| 0 <= j < front.len() implies #[trigger] front[j] == updates[j] by {}
        if let Some(message) = updates.last().message {
            lemma_sighting(known, message.chat.id, thread_of(message), chat);
        }
        if from_chat(updates.last(), chat) {
            match thread_at(known, chat) {
                Some(thread) => lemma_next_sighting(updates, chat, thread),
                None => {
                    assert forall|j: int| 0 <= j < updates.len() - 1 implies !from_chat(
                        #[trigger] updates[j],
                        chat,
                    ) by {
                        assert(front[j] == updates[j]);
                    }
                    lemma_first_sighting(updates, chat);
                },
            }
        } else {
            match thread_at(known, chat) {
                Some(thread) => lemma_other_sighting(updates, chat, thread),
                None => {
                    assert forall|j: int| 0 <= j < updates.len() implies !from_chat(
                        #[trigger] updates[j],
                        chat,
                    ) by {
                        if j < updates.len() - 1 {
                            assert(front[j] == updates[j]);
                        }
                    }
                },
            }
        }
    }
}

/// The threads that updates show are one for each chat that they speak of, each as late as the
/// latest message of its chat.
pub proof fn law_a_thread_is_as_late_as_its_latest_message(updates: Seq<TelegramUpdate>)
    ensures
        ({
            let threads = threads_by_chat(updates);
            &&& forall|i: int, j: int|
                0 <= i < j < threads.len() ==> (#[trigger] threads[i]).0 < (#[trigger] threads[j]).0
            &&& forall|i: int|
                0 <= i < threads.len() ==> thread_shown(
                    updates,
                    (#[trigger] threads[i]).0,
                    threads[i].1,
                )
            &&& forall|j: int|
                0 <= j < updates.len() && (#[trigger] updates[j]).message is Some ==> exists|i: int|
                    0 <= i < threads.len() && (#[trigger] threads[i]).0
                        == updates[j].message->0.chat.id
        }),
{
    let threads = threads_by_chat(updates);
    lemma_shown(updates, 0);
    assert forall|i: int| 0 <= i < threads.len() implies thread_shown(
        updates,
        (#[trigger] threads[i]).0,
        threads[i].1,
    ) by {
        lemma_at_its_chat(threads, i);
        lemma_shown(updates, threads[i].0);
    }
    assert forall|j: int|
        0 <= j < updates.len() && (#[trigger] updates[j]).message is Some implies exists|i: int|
        0 <= i < threads.len() && (#[trigger] threads[i]).0 == updates[j].message->0.chat.id by {
        let chat = updates[j].message->0.chat.id;
        lemma_shown(updates, chat);
        lemma_thread_at(threads, chat);
        assert(from_chat(updates[j], chat));
        let thread = thread_at(threads, chat)->0;
        let i = choose|i: int| 0 <= i < threads.len() && (#[trigger] threads[i]) == (chat, thread);
        assert(threads[i].0 == chat);
    }
}

/// Whether a thread is what some updates show of a chat.
pub open spec fn some_thread_shown(updates: Seq<TelegramUpdate>, thread: ThreadView) -> bool {
    exists|chat: i64| thread_shown(updates, chat, thread)
}

/// A listing of threads shows each chat as late as its latest message, the latest chats first, as
/// many as the limit allows; where it allows all, every chat that the updates speak of is there.
pub proof fn law_listed_threads_come_by_their_latest_message(
    updates: Seq<TelegramUpdate>,
    limit: Option<u32>,
)
    ensures
        ({
            let listed = listed_threads(updates, limit);
            let all = threads_by_chat(updates).len();
            let n = match limit {
                Some(limit) => limit as int,
                None => 50,
            };
            &&& forall|i: int|
                0 <= i < listed.len() ==> some_thread_shown(updates, #[trigger] listed[i])
            &&& forall|i: int, j: int|
                0 <= i < j < listed.len() ==> (#[trigger] listed[i]).last_message_at.ticks() >= (
                #[trigger] listed[j]).last_message_at.ticks()
            &&& listed.len() == (if all <= n {
                all as int
            } else {
                n
            })
            &&& all <= n ==> forall|j: int|
                0 <= j < updates.len() && (#[trigger] updates[j]).message is Some ==> exists|
                    i: int,
                |
                    0 <= i < listed.len() && thread_shown(
                        updates,
                        updates[j].message->0.chat.id,
                        #[trigger] listed[i],
                    )
        }),
{
    let entries = threads_by_chat(updates);
    let threads = entries.map_values(|entry: (i64, ThreadView)| entry.1);
    let listed = listed_threads(updates, limit);
    law_a_thread_is_as_late_as_its_latest_message(updates);
    law_the_latest_threads_are_listed(threads, limit);
    assert forall|i: int| 0 <= i < listed.len() implies some_thread_shown(
        updates,
        #[trigger] listed[i],
    ) by {
        let k = choose|k: int| 0 <= k < threads.len() && threads[k] == listed[i];
        assert(thread_shown(updates, entries[k].0, entries[k].1));
    }
    if listed.len() == entries.len() {
        assert forall|j: int|
            0 <= j < updates.len() && (#[trigger] updates[j]).message is Some implies exists|
            i: int,
        |
            0 <= i < listed.len() && thread_shown(
                updates,
                updates[j].message->0.chat.id,
                #[trigger] listed[i],
            ) by {
            broadcast use vstd::seq_lib::group_to_multiset_ensures;

            let k = choose|k: int|
                0 <= k < entries.len() && (#[trigger] entries[k]).0
                    == updates[j].message->0.chat.id;
            assert(thread_shown(updates, entries[k].0, entries[k].1));
            assert(threads[k] == entries[k].1);
            assert(threads.contains(threads[k]));
            assert(threads.to_multiset().count(threads[k]) > 0);
            assert(listed.contains(threads[k]));
            let i = choose|i: int| 0 <= i < listed.len() && listed[i] == threads[k];
            assert(thread_shown(updates, updates[j].message->0.chat.id, listed[i]));
        }
    }
}

/// The messages of a thread are those of the updates whose chat it is and which are earlier than
/// the cursor, in the order in which they came.
pub proof fn law_the_messages_of_a_thread_are_those_of_its_chat(
    updates: Seq<TelegramUpdate>,
    thread_id: Seq<char>,
    before: Option<Timestamp>,
)
    ensures
        thread_messages(updates, thread_id, before) == updates.filter(
            |update: TelegramUpdate|
                update.message matches Some(message) && {
                    let chat = decimal(message.chat.id as int);
                    &&& thread_id == chat || thread_id == uuid_text(
                        telegram_uuid("thread:"@ + chat).value,
                    )
                    &&& before matches Some(cursor) ==> unix_time(message.date).ticks()
                        < cursor.ticks()
                },
        ).map_values(|update: TelegramUpdate| message_of(update.message->0)),
    decreases updates.len(),
{
    reveal(Seq::filter);
    let ok = |update: TelegramUpdate|
        update.message matches Some(message) && {
            let chat = decimal(message.chat.id as int);
            &&& thread_id == chat || thread_id == uuid_text(
                telegram_uuid("thread:"@ + chat).value,
            )
            &&& before matches Some(cursor) ==> unix_time(message.date).ticks() < cursor.ticks()
        };
    let f = |update: TelegramUpdate| message_of(update.message->0);
    if updates.len() > 0 {
        law_the_messages_of_a_thread_are_those_of_its_chat(updates.drop_last(), thread_id, before);
        if let Some(message) = updates.last().message {
            if let Some(cursor) = before {
                law_earlier_points_come_first(unix_time(message.date), cursor);
            }
        }
        if ok(updates.last()) {
            assert(updates.filter(ok).map_values(f) =~= updates.drop_last().filter(ok).map_values(
                f,
            ).push(f(updates.last())));
        }
    } else {
        assert(updates.filter(ok).map_values(f) =~= seq![]);
    }
}

/// Whether an update shows a user as the sender of its message or as one who joined.
pub open spec fn meets_user(update: TelegramUpdate, id: Seq<char>) -> bool {
    update.message matches Some(message) && {
        ||| message.from matches Some(user) && decimal(user.id as int) == id
        ||| exists|i: int|
            0 <= i < message.new_chat_members@.len() && decimal(
                (#[trigger] message.new_chat_members@[i]).id as int,
            ) == id
    }
}

proof fn lemma_seen(updates: Seq<TelegramUpdate>, id: Seq<char>)
    ensures
        source_ids(seen_contacts(updates)).contains(id) <==> exists|j: int|
            0 <= j < updates.len() && meets_user(#[trigger] updates[j], id),
    decreases updates.len(),
{
    let all = source_ids(seen_contacts(updates));
    if updates.len() > 0 {
        let front = updates.drop_last();
        let n = updates.len() - 1;
        lemma_seen(front, id);
        let known = source_ids(seen_contacts(front));
        assert forall|j: int| 0 <= j < n implies front[j] == updates[j] by {}
        if known.contains(id) {
            let j = choose|j: int| 0 <= j < front.len() && meets_user(#[trigger] front[j], id);
            assert(meets_user(updates[j], id));
        }
        match updates.last().message {
            None => {
                assert(!meets_user(updates[n], id));
            },
            Some(message) => {
                let first = opt_contact(message.from);
                let more = contacts_of(message.new_chat_members@);
                let a = source_ids(first);
                let b = source_ids(more);
                assert(all =~= known + a + b);
                lemma_contains_either(known + a, b, id);
                lemma_contains_either(known, a, id);
                if a.contains(id) {
                    assert(meets_user(updates[n], id));
                }
                if b.contains(id) {
                    let i = choose|i: int| 0 <= i < b.len() && b[i] == id;
                    assert(decimal(message.new_chat_members@[i].id as int) == id);
                    assert(meets_user(updates[n], id));
                }
                if meets_user(updates[n], id) {
                    if message.from matches Some(user) && decimal(user.id as int) == id {
                        assert(a[0] == id);
                    } else {
                        let i = choose|i: int|
                            0 <= i < message.new_chat_members@.len() && decimal(
                                (#[trigger] message.new_chat_members@[i]).id as int,
                            ) == id;
                        assert(b[i] == id);
                    }
                }
            },
        }
        if exists|j: int| 0 <= j < updates.len() && meets_user(#[trigger] updates[j], id) {
            let j = choose|j: int| 0 <= j < updates.len() && meets_user(#[trigger] updates[j], id);
            if j < n {
                assert(meets_user(front[j], id));
            }
        }
    } else {
        assert(all =~= seq![]);
    }
}

/// The contacts of updates are the users who sent something or joined, each once.
pub proof fn law_contacts_are_those_who_wrote_or_joined(updates: Seq<TelegramUpdate>)
    ensures
        source_ids(unique_contacts(seen_contacts(updates))).no_duplicates(),
        forall|id: Seq<char>| #[trigger]
            source_ids(unique_contacts(seen_contacts(updates))).contains(id) <==> exists|j: int|
                0 <= j < updates.len() && meets_user(#[trigger] updates[j], id),
{
    let all = seen_contacts(updates);
    let f = |contact: ContactView| contact.source_id;
    law_one_item_for_each_key(all, source_ids(all), f);
    let kept = unique_contacts(all);
    assert(kept.map_values(f) =~= source_ids(kept));
    assert forall|id: Seq<char>| #[trigger] source_ids(kept).contains(id) <==> exists|j: int|
        0 <= j < updates.len() && meets_user(#[trigger] updates[j], id) by {
        lemma_seen(updates, id);
    }
}

/// What a poll reports is every message of the updates in its order, each with the offset that
/// acknowledges its own update and none behind it.
pub proof fn law_polls_report_every_message(updates: Seq<TelegramUpdate>)
    ensures
        polled_of(updates) == updates.filter(
            |update: TelegramUpdate| update.message is Some,
        ).map_values(
            |update: TelegramUpdate|
                (update.update_id, update.update_id + 1, message_of(update.message->0)),
        ),
    decreases updates.len(),
{
    reveal(Seq::filter);
    let ok = |update: TelegramUpdate| update.message is Some;
    let f = |update: TelegramUpdate|
        (update.update_id, update.update_id + 1, message_of(update.message->0));
    if updates.len() > 0 {
        law_polls_report_every_message(updates.drop_last());
        if updates.last().message is Some {
            assert(updates.filter(ok).map_values(f) =~= updates.drop_last().filter(ok).map_values(
                f,
            ).push(f(updates.last())));
        }
    } else {
        assert(updates.filter(ok).map_values(f) =~= seq![]);
    }
}

/// A chat is found for a thread where an update speaks of the chat whose thread has the UUID, and
/// only there.
pub proof fn law_chats_are_found_by_their_thread(updates: Seq<TelegramUpdate>, requested: Uuid)
    ensures
        chat_among(updates, requested) matches Some(chat) ==> telegram_uuid(
            "thread:"@ + decimal(chat as int),
        ) == requested && exists|j: int|
            0 <= j < updates.len() && from_chat(#[trigger] updates[j], chat),
        chat_among(updates, requested) is None ==> forall|j: int|
            0 <= j < updates.len() && (#[trigger] updates[j]).message is Some ==> telegram_uuid(
                "thread:"@ + decimal(updates[j].message->0.chat.id as int),
            ) != requested,
    decreases updates.len(),
{
    if updates.len() > 0 {
        let rest = updates.drop_first();
        law_chats_are_found_by_their_thread(rest, requested);
        let here = updates[0].message matches Some(message) && thread_id_of(message.chat.id)
            == requested;
        if here {
            assert(from_chat(updates[0], updates[0].message->0.chat.id));
        } else {
            if let Some(chat) = chat_among(rest, requested) {
                let j = choose|j: int| 0 <= j < rest.len() && from_chat(#[trigger] rest[j], chat);
                assert(from_chat(updates[j + 1], chat));
            }
            assert forall|j: int|
                0 <= j < updates.len() && (#[trigger] updates[j]).message is Some && chat_among(
                    updates,
                    requested,
                ) is None implies telegram_uuid(
                "thread:"@ + decimal(updates[j].message->0.chat.id as int),
            ) != requested by {
                if j > 0 {
                    assert(rest[j - 1] == updates[j]);
                }
            }
        }
    }
}

/// A thread ID that is a number is the chat with that number; one that is a UUID is to be searched
/// for; anything else is refused.
pub proof fn law_thread_ids_are_numbers_or_uuids(thread_id: Seq<char>, chat: i64)
    ensures
        lookup_of(decimal(chat as int)) == Ok::<ChatLookup, IrisErrorView>(ChatLookup::Chat(chat)),
        parsed_signed(thread_id) is Err && uuid_parsed(thread_id) is Ok ==> lookup_of(thread_id)
            == Ok::<ChatLookup, IrisErrorView>(
            ChatLookup::Search(Uuid { value: uuid_parsed(thread_id)->Ok_0 }),
        ),
        parsed_signed(thread_id) is Err && uuid_parsed(thread_id) is Err ==> lookup_of(thread_id)
            == Err::<ChatLookup, IrisErrorView>(
            IrisErrorView::Config("telegram thread id must be an Iris UUID or numeric chat id"@),
        ),
{
    law_decimals_read_back(chat);
}

/// Media goes out by the method of its type, whatever the letter case and the white space around
/// it: pictures, sound and moving pictures by their own, everything else as a document; and each
/// method has the field of its kind of media.
pub proof fn law_media_goes_out_by_its_type(mime_type: Seq<char>, rest: Seq<char>)
    ensures
        lowered_ascii(trimmed(mime_type)) == "image/"@ + rest ==> media_method_of(mime_type)
            == "sendPhoto"@,
        lowered_ascii(trimmed(mime_type)) == "audio/"@ + rest ==> media_method_of(mime_type)
            == "sendAudio"@,
        lowered_ascii(trimmed(mime_type)) == "video/"@ + rest ==> media_method_of(mime_type)
            == "sendVideo"@,
        !begins(lowered_ascii(trimmed(mime_type)), "image/"@) && !begins(
            lowered_ascii(trimmed(mime_type)),
            "audio/"@,
        ) && !begins(lowered_ascii(trimmed(mime_type)), "video/"@) ==> media_method_of(mime_type)
            == "sendDocument"@,
        media_field_of("sendPhoto"@) == "photo"@,
        media_field_of("sendAudio"@) == "audio"@,
        media_field_of("sendVideo"@) == "video"@,
        media_field_of("sendDocument"@) == "document"@,
{
    reveal_strlit("image/");
    reveal_strlit("audio/");
    reveal_strlit("video/");
    reveal_strlit("sendPhoto");
    reveal_strlit("sendAudio");
    reveal_strlit("sendVideo");
    reveal_strlit("sendDocument");
    assert("sendPhoto"@[4] == 'P' && "sendAudio"@[4] == 'A' && "sendVideo"@[4] == 'V');
    assert("sendDocument"@[4] == 'D');
    let mime = lowered_ascii(trimmed(mime_type));
    assert(("image/"@ + rest).take(6) =~= "image/"@);
    assert(("audio/"@ + rest).take(6) =~= "audio/"@);
    assert(("video/"@ + rest).take(6) =~= "video/"@);
    assert("image/"@[0] == 'i' && "audio/"@[0] == 'a' && "video/"@[0] == 'v');
}

/// A bot needs a token that is not blank, given as `bot_token` or else as `token`, and keeps it as
/// it is; a base URL loses the slashes at its end.
pub proof fn law_bots_need_a_token(
    credentials: Seq<(Seq<char>, Seq<char>)>,
    token: Seq<char>,
    base_url: Seq<char>,
)
    ensures
        blank(token) ==> provider_of(token, base_url) == Err::<
            (Seq<char>, Seq<char>),
            IrisErrorView,
        >(IrisErrorView::Config("telegram bot_token is required"@)),
        !blank(token) ==> provider_of(token, base_url) == Ok::<
            (Seq<char>, Seq<char>),
            IrisErrorView,
        >((token, without_trailing(base_url, '/'))),
        find(credentials, "bot_token"@) == Some(token) ==> provider_from(credentials)
            == provider_of(token, "https://api.telegram.org"@),
        find(credentials, "bot_token"@) is None && find(credentials, "token"@) == Some(token)
            ==> provider_from(credentials) == provider_of(token, "https://api.telegram.org"@),
        find(credentials, "bot_token"@) is None && find(credentials, "token"@) is None
            ==> provider_from(credentials) is Err,
{
}

/// The extension that a file gets by its MIME type stands for that type; only a type without one
/// gets `bin`.
pub proof fn law_extensions_stand_for_their_type(mime: Seq<char>)
    ensures
        conventional_extension(mime) != "bin"@ ==> mime_of(conventional_extension(mime)) == mime,
        mime == "image/png"@ ==> conventional_extension(mime) == "png"@,
        mime == "image/jpeg"@ ==> conventional_extension(mime) == "jpg"@,
        mime == "image/gif"@ ==> conventional_extension(mime) == "gif"@,
        mime == "image/webp"@ ==> conventional_extension(mime) == "webp"@,
        mime == "audio/mpeg"@ ==> conventional_extension(mime) == "mp3"@,
        mime == "audio/ogg"@ ==> conventional_extension(mime) == "ogg"@,
        mime == "audio/wav"@ ==> conventional_extension(mime) == "wav"@,
        mime == "video/mp4"@ ==> conventional_extension(mime) == "mp4"@,
        mime == "video/webm"@ ==> conventional_extension(mime) == "webm"@,
        mime == "application/pdf"@ ==> conventional_extension(mime) == "pdf"@,
        mime == "text/plain"@ ==> conventional_extension(mime) == "txt"@,
        (
        mime != "image/png"@
        && mime != "image/jpeg"@
        && mime != "image/gif"@
        && mime != "image/webp"@
        && mime != "audio/mpeg"@
        && mime != "audio/ogg"@
        && mime != "audio/wav"@
        && mime != "video/mp4"@
        && mime != "video/webm"@
        && mime != "application/pdf"@
        && mime != "text/plain"@
        ) ==> conventional_extension(mime) == "bin"@,
{
    reveal_strlit("image/png");
    reveal_strlit("image/jpeg");
    reveal_strlit("image/gif");
    reveal_strlit("image/webp");
    reveal_strlit("audio/mpeg");
    reveal_strlit("audio/ogg");
    reveal_strlit("audio/wav");
    reveal_strlit("video/mp4");
    reveal_strlit("video/webm");
    reveal_strlit("application/pdf");
    reveal_strlit("text/plain");
    assert("image/png"@.len() == 9
        && "image/png"@[0] == 'i'
        && "image/png"@[6] == 'p'
        && "image/png"@[7] == 'n');
    assert("image/jpeg"@.len() == 10
        && "image/jpeg"@[0] == 'i'
        && "image/jpeg"@[6] == 'j'
        && "image/jpeg"@[7] == 'p');
    assert("image/gif"@.len() == 9
        && "image/gif"@[0] == 'i'
        && "image/gif"@[6] == 'g'
        && "image/gif"@[7] == 'i');
    assert("image/webp"@.len() == 10
        && "image/webp"@[0] == 'i'
        && "image/webp"@[6] == 'w'
        && "image/webp"@[7] == 'e');
    assert("audio/mpeg"@.len() == 10
        && "audio/mpeg"@[0] == 'a'
        && "audio/mpeg"@[6] == 'm'
        && "audio/mpeg"@[7] == 'p');
    assert("audio/ogg"@.len() == 9
        && "audio/ogg"@[0] == 'a'
        && "audio/ogg"@[6] == 'o'
        && "audio/ogg"@[7] == 'g');
    assert("audio/wav"@.len() == 9
        && "audio/wav"@[0] == 'a'
        && "audio/wav"@[6] == 'w'
        && "audio/wav"@[7] == 'a');
    assert("video/mp4"@.len() == 9
        && "video/mp4"@[0] == 'v'
        && "video/mp4"@[6] == 'm'
        && "video/mp4"@[7] == 'p');
    assert("video/webm"@.len() == 10
        && "video/webm"@[0] == 'v'
        && "video/webm"@[6] == 'w'
        && "video/webm"@[7] == 'e');
    assert("application/pdf"@.len() == 15
        && "application/pdf"@[0] == 'a'
        && "application/pdf"@[6] == 'a'
        && "application/pdf"@[7] == 't');
    assert("text/plain"@.len() == 10
        && "text/plain"@[0] == 't'
        && "text/plain"@[6] == 'l'
        && "text/plain"@[7] == 'a');
    law_extensions_stand_for_types(conventional_extension(mime));
    let known = known_types();
    assert(known[0] == ("png"@, "image/png"@));
    assert(known[1] == ("jpg"@, "image/jpeg"@));
    assert(known[3] == ("gif"@, "image/gif"@));
    assert(known[4] == ("webp"@, "image/webp"@));
    assert(known[17] == ("mp3"@, "audio/mpeg"@));
    assert(known[19] == ("ogg"@, "audio/ogg"@));
    assert(known[18] == ("wav"@, "audio/wav"@));
    assert(known[22] == ("mp4"@, "video/mp4"@));
    assert(known[23] == ("webm"@, "video/webm"@));
    assert(known[14] == ("pdf"@, "application/pdf"@));
    assert(known[7] == ("txt"@, "text/plain"@));
}

/// A poll for updates asks for messages alone, from an offset on and for a time where they are
/// given.
pub proof fn law_updates_are_asked_for_by_offset_and_timeout(
    offset: Option<i64>,
    timeout: Option<u32>,
    name: Seq<char>,
    value: Seq<char>,
)
    ensures
        updates_query(offset, timeout).contains((name, value)) <==> {
            ||| name == "allowed_updates"@ && value == "[\"message\"]"@
            ||| name == "offset"@ && (offset matches Some(n) && value == decimal(n as int))
            ||| name == "timeout"@ && (timeout matches Some(n) && value == decimal(n as int))
        },
{
    let a = seq![("allowed_updates"@, "[\"message\"]"@)];
    let b = match offset {
        Some(offset) => seq![("offset"@, decimal(offset as int))],
        None => seq![],
    };
    let c = match timeout {
        Some(timeout) => seq![("timeout"@, decimal(timeout as int))],
        None => seq![],
    };
    let pair = (name, value);
    assert(updates_query(offset, timeout) == a + b + c);
    lemma_contains_either(a + b, c, pair);
    lemma_contains_either(a, b, pair);
    assert(a[0] == ("allowed_updates"@, "[\"message\"]"@));
    if offset is Some {
        assert(b[0] == ("offset"@, decimal(offset->0 as int)));
    }
    if timeout is Some {
        assert(c[0] == ("timeout"@, decimal(timeout->0 as int)));
    }
}

/// A thread tells the kind of its chat and the name under which the chat is public.
pub proof fn law_threads_tell_the_kind_of_their_chat(message: TelegramMessage)
    ensures
        ({
            let members = thread_of(message).metadata->Object_0;
            &&& thread_of(message).metadata is Object && members.len() == 2
            &&& members[0] == ("chat_type"@, JsonView::Text(message.chat.kind@))
            &&& members[1].0 == "username"@
            &&& message.chat.username matches Some(name) ==> members[1].1 == JsonView::Text(name@)
            &&& message.chat.username is None ==> members[1].1 == JsonView::Null
        }),
{
}

/// The sizes of a photo are told one by one, each with its identifiers and measures.
pub proof fn law_photos_are_told_in_all_sizes(photo: TelegramPhotoSize)
    ensures
        ({
            let members = photo_view(photo)->Object_0;
            &&& photo_view(photo) is Object && members.len() == 5
            &&& members[0] == ("file_id"@, JsonView::Text(photo.file_id@))
            &&& members[1].0 == "file_size"@
            &&& photo.file_size matches Some(n) ==> members[1].1 == JsonView::Number(
                JsonNumberView::Unsigned(n),
            )
            &&& photo.file_size is None ==> members[1].1 == JsonView::Null
            &&& members[2] == ("file_unique_id"@, JsonView::Text(photo.file_unique_id@))
            &&& members[3] == (
                "height"@,
                JsonView::Number(JsonNumberView::Unsigned(photo.height as u64)),
            )
            &&& members[4] == (
                "width"@,
                JsonView::Number(JsonNumberView::Unsigned(photo.width as u64)),
            )
        }),
{
}

} // verus!
