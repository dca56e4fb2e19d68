//! SMS provider backed by Termux commands over SSH.
//!
//! The provider expects an Android device running Termux with the Termux:API package installed.
//! `termux-sms-list` and `termux-sms-send` are run through SSH, and the JSON records they print
//! are normalized into the core model.

pub mod phone;

use vstd::prelude::*;
use vstd::utf8::{decode_utf8, valid_utf8};
use crate::contacts::{
    dedupe_contacts, law_one_item_for_each_key, source_ids, unique_contacts,
};
use crate::decimal::{
    decimal, law_decimals_read_back, lemma_digits_are_digits, parse_signed, parsed_signed,
    signed_text,
};
use crate::error::{config_error, prefixed, IrisError, IrisErrorView};
use crate::ids::{uuid_text, uuid_v5, Uuid};
use crate::json::{
    json_object, json_text, member, member_views, put_member, rendered, Json, JsonNumber,
    JsonNumberView, JsonView,
};
use crate::listing::{
    allowed, by_source_id, first_items, keep_first, later, law_a_sighting_changes_its_own_thread,
    law_the_latest_messages_are_shown_in_order, law_the_latest_threads_are_listed,
    lemma_first_views, list_known, newer, older, put_thread, sort_by_source_id, sort_latest_first,
    sort_oldest_first, take_thread, thread_views, with_thread, without_keys,
};
use crate::maps::{
    find, last_under, lemma_find_at, lemma_found, lemma_put, ordered, put, StringMap,
};
use crate::model::{
    Attachment, AttachmentView, Contact, ContactView, Message, MessageKind, MessageView, Thread,
    ThreadView,
};
use crate::order::{sorted_by, text_before};
use crate::outbound::{enforce_capability, gate, OutboundMessage};
use crate::provider::{ProviderCapability, ProviderMetadata};
use crate::sms::phone::{
    command_line, law_digits_are_kept_in_order, looks_like_phone, map_phone, mapped_phone,
    normal_phone, normalize_phone,
    phone_like, phone_thread, remote_command, thread_key,
};
use crate::text::{
    ascii_lowercase, begins, blank, decode_lossy, is_blank, lossy_text, lowered_ascii, str_eq,
    strip_prefix, trim, trim_leading, trim_trailing, trimmed, utf8_fault, utf8_string, view_opt,
    view_result, views, without_leading, without_trailing,
};
use crate::time::{
    law_a_point_is_made_of_its_parts, law_earlier_points_come_first, Timestamp, MAX_SECS, MIN_SECS,
};

verus! {

/// The namespace of the UUIDs of SMS threads, messages and contacts.
pub const UUID_NAMESPACE: u128 = 0x6e6c_4e12_1a7d_4a3c_8b53_8914_42f3_0003;

/// Dates above this are in milliseconds, those up to it in seconds.
pub const LAST_SECOND: i64 = 10_000_000_000;

/// Static metadata about the provider.
pub fn metadata() -> (r: ProviderMetadata)
    ensures
        r.id@ == "sms"@,
        r.name@ == "SMS"@,
        r.capabilities@ == seq![
            ProviderCapability::ListMessages,
            ProviderCapability::SendMessages,
            ProviderCapability::ListThreads,
            ProviderCapability::ListContacts,
        ],
{
    let capabilities: &'static [ProviderCapability] = &[
        ProviderCapability::ListMessages,
        ProviderCapability::SendMessages,
        ProviderCapability::ListThreads,
        ProviderCapability::ListContacts,
    ];
    assert(capabilities@ =~= seq![
        ProviderCapability::ListMessages,
        ProviderCapability::SendMessages,
        ProviderCapability::ListThreads,
        ProviderCapability::ListContacts,
    ]);
    ProviderMetadata { id: "sms", name: "SMS", capabilities }
}

/// SMS provider that talks to Termux:API commands over SSH.
#[derive(Debug)]
pub struct SmsProvider {
    pub ssh_target: String,
    pub ssh_command: String,
    /// The owner's number in its normal form.
    pub self_number: Option<String>,
    /// Which numbers stand for which others, both in their normal forms.
    pub phone_mappings: StringMap<String>,
}

/// The mathematical value of a provider.
#[verifier::ext_equal]
pub struct SmsSettings {
    pub ssh_target: Seq<char>,
    pub ssh_command: Seq<char>,
    pub self_number: Option<Seq<char>>,
    pub phone_mappings: Seq<(Seq<char>, Seq<char>)>,
}

impl View for SmsProvider {
    type V = SmsSettings;

    open spec fn view(&self) -> SmsSettings {
        SmsSettings {
            ssh_target: self.ssh_target@,
            ssh_command: self.ssh_command@,
            self_number: view_opt(self.self_number),
            phone_mappings: self.phone_mappings.texts(),
        }
    }
}

/// A number in its normal form, if there is one.
pub open spec fn normal_number(number: Option<Seq<char>>) -> Option<Seq<char>> {
    match number {
        Some(number) => Some(normal_phone(number)),
        None => None,
    }
}

/// The settings of a provider without mappings, or what is wrong with them.
pub open spec fn settings_of(target: Seq<char>, command: Seq<char>, number: Option<Seq<char>>) -> Result<
    SmsSettings,
    IrisErrorView,
> {
    if blank(target) {
        Err(IrisErrorView::Config("sms ssh_host is required"@))
    } else if blank(command) {
        Err(IrisErrorView::Config("sms ssh_command cannot be empty"@))
    } else {
        Ok(
            SmsSettings {
                ssh_target: target,
                ssh_command: command,
                self_number: normal_number(number),
                phone_mappings: seq![],
            },
        )
    }
}

/// The numbers that credentials map to others, those of later keys in place of earlier ones.
pub open spec fn phone_map(credentials: Seq<(Seq<char>, Seq<char>)>) -> Seq<(Seq<char>, Seq<char>)>
    decreases credentials.len(),
{
    if credentials.len() == 0 {
        seq![]
    } else {
        let front = phone_map(credentials.drop_last());
        let (key, value) = credentials.last();
        if begins(key, "phone_map."@) {
            put(
                front,
                normal_phone(key.skip("phone_map."@.len() as int)),
                normal_phone(value),
            )
        } else {
            front
        }
    }
}

/// The first of two credentials that is there.
pub open spec fn either(
    credentials: Seq<(Seq<char>, Seq<char>)>,
    first: Seq<char>,
    second: Seq<char>,
) -> Option<Seq<char>> {
    match find(credentials, first) {
        Some(value) => Some(value),
        None => find(credentials, second),
    }
}

/// The settings that credentials name, or what is wrong with them.
pub open spec fn settings_from(credentials: Seq<(Seq<char>, Seq<char>)>) -> Result<
    SmsSettings,
    IrisErrorView,
> {
    match either(credentials, "ssh_host"@, "host"@) {
        None => Err(IrisErrorView::Config("sms credentials.ssh_host is required"@)),
        Some(target) => {
            let command = match find(credentials, "ssh_command"@) {
                Some(command) => command,
                None => "ssh"@,
            };
            match settings_of(
                target,
                command,
                either(credentials, "self_number"@, "phone_number"@),
            ) {
                Ok(settings) => Ok(
                    SmsSettings { phone_mappings: phone_map(credentials), ..settings },
                ),
                Err(error) => Err(error),
            }
        },
    }
}

impl SmsProvider {
    /// Create an SMS provider from SSH connection settings.
    pub fn new(ssh_target: &str) -> (r: Result<SmsProvider, IrisError>)
        ensures
            view_result(r) == settings_of(ssh_target@, "ssh"@, None),
    {
        SmsProvider::with_options(ssh_target, "ssh", None)
    }

    /// Create an SMS provider with an explicit SSH command and optional owner number.
    pub fn with_options(ssh_target: &str, ssh_command: &str, self_number: Option<&str>) -> (r:
        Result<SmsProvider, IrisError>)
        ensures
            view_result(r) == settings_of(
                ssh_target@,
                ssh_command@,
                match self_number {
                    Some(number) => Some(number@),
                    None => None,
                },
            ),
    {
        if is_blank(ssh_target) {
            return Err(config_error("sms ssh_host is required"));
        }
        if is_blank(ssh_command) {
            return Err(config_error("sms ssh_command cannot be empty"));
        }
        let phone_mappings: StringMap<String> = StringMap::new();
        assert(phone_mappings.texts() =~= seq![]);
        Ok(
            SmsProvider {
                ssh_target: ssh_target.to_owned(),
                ssh_command: ssh_command.to_owned(),
                self_number: match self_number {
                    Some(number) => Some(normalize_phone(number)),
                    None => None,
                },
                phone_mappings,
            },
        )
    }

    /// Build from resolved provider credentials.
    pub fn from_credentials(credentials: &StringMap<String>) -> (r: Result<SmsProvider, IrisError>)
        ensures
            view_result(r) == settings_from(credentials.texts()),
    {
        let ssh_target = match credentials.get_text("ssh_host") {
            Some(target) => target,
            None => match credentials.get_text("host") {
                Some(target) => target,
                None => {
                    return Err(config_error("sms credentials.ssh_host is required"));
                },
            },
        };
        let ssh_command = match credentials.get_text("ssh_command") {
            Some(command) => command.clone(),
            None => "ssh".to_owned(),
        };
        let self_number: Option<&str> = match credentials.get_text("self_number") {
            Some(number) => Some(number.as_str()),
            None => match credentials.get_text("phone_number") {
                Some(number) => Some(number.as_str()),
                None => None,
            },
        };
        let made = SmsProvider::with_options(
            ssh_target.as_str(),
            ssh_command.as_str(),
            self_number,
        );
        let mut provider = match made {
            Ok(provider) => provider,
            Err(error) => {
                return Err(error);
            },
        };
        let ghost all = credentials.texts();
        let n: usize = credentials.len();
        let mut mappings: StringMap<String> = StringMap::new();
        let mut i: usize = 0;
        assert(all.take(0) =~= seq![]);
        assert(mappings.texts() =~= seq![]);
        while i < n
            invariant
                i <= n,
                n == all.len(),
                all == credentials.texts(),
                mappings.texts() == phone_map(all.take(i as int)),
            decreases n - i,
        {
            proof {
                let next = all.take(i + 1);
                assert(next.drop_last() =~= all.take(i as int));
                assert(next.last() == all[i as int]);
            }
            if let Some(from) = strip_prefix(credentials.key_at(i), "phone_map.") {
                let to = normalize_phone(credentials.value_at(i).as_str());
                let from = normalize_phone(from);
                mappings.insert_text(from, to);
            }
            i += 1;
        }
        assert(all.take(all.len() as int) =~= all);
        provider.phone_mappings = mappings;
        Ok(provider)
    }
}

/// The arguments of the command that lists messages.
pub fn list_arguments() -> (r: Vec<String>)
    ensures
        views(r@) == seq!["termux-sms-list"@, "-l"@, "1000"@],
{
    let mut arguments: Vec<String> = Vec::new();
    arguments.push("termux-sms-list".to_owned());
    arguments.push("-l".to_owned());
    arguments.push("1000".to_owned());
    assert(views(arguments@) =~= seq!["termux-sms-list"@, "-l"@, "1000"@]);
    arguments
}

/// The command line that lists messages.
pub fn list_command() -> (r: String)
    ensures
        r@ == command_line(seq!["termux-sms-list"@, "-l"@, "1000"@]),
{
    remote_command(&list_arguments())
}

/// The command line that sends a message.
pub fn send_command(phone: &str, body: &str) -> (r: String)
    ensures
        r@ == command_line(seq!["termux-sms-send"@, "-n"@, phone@, body@]),
{
    let mut arguments: Vec<String> = Vec::new();
    arguments.push("termux-sms-send".to_owned());
    arguments.push("-n".to_owned());
    arguments.push(phone.to_owned());
    arguments.push(body.to_owned());
    assert(views(arguments@) =~= seq!["termux-sms-send"@, "-n"@, phone@, body@]);
    remote_command(&arguments)
}

/// What a finished command printed, or the error it stands for.
pub open spec fn printed(success: bool, stdout: Seq<u8>, stderr: Seq<u8>) -> Result<
    Seq<char>,
    IrisErrorView,
> {
    if !success {
        Err(
            IrisErrorView::Provider {
                provider: "sms"@,
                message: trimmed(lossy_text(stderr)),
            },
        )
    } else if valid_utf8(stdout) {
        Ok(decode_utf8(stdout))
    } else {
        Err(IrisErrorView::Serialization(utf8_fault(stdout)))
    }
}

/// What a finished command printed, or the error it stands for.
pub fn command_output(success: bool, stdout: Vec<u8>, stderr: &[u8]) -> (r: Result<
    String,
    IrisError,
>)
    ensures
        view_result(r) == printed(success, stdout@, stderr@),
{
    if !success {
        return Err(
            IrisError::Provider {
                provider: "sms".to_owned(),
                message: trim(decode_lossy(stderr).as_str()),
            },
        );
    }
    match utf8_string(stdout) {
        Ok(text) => Ok(text),
        Err(message) => Err(IrisError::Serialization(message)),
    }
}

/// A message as Termux lists it.
#[derive(Debug, PartialEq, Eq)]
pub struct TermuxSmsRecord {
    pub id: Option<Json>,
    pub threadid: Option<Json>,
    pub address: String,
    pub body: String,
    pub date: Option<Json>,
    pub message_type: Option<Json>,
    pub read: Option<Json>,
    /// What the record holds besides, in the order of the names.
    pub extra: Vec<(String, Json)>,
}

/// The mathematical value of a record.
#[verifier::ext_equal]
pub struct SmsRecordView {
    pub id: Option<JsonView>,
    pub threadid: Option<JsonView>,
    pub address: Seq<char>,
    pub body: Seq<char>,
    pub date: Option<JsonView>,
    pub message_type: Option<JsonView>,
    pub read: Option<JsonView>,
    pub extra: Seq<(Seq<char>, JsonView)>,
}

impl View for TermuxSmsRecord {
    type V = SmsRecordView;

    open spec fn view(&self) -> SmsRecordView {
        SmsRecordView {
            id: view_opt(self.id),
            threadid: view_opt(self.threadid),
            address: self.address@,
            body: self.body@,
            date: view_opt(self.date),
            message_type: view_opt(self.message_type),
            read: view_opt(self.read),
            extra: member_views(self.extra@),
        }
    }
}

/// The UUID of a thread.
pub open spec fn thread_id_of(key: Seq<char>) -> Uuid {
    Uuid::named(UUID_NAMESPACE, "thread:"@ + key)
}

/// The UUID of a message.
pub open spec fn message_id_of(address: Seq<char>, id: Seq<char>) -> Uuid {
    Uuid::named(UUID_NAMESPACE, "message:"@ + address + ":"@ + id)
}

/// The UUID of a contact.
pub open spec fn contact_id_of(address: Seq<char>) -> Uuid {
    Uuid::named(UUID_NAMESPACE, "contact:"@ + address)
}

/// The UUID of a thread.
pub fn thread_uuid(key: &str) -> (r: Uuid)
    ensures
        r == thread_id_of(key@),
{
    Uuid::of_name(UUID_NAMESPACE, prefixed("thread:", key).as_str())
}

fn message_uuid(address: &str, message_id: &str) -> (r: Uuid)
    ensures
        r == message_id_of(address@, message_id@),
{
    let mut name = prefixed("message:", address);
    name.append(":");
    name.append(message_id);
    Uuid::of_name(UUID_NAMESPACE, name.as_str())
}

fn contact_uuid(address: &str) -> (r: Uuid)
    ensures
        r == contact_id_of(address@),
{
    Uuid::of_name(UUID_NAMESPACE, prefixed("contact:", address).as_str())
}

/// A value as a text: a text as it is, anything else as JSON without quotation marks around it.
pub open spec fn value_text(value: JsonView) -> Seq<char> {
    match value {
        JsonView::Text(text) => text,
        other => without_trailing(without_leading(rendered(other), '"'), '"'),
    }
}

/// A value as a text: a text as it is, anything else as JSON without quotation marks around it.
pub fn value_to_string(value: &Json) -> (r: String)
    ensures
        r@ == value_text(value@),
{
    match value {
        Json::Text(text) => text.clone(),
        other => {
            let text = other.render();
            trim_trailing(trim_leading(text.as_str(), '"'), '"').to_owned()
        },
    }
}

/// The number of a date: an integer, or a text that is one, else zero.
pub open spec fn date_number(value: JsonView) -> int {
    match value {
        JsonView::Number(JsonNumberView::Unsigned(n)) => if n <= i64::MAX {
            n as int
        } else {
            0
        },
        JsonView::Number(JsonNumberView::Negative(n)) => n as int,
        JsonView::Text(text) => match parsed_signed(text) {
            Ok(n) => n,
            Err(_) => 0,
        },
        _ => 0,
    }
}

/// The point in time of a record's date, the Unix epoch where it names none.
pub open spec fn record_time(date: Option<JsonView>) -> Timestamp {
    match date {
        None => Timestamp::at(0, 0),
        Some(value) => {
            let n = date_number(value);
            if n > LAST_SECOND {
                if MIN_SECS <= n / 1000 <= MAX_SECS {
                    Timestamp::at((n / 1000) as i64, ((n % 1000) * 1_000_000) as u32)
                } else {
                    Timestamp::at(0, 0)
                }
            } else if MIN_SECS <= n <= MAX_SECS {
                Timestamp::at(n as i64, 0)
            } else {
                Timestamp::at(0, 0)
            }
        },
    }
}

/// An optional value in JSON.
pub open spec fn or_null(value: Option<JsonView>) -> JsonView {
    match value {
        Some(value) => value,
        None => JsonView::Null,
    }
}

/// The members with others put over them.
pub open spec fn overlaid(members: Seq<(Seq<char>, JsonView)>, others: Seq<(Seq<char>, JsonView)>) -> Seq<
    (Seq<char>, JsonView),
>
    decreases others.len(),
{
    if others.len() == 0 {
        members
    } else {
        put(overlaid(members, others.drop_last()), others.last().0, others.last().1)
    }
}

/// The contact who owns the phone.
pub open spec fn owner(self_number: Option<Seq<char>>) -> ContactView {
    let source_id = match self_number {
        Some(number) => normal_phone(number),
        None => "self"@,
    };
    ContactView {
        id: contact_id_of(source_id),
        source: "sms"@,
        source_id,
        provider_instance: None,
        display_name: Some("Me"@),
        avatar_url: None,
        metadata: JsonView::Object(seq![("owner"@, JsonView::Bool(true))]),
    }
}

impl SmsRecordView {
    /// The identifier of the message: its own, else its thread's, else its number and time.
    pub open spec fn source(self) -> Seq<char> {
        match self.id {
            Some(id) => value_text(id),
            None => match self.threadid {
                Some(id) => value_text(id),
                None => normal_phone(self.address) + ":"@ + decimal(record_time(self.date).millis()),
            },
        }
    }

    /// Whether the owner sent the message.
    pub open spec fn outbound(self) -> bool {
        match self.message_type {
            Some(value) => {
                let kind = lowered_ascii(value_text(value));
                kind == "sent"@ || kind == "2"@ || kind == "outbox"@ || kind == "queued"@
            },
            None => false,
        }
    }

    /// One where the message is unread.
    pub open spec fn unread(self) -> Option<u32> {
        match self.read {
            Some(JsonView::Bool(read)) => if !read {
                Some(1)
            } else {
                None
            },
            Some(JsonView::Number(JsonNumberView::Unsigned(n))) => if n == 0 {
                Some(1)
            } else {
                None
            },
            Some(JsonView::Text(text)) => if text == "0"@ || lowered_ascii(text) == "false"@ {
                Some(1)
            } else {
                None
            },
            _ => None,
        }
    }

    /// The contact at the other end.
    pub open spec fn contact_of(self, mappings: Seq<(Seq<char>, Seq<char>)>) -> ContactView {
        let address = mapped_phone(self.address, mappings);
        ContactView {
            id: contact_id_of(address),
            source: "sms"@,
            source_id: address,
            provider_instance: None,
            display_name: Some(self.address),
            avatar_url: None,
            metadata: JsonView::Object(seq![("address"@, JsonView::Text(self.address))]),
        }
    }

    /// What the record holds besides the message.
    pub open spec fn metadata_of(self) -> JsonView {
        JsonView::Object(
            overlaid(
                seq![
                    ("address"@, JsonView::Text(self.address)),
                    ("read"@, or_null(self.read)),
                    ("threadid"@, or_null(self.threadid)),
                    ("type"@, or_null(self.message_type)),
                ],
                self.extra,
            ),
        )
    }

    /// What the messages of the record's thread have in common.
    pub open spec fn key(self, self_number: Option<Seq<char>>, mappings: Seq<(Seq<char>, Seq<char>)>) -> Seq<
        char,
    > {
        phone_thread(self_number, mapped_phone(self.address, mappings))
    }

    /// The message of the record.
    pub open spec fn message_of(
        self,
        self_number: Option<Seq<char>>,
        mappings: Seq<(Seq<char>, Seq<char>)>,
    ) -> MessageView {
        MessageView {
            id: message_id_of(mapped_phone(self.address, mappings), self.source()),
            thread_id: thread_id_of(self.key(self_number, mappings)),
            source: "sms"@,
            source_id: self.source(),
            sender: if self.outbound() {
                owner(self_number)
            } else {
                self.contact_of(mappings)
            },
            kind: MessageKind::Text,
            body: self.body,
            attachments: Seq::<AttachmentView>::empty(),
            timestamp: record_time(self.date),
            is_outbound: self.outbound(),
            metadata: self.metadata_of(),
        }
    }

    /// The thread that the record shows.
    pub open spec fn thread_of(
        self,
        self_number: Option<Seq<char>>,
        mappings: Seq<(Seq<char>, Seq<char>)>,
    ) -> ThreadView {
        ThreadView {
            id: thread_id_of(self.key(self_number, mappings)),
            source: "sms"@,
            source_id: self.key(self_number, mappings),
            provider_instance: None,
            title: Some(self.address),
            participants: unique_contacts(
                if self_number is Some {
                    seq![self.contact_of(mappings), owner(self_number)]
                } else {
                    seq![self.contact_of(mappings)]
                },
            ),
            last_message_at: record_time(self.date),
            unread_count: self.unread(),
            metadata: JsonView::Object(
                seq![
                    ("address"@, JsonView::Text(self.address)),
                    ("threadid"@, or_null(self.threadid)),
                ],
            ),
        }
    }

    /// Whether a thread identifier means the record's thread: by its number, its key, its UUID or
    /// the phone's own identifier.
    pub open spec fn in_thread(
        self,
        thread_id: Seq<char>,
        self_number: Option<Seq<char>>,
        mappings: Seq<(Seq<char>, Seq<char>)>,
    ) -> bool {
        ||| mapped_phone(self.address, mappings) == mapped_phone(thread_id, mappings)
        ||| self.key(self_number, mappings) == thread_id
        ||| uuid_text(thread_id_of(self.key(self_number, mappings)).value) == thread_id
        ||| self.threadid matches Some(id) && value_text(id) == thread_id
    }
}

fn copy_value(value: &Option<Json>) -> (r: Json)
    ensures
        r@ == or_null(view_opt(*value)),
{
    match value {
        Some(value) => value.clone(),
        None => Json::Null,
    }
}

/// The contact who owns the phone.
pub fn self_contact(self_number: &Option<String>) -> (r: Contact)
    ensures
        r@ == owner(view_opt(*self_number)),
{
    let source_id = match self_number {
        Some(number) => normalize_phone(number.as_str()),
        None => "self".to_owned(),
    };
    let mut members: Vec<(String, Json)> = Vec::new();
    members.push(member("owner", Json::Bool(true)));
    assert(member_views(members@) =~= seq![("owner"@, JsonView::Bool(true))]);
    Contact {
        id: contact_uuid(source_id.as_str()),
        source: "sms".to_owned(),
        source_id,
        provider_instance: None,
        display_name: Some("Me".to_owned()),
        avatar_url: None,
        metadata: json_object(members),
    }
}

impl TermuxSmsRecord {
    /// The point in time of the record's date.
    pub fn timestamp(&self) -> (r: Timestamp)
        ensures
            r == record_time(self@.date),
    {
        let value = match &self.date {
            Some(value) => value,
            None => {
                return Timestamp::epoch();
            },
        };
        let n: i64 = match value {
            Json::Number(JsonNumber::Unsigned(n)) => if *n <= i64::MAX as u64 {
                *n as i64
            } else {
                0
            },
            Json::Number(JsonNumber::Negative(n)) => *n,
            Json::Text(text) => match parse_signed(text.as_str()) {
                Ok(n) => n,
                Err(_) => 0,
            },
            _ => 0,
        };
        assert(n == date_number(value@));
        let point = if n > LAST_SECOND {
            Timestamp::from_millis(n)
        } else {
            Timestamp::from_seconds(n)
        };
        match point {
            Some(at) => at,
            None => Timestamp::epoch(),
        }
    }

    /// The identifier of the message.
    pub fn source_id(&self) -> (r: String)
        ensures
            r@ == self@.source(),
    {
        match &self.id {
            Some(id) => value_to_string(id),
            None => match &self.threadid {
                Some(id) => value_to_string(id),
                None => {
                    let mut out = normalize_phone(self.address.as_str());
                    out.append(":");
                    out.append(signed_text(self.timestamp().timestamp_millis()).as_str());
                    out
                },
            },
        }
    }

    /// Whether the owner sent the message.
    pub fn is_outbound(&self) -> (r: bool)
        ensures
            r == self@.outbound(),
    {
        match &self.message_type {
            Some(value) => {
                let text = value_to_string(value);
                let kind = ascii_lowercase(text.as_str());
                str_eq(kind.as_str(), "sent") || str_eq(kind.as_str(), "2") || str_eq(
                    kind.as_str(),
                    "outbox",
                ) || str_eq(kind.as_str(), "queued")
            },
            None => false,
        }
    }

    /// One where the message is unread.
    pub fn unread_count(&self) -> (r: Option<u32>)
        ensures
            r == self@.unread(),
            r matches Some(n) ==> n == 1,
    {
        let read = match &self.read {
            Some(read) => read,
            None => {
                return None;
            },
        };
        let is_unread = match read {
            Json::Bool(value) => !*value,
            Json::Number(JsonNumber::Unsigned(n)) => *n == 0,
            Json::Text(text) => str_eq(text.as_str(), "0") || str_eq(
                ascii_lowercase(text.as_str()).as_str(),
                "false",
            ),
            _ => false,
        };
        if is_unread {
            Some(1)
        } else {
            None
        }
    }

    /// What the record holds besides the message.
    pub fn metadata(&self) -> (r: Json)
        ensures
            r@ == self@.metadata_of(),
    {
        let mut members: Vec<(String, Json)> = Vec::new();
        members.push(member("address", json_text(self.address.as_str())));
        members.push(member("read", copy_value(&self.read)));
        members.push(member("threadid", copy_value(&self.threadid)));
        members.push(member("type", copy_value(&self.message_type)));
        let ghost base = seq![
            ("address"@, JsonView::Text(self@.address)),
            ("read"@, or_null(self@.read)),
            ("threadid"@, or_null(self@.threadid)),
            ("type"@, or_null(self@.message_type)),
        ];
        assert(member_views(members@) =~= base);
        let ghost all = self@.extra;
        let mut i: usize = 0;
        assert(all.take(0) =~= seq![]);
        while i < self.extra.len()
            invariant
                i <= self.extra@.len(),
                all == member_views(self.extra@),
                member_views(members@) == overlaid(base, all.take(i as int)),
            decreases self.extra@.len() - i,
        {
            proof {
                let next = all.take(i + 1);
                assert(next.drop_last() =~= all.take(i as int));
                assert(next.last() == all[i as int]);
            }
            put_member(&mut members, self.extra[i].0.as_str(), self.extra[i].1.clone());
            i += 1;
        }
        assert(all.take(all.len() as int) =~= all);
        json_object(members)
    }

    /// The contact at the other end.
    pub fn contact(&self, phone_mappings: &StringMap<String>) -> (r: Contact)
        ensures
            r@ == self@.contact_of(phone_mappings.texts()),
    {
        let address = map_phone(self.address.as_str(), phone_mappings);
        let mut members: Vec<(String, Json)> = Vec::new();
        members.push(member("address", json_text(self.address.as_str())));
        assert(member_views(members@) =~= seq![("address"@, JsonView::Text(self.address@))]);
        Contact {
            id: contact_uuid(address.as_str()),
            source: "sms".to_owned(),
            source_id: address,
            provider_instance: None,
            display_name: Some(self.address.clone()),
            avatar_url: None,
            metadata: json_object(members),
        }
    }

    /// What the messages of the record's thread have in common.
    pub fn thread_key(&self, self_number: &Option<String>, phone_mappings: &StringMap<String>) -> (r:
        String)
        ensures
            r@ == self@.key(view_opt(*self_number), phone_mappings.texts()),
    {
        thread_key(self_number, map_phone(self.address.as_str(), phone_mappings).as_str())
    }

    /// The message of the record.
    pub fn to_message(&self, self_number: &Option<String>, phone_mappings: &StringMap<String>) -> (r:
        Message)
        ensures
            r@ == self@.message_of(view_opt(*self_number), phone_mappings.texts()),
    {
        let address = map_phone(self.address.as_str(), phone_mappings);
        let source_id = self.source_id();
        let is_outbound = self.is_outbound();
        let attachments: Vec<Attachment> = Vec::new();
        assert(views(attachments@) =~= Seq::<AttachmentView>::empty());
        Message {
            id: message_uuid(address.as_str(), source_id.as_str()),
            thread_id: thread_uuid(self.thread_key(self_number, phone_mappings).as_str()),
            source: "sms".to_owned(),
            source_id,
            sender: if is_outbound {
                self_contact(self_number)
            } else {
                self.contact(phone_mappings)
            },
            kind: MessageKind::Text,
            body: self.body.clone(),
            attachments,
            timestamp: self.timestamp(),
            is_outbound,
            metadata: self.metadata(),
        }
    }

    /// The thread that the record shows.
    pub fn to_thread(&self, self_number: &Option<String>, phone_mappings: &StringMap<String>) -> (r:
        Thread)
        ensures
            r@ == self@.thread_of(view_opt(*self_number), phone_mappings.texts()),
    {
        let ghost expected = self@.thread_of(view_opt(*self_number), phone_mappings.texts());
        let key = self.thread_key(self_number, phone_mappings);
        let mut participants: Vec<Contact> = Vec::new();
        let contact = self.contact(phone_mappings);
        let ghost other = contact@;
        participants.push(contact);
        if self_number.is_some() {
            let me = self_contact(self_number);
            let ghost mine = me@;
            participants.push(me);
            assert(views(participants@) =~= seq![other, mine]);
        } else {
            assert(views(participants@) =~= seq![other]);
        }
        let mut members: Vec<(String, Json)> = Vec::new();
        members.push(member("address", json_text(self.address.as_str())));
        members.push(member("threadid", copy_value(&self.threadid)));
        assert(member_views(members@) =~= expected.metadata->Object_0);
        Thread {
            id: thread_uuid(key.as_str()),
            source: "sms".to_owned(),
            source_id: key,
            provider_instance: None,
            title: Some(self.address.clone()),
            participants: dedupe_contacts(participants),
            last_message_at: self.timestamp(),
            unread_count: self.unread_count(),
            metadata: json_object(members),
        }
    }

    /// Whether a thread identifier means the record's thread.
    pub fn matches_thread(
        &self,
        thread_id: &str,
        self_number: &Option<String>,
        phone_mappings: &StringMap<String>,
    ) -> (r: bool)
        ensures
            r == self@.in_thread(thread_id@, view_opt(*self_number), phone_mappings.texts()),
    {
        let address = map_phone(self.address.as_str(), phone_mappings);
        let key = self.thread_key(self_number, phone_mappings);
        if str_eq(address.as_str(), map_phone(thread_id, phone_mappings).as_str()) || str_eq(
            key.as_str(),
            thread_id,
        ) || str_eq(thread_uuid(key.as_str()).text().as_str(), thread_id) {
            return true;
        }
        match &self.threadid {
            Some(id) => str_eq(value_to_string(id).as_str(), thread_id),
            None => false,
        }
    }
}

/// Two counts of unread messages together.
pub open spec fn merged_unread(left: Option<u32>, right: Option<u32>) -> Option<u32> {
    match (left, right) {
        (Some(left), Some(right)) => Some((left + right) as u32),
        (Some(value), None) => Some(value),
        (None, Some(value)) => Some(value),
        (None, None) => None,
    }
}

/// A count, zero where there is none.
pub open spec fn count(unread: Option<u32>) -> int {
    match unread {
        Some(n) => n as int,
        None => 0,
    }
}

/// Two counts of unread messages together.
pub fn merge_unread(left: Option<u32>, right: Option<u32>) -> (r: Option<u32>)
    requires
        count(left) + count(right) <= u32::MAX,
    ensures
        r == merged_unread(left, right),
{
    match (left, right) {
        (Some(left), Some(right)) => Some(left + right),
        (Some(value), None) => Some(value),
        (None, Some(value)) => Some(value),
        (None, None) => None,
    }
}

/// A thread with what one more record of it shows: the later time, all participants, and the
/// unread messages of both.
pub open spec fn joined_thread(existing: ThreadView, thread: ThreadView) -> ThreadView {
    ThreadView {
        last_message_at: if existing.last_message_at.earlier(thread.last_message_at) {
            thread.last_message_at
        } else {
            existing.last_message_at
        },
        participants: unique_contacts(existing.participants + thread.participants),
        unread_count: merged_unread(existing.unread_count, thread.unread_count),
        ..existing
    }
}

/// The threads that some records show, in the order of their keys.
pub open spec fn threads_by_key(
    records: Seq<SmsRecordView>,
    self_number: Option<Seq<char>>,
    mappings: Seq<(Seq<char>, Seq<char>)>,
) -> Seq<(Seq<char>, ThreadView)>
    decreases records.len(),
{
    if records.len() == 0 {
        seq![]
    } else {
        with_thread(
            threads_by_key(records.drop_last(), self_number, mappings),
            records.last().key(self_number, mappings),
            records.last().thread_of(self_number, mappings),
            |existing: ThreadView, thread: ThreadView| joined_thread(existing, thread),
        )
    }
}

/// The messages of a thread before the cursor, in the order of the records.
pub open spec fn thread_messages(
    records: Seq<SmsRecordView>,
    thread_id: Seq<char>,
    before: Option<Timestamp>,
    self_number: Option<Seq<char>>,
    mappings: Seq<(Seq<char>, Seq<char>)>,
) -> Seq<MessageView>
    decreases records.len(),
{
    if records.len() == 0 {
        seq![]
    } else {
        let front = thread_messages(records.drop_last(), thread_id, before, self_number, mappings);
        let record = records.last();
        if record.in_thread(thread_id, self_number, mappings) && (before matches Some(cursor)
            ==> record_time(record.date).earlier(cursor)) {
            front.push(record.message_of(self_number, mappings))
        } else {
            front
        }
    }
}

/// The first record in a thread.
pub open spec fn first_in_thread(
    records: Seq<SmsRecordView>,
    thread_id: Seq<char>,
    self_number: Option<Seq<char>>,
    mappings: Seq<(Seq<char>, Seq<char>)>,
) -> Option<SmsRecordView>
    decreases records.len(),
{
    if records.len() == 0 {
        None
    } else if records[0].in_thread(thread_id, self_number, mappings) {
        Some(records[0])
    } else {
        first_in_thread(records.drop_first(), thread_id, self_number, mappings)
    }
}

/// The number that a thread identifier stands for.
pub open spec fn phone_of(
    thread_id: Seq<char>,
    records: Seq<SmsRecordView>,
    self_number: Option<Seq<char>>,
    mappings: Seq<(Seq<char>, Seq<char>)>,
) -> Result<Seq<char>, IrisErrorView> {
    match first_in_thread(records, thread_id, self_number, mappings) {
        Some(record) => Ok(mapped_phone(record.address, mappings)),
        None => if phone_like(thread_id) {
            Ok(mapped_phone(thread_id, mappings))
        } else {
            Err(IrisErrorView::NotFound("sms thread not found: "@ + thread_id))
        },
    }
}

fn join_thread(existing: Thread, thread: Thread) -> (r: Thread)
    requires
        count(existing.unread_count) + count(thread.unread_count) <= u32::MAX,
    ensures
        r@ == joined_thread(existing@, thread@),
{
    let mut out = existing;
    if out.last_message_at.is_earlier(&thread.last_message_at) {
        out.last_message_at = thread.last_message_at;
    }
    out.unread_count = merge_unread(out.unread_count, thread.unread_count);
    let ghost known = out.participants@;
    let ghost more = thread.participants@;
    let mut participants = out.participants;
    let mut other = thread.participants;
    participants.append(&mut other);
    assert(views(participants@) =~= views(known) + views(more));
    out.participants = dedupe_contacts(participants);
    out
}

/// The number that a thread identifier stands for: that of the first message in the thread, or
/// the identifier itself where it looks like a number.
pub fn resolve_phone(
    thread_id: &str,
    records: &Vec<TermuxSmsRecord>,
    self_number: &Option<String>,
    phone_mappings: &StringMap<String>,
) -> (r: Result<String, IrisError>)
    ensures
        view_result(r) == phone_of(
            thread_id@,
            views(records@),
            view_opt(*self_number),
            phone_mappings.texts(),
        ),
{
    let ghost all = views(records@);
    let ghost number = view_opt(*self_number);
    let mut i: usize = 0;
    assert(all.skip(0) =~= all);
    while i < records.len()
        invariant
            i <= records@.len(),
            all == views(records@),
            number == view_opt(*self_number),
            first_in_thread(all, thread_id@, number, phone_mappings.texts()) == first_in_thread(
                all.skip(i as int),
                thread_id@,
                number,
                phone_mappings.texts(),
            ),
        decreases records@.len() - i,
    {
        assert(all.skip(i as int)[0] == records@[i as int]@);
        if records[i].matches_thread(thread_id, self_number, phone_mappings) {
            return Ok(map_phone(records[i].address.as_str(), phone_mappings));
        }
        assert(all.skip(i as int).drop_first() =~= all.skip(i + 1));
        i += 1;
    }
    if looks_like_phone(thread_id) {
        return Ok(map_phone(thread_id, phone_mappings));
    }
    Err(IrisError::NotFound(prefixed("sms thread not found: ", thread_id)))
}

/// The message that a text sent to a number is.
pub open spec fn sent_message(
    phone: Seq<char>,
    body: Seq<char>,
    self_number: Option<Seq<char>>,
    now: Timestamp,
) -> MessageView {
    let source_id = "outbound:"@ + decimal(now.millis());
    MessageView {
        id: message_id_of(phone, source_id),
        thread_id: thread_id_of(phone_thread(self_number, phone)),
        source: "sms"@,
        source_id,
        sender: owner(self_number),
        kind: MessageKind::Text,
        body,
        attachments: Seq::<AttachmentView>::empty(),
        timestamp: now,
        is_outbound: true,
        metadata: JsonView::Object(
            seq![
                ("address"@, JsonView::Text(phone)),
                ("delivery"@, JsonView::Text("submitted"@)),
            ],
        ),
    }
}

/// The audit metadata of a sent message.
pub open spec fn send_view(message_id: Seq<char>) -> JsonView {
    JsonView::Object(
        seq![
            ("message_id"@, JsonView::Text(message_id)),
            ("operation"@, JsonView::Text("send_message"@)),
        ],
    )
}

/// The audit metadata of a sent message: which it was, and nothing of what it says.
pub fn send_metadata(message_id: &str) -> (r: Json)
    ensures
        r@ == send_view(message_id@),
{
    let mut members: Vec<(String, Json)> = Vec::new();
    members.push(member("message_id", json_text(message_id)));
    members.push(member("operation", json_text("send_message")));
    assert(member_views(members@) =~= send_view(message_id@)->Object_0);
    json_object(members)
}

impl SmsProvider {
    /// The threads that some records show: those with the latest messages first.
    pub fn list_threads(&self, records: &Vec<TermuxSmsRecord>, limit: Option<u32>) -> (r: Vec<Thread>)
        requires
            records@.len() <= u32::MAX,
        ensures
            views(r@) == first_items(
                sorted_by(
                    without_keys(
                        threads_by_key(
                            views(records@),
                            view_opt(self.self_number),
                            self.phone_mappings.texts(),
                        ),
                    ),
                    newer(),
                ),
                allowed(limit),
            ),
            forall|i: int, j: int|
                0 <= i < j < r@.len() ==> (#[trigger] views(r@)[i]).last_message_at.ticks() >= (
                #[trigger] views(r@)[j]).last_message_at.ticks(),
            forall|i: int|
                0 <= i < r@.len() ==> some_thread_told(
                    views(records@),
                    view_opt(self.self_number),
                    self.phone_mappings.texts(),
                    #[trigger] views(r@)[i],
                ),
    {
        proof {
            law_listed_threads_come_by_their_latest_record(
                views(records@),
                view_opt(self.self_number),
                self.phone_mappings.texts(),
                limit,
            );
        }
        let ghost all = views(records@);
        let ghost number = view_opt(self.self_number);
        let ghost mappings = self.phone_mappings.texts();
        let ghost join = |existing: ThreadView, thread: ThreadView| joined_thread(existing, thread);
        let mut known: Vec<(String, Thread)> = Vec::new();
        let mut i: usize = 0;
        assert(all.take(0) =~= seq![]);
        assert(thread_views(known@) =~= seq![]);
        while i < records.len()
            invariant
                i <= records@.len(),
                records@.len() <= u32::MAX,
                all == views(records@),
                number == view_opt(self.self_number),
                mappings == self.phone_mappings.texts(),
                join == (|existing: ThreadView, thread: ThreadView| joined_thread(existing, thread)),
                thread_views(known@) == threads_by_key(all.take(i as int), number, mappings),
                forall|k: int|
                    0 <= k < thread_views(known@).len() ==> count(
                        (#[trigger] thread_views(known@)[k]).1.unread_count,
                    ) <= i,
            decreases records@.len() - i,
        {
            proof {
                let next = all.take(i + 1);
                assert(next.drop_last() =~= all.take(i as int));
                assert(next.last() == records@[i as int]@);
            }
            let ghost before = thread_views(known@);
            let key = records[i].thread_key(&self.self_number, &self.phone_mappings);
            let thread = records[i].to_thread(&self.self_number, &self.phone_mappings);
            let ghost seen = thread@;
            let (at, existing) = take_thread(&mut known, key.as_str());
            let ghost left = thread_views(known@);
            proof {
                assert(count(seen.unread_count) <= 1);
                if existing is Some {
                    assert(count(before[at as int].1.unread_count) <= i);
                }
                assert forall|k: int| 0 <= k < left.len() implies count(
                    (#[trigger] left[k]).1.unread_count,
                ) <= i by {
                    if existing is Some {
                        if k < at {
                            assert(left[k] == before[k]);
                        } else {
                            assert(left[k] == before[k + 1]);
                        }
                    }
                }
            }
            let thread = match existing {
                Some(existing) => join_thread(existing, thread),
                None => thread,
            };
            let ghost added = thread@;
            put_thread(&mut known, at, key, thread);
            proof {
                assert(thread_views(known@) =~= with_thread(before, key@, seen, join));
                assert forall|k: int| 0 <= k < thread_views(known@).len() implies count(
                    (#[trigger] thread_views(known@)[k]).1.unread_count,
                ) <= i + 1 by {
                    let after = thread_views(known@);
                    if k < at {
                        assert(after[k] == left[k]);
                    } else if k > at {
                        assert(after[k] == left[k - 1]);
                    }
                }
            }
            i += 1;
        }
        assert(all.take(all.len() as int) =~= all);
        list_known(known, limit)
    }

    /// The latest messages of a thread before the cursor, as many as the limit allows: the earliest
    /// first.
    pub fn list_messages(
        &self,
        records: &Vec<TermuxSmsRecord>,
        thread_id: &str,
        before: Option<Timestamp>,
        limit: Option<u32>,
    ) -> (r: Vec<Message>)
        ensures
            views(r@) == sorted_by(
                first_items(
                    sorted_by(
                        thread_messages(
                            views(records@),
                            thread_id@,
                            before,
                            view_opt(self.self_number),
                            self.phone_mappings.texts(),
                        ),
                        later(),
                    ),
                    allowed(limit),
                ),
                older(),
            ),
            forall|i: int, j: int|
                0 <= i < j < r@.len() ==> (#[trigger] views(r@)[i]).timestamp.ticks() <= (
                #[trigger] views(r@)[j]).timestamp.ticks(),
            limit matches Some(n) ==> r@.len() <= n,
    {
        proof {
            law_the_latest_messages_are_shown_in_order(
                thread_messages(
                    views(records@),
                    thread_id@,
                    before,
                    view_opt(self.self_number),
                    self.phone_mappings.texts(),
                ),
                limit,
            );
        }
        let ghost all = views(records@);
        let ghost number = view_opt(self.self_number);
        let ghost mappings = self.phone_mappings.texts();
        let mut out: Vec<Message> = Vec::new();
        let mut i: usize = 0;
        assert(all.take(0) =~= seq![]);
        assert(views(out@) =~= seq![]);
        while i < records.len()
            invariant
                i <= records@.len(),
                all == views(records@),
                number == view_opt(self.self_number),
                mappings == self.phone_mappings.texts(),
                views(out@) == thread_messages(
                    all.take(i as int),
                    thread_id@,
                    before,
                    number,
                    mappings,
                ),
            decreases records@.len() - i,
        {
            let ghost known = out@;
            proof {
                let next = all.take(i + 1);
                assert(next.drop_last() =~= all.take(i as int));
                assert(next.last() == records@[i as int]@);
            }
            let record = &records[i];
            let wanted = match &before {
                Some(cursor) => record.timestamp().is_earlier(cursor),
                None => true,
            };
            if wanted && record.matches_thread(thread_id, &self.self_number, &self.phone_mappings) {
                let message = record.to_message(&self.self_number, &self.phone_mappings);
                let ghost added = message@;
                out.push(message);
                assert(views(out@) =~= views(known).push(added));
            }
            i += 1;
        }
        assert(all.take(all.len() as int) =~= all);
        let latest = sort_latest_first(out);
        proof {
            lemma_first_views(latest@, allowed(limit));
        }
        sort_oldest_first(keep_first(latest, limit))
    }

    /// The contacts of some records, each once, in the order of their numbers.
    pub fn list_contacts(&self, records: &Vec<TermuxSmsRecord>, limit: Option<u32>) -> (r: Vec<
        Contact,
    >)
        ensures
            views(r@) == first_items(
                sorted_by(
                    unique_contacts(
                        views(records@).map_values(
                            |record: SmsRecordView|
                                record.contact_of(self.phone_mappings.texts()),
                        ),
                    ),
                    by_source_id(),
                ),
                allowed(limit),
            ),
    {
        let mut contacts: Vec<Contact> = Vec::new();
        let mut i: usize = 0;
        while i < records.len()
            invariant
                i <= records@.len(),
                contacts@.len() == i,
                forall|j: int|
                    0 <= j < i ==> (#[trigger] contacts@[j])@ == records@[j]@.contact_of(
                        self.phone_mappings.texts(),
                    ),
            decreases records@.len() - i,
        {
            contacts.push(records[i].contact(&self.phone_mappings));
            i += 1;
        }
        assert(views(contacts@) =~= views(records@).map_values(
            |record: SmsRecordView| record.contact_of(self.phone_mappings.texts()),
        ));
        let sorted = sort_by_source_id(dedupe_contacts(contacts));
        proof {
            lemma_first_views(sorted@, allowed(limit));
        }
        keep_first(sorted, limit)
    }

    /// The number that a message goes to. SMS carries no attachments.
    pub fn send_target(
        &self,
        thread_id: &str,
        message: &OutboundMessage,
        records: &Vec<TermuxSmsRecord>,
    ) -> (r: Result<String, IrisError>)
        ensures
            view_result(r) == (match gate(message.attachments@.len(), "sms"@, false) {
                Err(error) => Err(error),
                Ok(()) => phone_of(
                    thread_id@,
                    views(records@),
                    view_opt(self.self_number),
                    self.phone_mappings.texts(),
                ),
            }),
    {
        match enforce_capability(message, "sms", false) {
            Err(error) => Err(error),
            Ok(()) => resolve_phone(thread_id, records, &self.self_number, &self.phone_mappings),
        }
    }

    /// The message that a text sent to a number is.
    pub fn sent(&self, phone: &str, body: &str, now: Timestamp) -> (r: Message)
        ensures
            r@ == sent_message(phone@, body@, view_opt(self.self_number), now),
    {
        let source_id = prefixed("outbound:", signed_text(now.timestamp_millis()).as_str());
        let mut members: Vec<(String, Json)> = Vec::new();
        members.push(member("address", json_text(phone)));
        members.push(member("delivery", json_text("submitted")));
        assert(member_views(members@) =~= sent_message(
            phone@,
            body@,
            view_opt(self.self_number),
            now,
        ).metadata->Object_0);
        let attachments: Vec<Attachment> = Vec::new();
        assert(views(attachments@) =~= Seq::<AttachmentView>::empty());
        Message {
            id: message_uuid(phone, source_id.as_str()),
            thread_id: thread_uuid(thread_key(&self.self_number, phone).as_str()),
            source: "sms".to_owned(),
            source_id,
            sender: self_contact(&self.self_number),
            kind: MessageKind::Text,
            body: body.to_owned(),
            attachments,
            timestamp: now,
            is_outbound: true,
            metadata: json_object(members),
        }
    }
}

/// The UUID that the things of SMS have under a name.
pub open spec fn sms_uuid(name: Seq<char>) -> Uuid {
    Uuid {
        value: uuid_v5(
            0x6e6c_4e12_1a7d_4a3c_8b53_8914_42f3_0003,
            vstd::utf8::encode_utf8(name),
        ),
    }
}

/// Where the calendar holds a point it is that point, and otherwise the epoch.
pub open spec fn is_point(at: Timestamp, secs: int, nanos: int) -> bool {
    if MIN_SECS <= secs <= MAX_SECS {
        at.secs() == secs && at.nanos() == nanos
    } else {
        at.secs() == 0 && at.nanos() == 0
    }
}

/// A date is a number of seconds, or of milliseconds where it is beyond ten thousand million; a
/// number may stand as text. What is no number counts as the epoch.
pub proof fn law_dates_are_seconds_or_milliseconds(n: i64, text: Seq<char>)
    ensures
        ({
            let number = if n >= 0 {
                JsonNumberView::Unsigned(n as u64)
            } else {
                JsonNumberView::Negative(n)
            };
            let at = record_time(Some(JsonView::Number(number)));
            &&& n <= 10_000_000_000 ==> is_point(at, n as int, 0)
            &&& n > 10_000_000_000 ==> is_point(at, n / 1000, (n % 1000) * 1_000_000)
            &&& record_time(Some(JsonView::Text(decimal(n as int)))) == at
        }),
        parsed_signed(text) is Err ==> is_point(record_time(Some(JsonView::Text(text))), 0, 0),
        is_point(record_time(None), 0, 0),
        is_point(record_time(Some(JsonView::Null)), 0, 0),
{
    law_decimals_read_back(n);
    law_a_point_is_made_of_its_parts(0, 0);
    law_a_point_is_made_of_its_parts(n, 0);
    law_a_point_is_made_of_its_parts((n / 1000) as i64, ((n % 1000) * 1_000_000) as u32);
}

/// A record is known by its own ID, or else by that of its conversation, or else by its number and
/// the time in milliseconds.
pub proof fn law_records_are_known_by_their_id(record: SmsRecordView)
    ensures
        record.id matches Some(id) ==> record.source() == value_text(id),
        record.id is None ==> (record.threadid matches Some(id) ==> record.source() == value_text(
            id,
        )),
        record.id is None && record.threadid is None ==> ({
            let at = record_time(record.date);
            record.source() == normal_phone(record.address) + ":"@ + decimal(
                at.secs() * 1000 + at.nanos() / 1_000_000,
            )
        }),
{
}

/// A text value stands for itself, a number for its decimal digits.
pub proof fn law_values_are_told_as_text(text: Seq<char>, n: u64)
    ensures
        value_text(JsonView::Text(text)) == text,
        value_text(JsonView::Number(JsonNumberView::Unsigned(n))) == decimal(n as int),
{
    lemma_digits_are_digits(n as nat);
}

/// A record went out where its type, in capitals or not, is `sent`, `2`, `outbox` or `queued`.
pub proof fn law_sent_records_are_outbound(record: SmsRecordView)
    ensures
        record.outbound() <==> (record.message_type matches Some(value) && {
            let kind = lowered_ascii(value_text(value));
            kind == "sent"@ || kind == "2"@ || kind == "outbox"@ || kind == "queued"@
        }),
        record.message_type is None ==> !record.outbound(),
{
}

/// Whether the mark of a record says that it is unread: `false`, the number zero, or either as
/// text.
pub open spec fn marked_unread(record: SmsRecordView) -> bool {
    ||| record.read == Some(JsonView::Bool(false))
    ||| record.read == Some(JsonView::Number(JsonNumberView::Unsigned(0)))
    ||| record.read matches Some(JsonView::Text(text)) && (text == "0"@ || lowered_ascii(text)
        == "false"@)
}

/// An unread record counts as one, any other not at all.
pub proof fn law_unread_records_count_as_one(record: SmsRecordView)
    ensures
        marked_unread(record) ==> record.unread() == Some(1u32),
        !marked_unread(record) ==> record.unread() is None,
{
}

/// The name of the conversation with a number.
pub open spec fn conversation(
    record: SmsRecordView,
    self_number: Option<Seq<char>>,
    mappings: Seq<(Seq<char>, Seq<char>)>,
) -> Seq<char> {
    match self_number {
        Some(number) => normal_phone(number) + ":"@ + mapped_phone(record.address, mappings),
        None => mapped_phone(record.address, mappings),
    }
}

/// The other side of a record is known by its number, mapped where a mapping is given, and shown as
/// the record gives it; the owner is known by their own number.
pub proof fn law_contacts_are_known_by_their_number(
    record: SmsRecordView,
    mappings: Seq<(Seq<char>, Seq<char>)>,
    self_number: Option<Seq<char>>,
)
    ensures
        ({
            let contact = record.contact_of(mappings);
            let address = mapped_phone(record.address, mappings);
            &&& contact.id == sms_uuid("contact:"@ + address)
            &&& contact.source == "sms"@
            &&& contact.source_id == address
            &&& contact.display_name == Some(record.address)
            &&& contact.provider_instance is None
            &&& contact.avatar_url is None
        }),
        ({
            let me = owner(self_number);
            &&& self_number matches Some(number) ==> me.source_id == normal_phone(number)
            &&& self_number is None ==> me.source_id == "self"@
            &&& me.id == sms_uuid("contact:"@ + me.source_id)
            &&& me.source == "sms"@
            &&& me.display_name == Some("Me"@)
        }),
{
}

/// A normalized message says what the record says: what went out comes from the owner, anything
/// else from the other side.
pub proof fn law_a_message_says_what_the_record_says(
    record: SmsRecordView,
    self_number: Option<Seq<char>>,
    mappings: Seq<(Seq<char>, Seq<char>)>,
)
    ensures
        ({
            let m = record.message_of(self_number, mappings);
            &&& m.id == sms_uuid(
                "message:"@ + mapped_phone(record.address, mappings) + ":"@ + record.source(),
            )
            &&& m.thread_id == sms_uuid("thread:"@ + conversation(record, self_number, mappings))
            &&& m.source == "sms"@
            &&& m.source_id == record.source()
            &&& record.outbound() ==> m.sender == owner(self_number)
            &&& !record.outbound() ==> m.sender == record.contact_of(mappings)
            &&& m.is_outbound == record.outbound()
            &&& m.kind == MessageKind::Text
            &&& m.body == record.body
            &&& m.attachments.len() == 0
            &&& m.timestamp == record_time(record.date)
        }),
{
}

/// The metadata of a message tells the number, the read mark, the conversation and the type of the
/// record, and whatever the record holds besides, which wins.
pub proof fn law_metadata_keeps_what_the_record_holds(record: SmsRecordView, key: Seq<char>)
    ensures
        record.metadata_of() is Object,
        ({
            let members = record.metadata_of()->Object_0;
            &&& last_under(record.extra, key) is Some ==> find(members, key) == last_under(
                record.extra,
                key,
            )
            &&& last_under(record.extra, key) is None ==> {
                &&& key == "address"@ ==> find(members, key) == Some(JsonView::Text(record.address))
                &&& key == "read"@ ==> find(members, key) == Some(
                    match record.read {
                        Some(value) => value,
                        None => JsonView::Null,
                    },
                )
                &&& key == "threadid"@ ==> find(members, key) == Some(
                    match record.threadid {
                        Some(value) => value,
                        None => JsonView::Null,
                    },
                )
                &&& key == "type"@ ==> find(members, key) == Some(
                    match record.message_type {
                        Some(value) => value,
                        None => JsonView::Null,
                    },
                )
            }
        }),
{
    reveal_strlit("address");
    reveal_strlit("read");
    reveal_strlit("threadid");
    reveal_strlit("type");
    assert("address"@.len() == 7 && "read"@.len() == 4 && "threadid"@.len() == 8);
    assert("type"@.len() == 4 && "read"@[0] == 'r' && "type"@[0] == 't' && "address"@[0] == 'a'
        && "threadid"@[0] == 't' && "threadid"@[1] == 'h' && "type"@[1] == 'y');
    let base = seq![
        ("address"@, JsonView::Text(record.address)),
        ("read"@, or_null(record.read)),
        ("threadid"@, or_null(record.threadid)),
        ("type"@, or_null(record.message_type)),
    ];
    assert forall|i: int, j: int| 0 <= i < j < base.len() implies text_before(
        (#[trigger] base[i]).0,
        (#[trigger] base[j]).0,
    ) by {
        reveal_with_fuel(text_before, 3);
        let a = base[i].0;
        let b = base[j].0;
        if i == 2 {
            assert(a.drop_first()[0] == 'h' && b.drop_first()[0] == 'y');
        }
    }
    lemma_find_at(base, 0);
    lemma_find_at(base, 1);
    lemma_find_at(base, 2);
    lemma_find_at(base, 3);
    lemma_overlaid(base, record.extra, key);
}

proof fn lemma_overlaid(
    members: Seq<(Seq<char>, JsonView)>,
    others: Seq<(Seq<char>, JsonView)>,
    key: Seq<char>,
)
    requires
        ordered(members),
    ensures
        ordered(overlaid(members, others)),
        find(overlaid(members, others), key) == (match last_under(others, key) {
            Some(value) => Some(value),
            None => find(members, key),
        }),
    decreases others.len(),
{
    if others.len() > 0 {
        let front = others.drop_last();
        lemma_overlaid(members, front, key);
        lemma_put(overlaid(members, front), others.last().0, others.last().1);
    }
}

/// A record belongs to a thread that is given by the number of the other side, by the name of the
/// conversation, by the UUID of the thread, or by the ID that the device gives the conversation.
pub proof fn law_threads_are_given_in_four_ways(
    record: SmsRecordView,
    thread_id: Seq<char>,
    self_number: Option<Seq<char>>,
    mappings: Seq<(Seq<char>, Seq<char>)>,
)
    ensures
        record.in_thread(thread_id, self_number, mappings) <==> {
            let name = conversation(record, self_number, mappings);
            ||| mapped_phone(record.address, mappings) == mapped_phone(thread_id, mappings)
            ||| name == thread_id
            ||| uuid_text(sms_uuid("thread:"@ + name).value) == thread_id
            ||| record.threadid matches Some(id) && value_text(id) == thread_id
        },
        record.key(self_number, mappings) == conversation(record, self_number, mappings),
{
}

/// Whether a record is of a conversation.
pub open spec fn of_conversation(
    record: SmsRecordView,
    key: Seq<char>,
    self_number: Option<Seq<char>>,
    mappings: Seq<(Seq<char>, Seq<char>)>,
) -> bool {
    conversation(record, self_number, mappings) == key
}

/// How many of some records are unread ones of a conversation.
pub open spec fn unread_among(
    records: Seq<SmsRecordView>,
    key: Seq<char>,
    self_number: Option<Seq<char>>,
    mappings: Seq<(Seq<char>, Seq<char>)>,
) -> nat {
    records.filter(
        |record: SmsRecordView|
            of_conversation(record, key, self_number, mappings) && marked_unread(record),
    ).len()
}

/// Whether a thread is what some records tell of a conversation: it is named after the
/// conversation, titled after the number of its first record, and as late as its latest.
#[verifier::opaque]
pub open spec fn thread_told(
    records: Seq<SmsRecordView>,
    key: Seq<char>,
    self_number: Option<Seq<char>>,
    mappings: Seq<(Seq<char>, Seq<char>)>,
    thread: ThreadView,
) -> bool {
    &&& thread.id == sms_uuid("thread:"@ + key)
    &&& thread.source == "sms"@
    &&& thread.source_id == key
    &&& thread.provider_instance is None
    &&& forall|j: int|
        0 <= j < records.len() && of_conversation(
            #[trigger] records[j],
            key,
            self_number,
            mappings,
        ) ==> record_time(records[j].date).ticks() <= thread.last_message_at.ticks()
    &&& exists|j: int|
        0 <= j < records.len() && of_conversation(
            #[trigger] records[j],
            key,
            self_number,
            mappings,
        ) && thread.last_message_at == record_time(records[j].date)
    &&& exists|j: int|
        0 <= j < records.len() && of_conversation(
            #[trigger] records[j],
            key,
            self_number,
            mappings,
        ) && thread.title == Some(records[j].address) && forall|k: int|
            0 <= k < j ==> !of_conversation(#[trigger] records[k], key, self_number, mappings)
}

proof fn lemma_first_told(
    records: Seq<SmsRecordView>,
    key: Seq<char>,
    self_number: Option<Seq<char>>,
    mappings: Seq<(Seq<char>, Seq<char>)>,
)
    requires
        records.len() > 0,
        of_conversation(records.last(), key, self_number, mappings),
        forall|j: int|
            0 <= j < records.len() - 1 ==> !of_conversation(
                #[trigger] records[j],
                key,
                self_number,
                mappings,
            ),
    ensures
        thread_told(
            records,
            key,
            self_number,
            mappings,
            records.last().thread_of(self_number, mappings),
        ),
{
    reveal(thread_told);
    let n = records.len() - 1;
    assert(of_conversation(records[n], key, self_number, mappings));
}

proof fn lemma_next_told(
    records: Seq<SmsRecordView>,
    key: Seq<char>,
    self_number: Option<Seq<char>>,
    mappings: Seq<(Seq<char>, Seq<char>)>,
    known: ThreadView,
)
    requires
        records.len() > 0,
        of_conversation(records.last(), key, self_number, mappings),
        thread_told(records.drop_last(), key, self_number, mappings, known),
    ensures
        thread_told(
            records,
            key,
            self_number,
            mappings,
            joined_thread(known, records.last().thread_of(self_number, mappings)),
        ),
{
    reveal(thread_told);
    let front = records.drop_last();
    let n = records.len() - 1;
    let seen = records.last().thread_of(self_number, mappings);
    let joined = joined_thread(known, seen);
    law_earlier_points_come_first(known.last_message_at, seen.last_message_at);
    assert(of_conversation(records[n], key, self_number, mappings));
    assert forall|j: int|
        0 <= j < records.len() && of_conversation(
            #[trigger] records[j],
            key,
            self_number,
            mappings,
        ) implies record_time(records[j].date).ticks() <= joined.last_message_at.ticks() by {
        if j < n {
            assert(front[j] == records[j]);
        }
    }
    let latest = choose|j: int|
        0 <= j < front.len() && of_conversation(#[trigger] front[j], key, self_number, mappings)
            && known.last_message_at == record_time(front[j].date);
    assert(records[latest] == front[latest]);
    let first = choose|j: int|
        0 <= j < front.len() && of_conversation(#[trigger] front[j], key, self_number, mappings)
            && known.title == Some(front[j].address) && forall|k: int|
            0 <= k < j ==> !of_conversation(#[trigger] front[k], key, self_number, mappings);
    assert(records[first] == front[first]);
    assert forall|k: int| 0 <= k < first implies !of_conversation(
        #[trigger] records[k],
        key,
        self_number,
        mappings,
    ) by {
        assert(front[k] == records[k]);
    }
}

proof fn lemma_other_told(
    records: Seq<SmsRecordView>,
    key: Seq<char>,
    self_number: Option<Seq<char>>,
    mappings: Seq<(Seq<char>, Seq<char>)>,
    thread: ThreadView,
)
    requires
        records.len() > 0,
        !of_conversation(records.last(), key, self_number, mappings),
        thread_told(records.drop_last(), key, self_number, mappings, thread),
    ensures
        thread_told(records, key, self_number, mappings, thread),
{
    reveal(thread_told);
    let front = records.drop_last();
    let n = records.len() - 1;
    assert(!of_conversation(records[n], key, self_number, mappings));
    assert forall|j: int|
        0 <= j < records.len() && of_conversation(
            #[trigger] records[j],
            key,
            self_number,
            mappings,
        ) implies record_time(records[j].date).ticks() <= thread.last_message_at.ticks() by {
        assert(front[j] == records[j]);
    }
    let latest = choose|j: int|
        0 <= j < front.len() && of_conversation(#[trigger] front[j], key, self_number, mappings)
            && thread.last_message_at == record_time(front[j].date);
    assert(records[latest] == front[latest]);
    let first = choose|j: int|
        0 <= j < front.len() && of_conversation(#[trigger] front[j], key, self_number, mappings)
            && thread.title == Some(front[j].address) && forall|k: int|
            0 <= k < j ==> !of_conversation(#[trigger] front[k], key, self_number, mappings);
    assert(records[first] == front[first]);
    assert forall|k: int| 0 <= k < first implies !of_conversation(
        #[trigger] records[k],
        key,
        self_number,
        mappings,
    ) by {
        assert(front[k] == records[k]);
    }
}

/// The threads that records tell of are one for each conversation among them, each as late as the
/// latest record of the conversation and with as many unread messages as there are among them.
pub proof fn law_a_thread_is_as_late_as_its_latest_record(
    records: Seq<SmsRecordView>,
    key: Seq<char>,
    self_number: Option<Seq<char>>,
    mappings: Seq<(Seq<char>, Seq<char>)>,
)
    requires
        records.len() <= u32::MAX,
    ensures
        ordered(threads_by_key(records, self_number, mappings)),
        find(threads_by_key(records, self_number, mappings), key) matches Some(thread) ==> {
            &&& thread_told(records, key, self_number, mappings, thread)
            &&& thread.unread_count is Some <==> unread_among(records, key, self_number, mappings)
                > 0
            &&& thread.unread_count matches Some(n) ==> n == unread_among(
                records,
                key,
                self_number,
                mappings,
            )
        },
        find(threads_by_key(records, self_number, mappings), key) is None ==> forall|j: int|
            0 <= j < records.len() ==> !of_conversation(
                #[trigger] records[j],
                key,
                self_number,
                mappings,
            ),
        unread_among(records, key, self_number, mappings) <= records.len(),
        find(threads_by_key(records, self_number, mappings), key) is None ==> unread_among(
            records,
            key,
            self_number,
            mappings,
        ) == 0,
    decreases records.len(),
{
    reveal(Seq::filter);
    if records.len() > 0 {
        let front = records.drop_last();
        let record = records.last();
        let known = threads_by_key(front, self_number, mappings);
        let seen = record.thread_of(self_number, mappings);
        let join = |existing: ThreadView, thread: ThreadView| joined_thread(existing, thread);
        let name = record.key(self_number, mappings);
        law_a_thread_is_as_late_as_its_latest_record(front, key, self_number, mappings);
        law_a_sighting_changes_its_own_thread(known, name, seen, join);
        assert(threads_by_key(records, self_number, mappings) == with_thread(
            known,
            name,
            seen,
            join,
        ));
        law_unread_records_count_as_one(record);
        assert(name == conversation(record, self_number, mappings));
        if of_conversation(record, key, self_number, mappings) {
            match find(known, key) {
                Some(thread) => lemma_next_told(records, key, self_number, mappings, thread),
                None => {
                    assert forall|j: int| 0 <= j < records.len() - 1 implies !of_conversation(
                        #[trigger] records[j],
                        key,
                        self_number,
                        mappings,
                    ) by {
                        assert(front[j] == records[j]);
                    }
                    lemma_first_told(records, key, self_number, mappings);
                },
            }
        } else {
            match find(known, key) {
                Some(thread) => lemma_other_told(records, key, self_number, mappings, thread),
                None => {
                    assert forall|j: int| 0 <= j < records.len() implies !of_conversation(
                        #[trigger] records[j],
                        key,
                        self_number,
                        mappings,
                    ) by {
                        if j < records.len() - 1 {
                            assert(front[j] == records[j]);
                        }
                    }
                },
            }
        }
    }
}

/// The participants of a thread are the other side and, where their number is known, the owner.
pub proof fn law_participants_are_both_sides(
    record: SmsRecordView,
    self_number: Option<Seq<char>>,
    mappings: Seq<(Seq<char>, Seq<char>)>,
    id: Seq<char>,
)
    ensures
        source_ids(record.thread_of(self_number, mappings).participants).no_duplicates(),
        source_ids(record.thread_of(self_number, mappings).participants).contains(id) <==> {
            ||| id == mapped_phone(record.address, mappings)
            ||| self_number matches Some(number) && id == normal_phone(number)
        },
{
    let other = record.contact_of(mappings);
    let me = owner(self_number);
    let all = if self_number is Some {
        seq![other, me]
    } else {
        seq![other]
    };
    let f = |contact: ContactView| contact.source_id;
    law_one_item_for_each_key(all, source_ids(all), f);
    let kept = unique_contacts(all);
    assert(kept.map_values(f) =~= source_ids(kept));
    let ids = source_ids(all);
    assert(ids[0] == other.source_id);
    if self_number is Some {
        assert(ids[1] == me.source_id);
    }
    if ids.contains(id) {
        let i = choose|i: int| 0 <= i < ids.len() && ids[i] == id;
    }
}

/// The messages of a thread are the records that belong to it and are earlier than the cursor, in
/// the order in which they came.
pub proof fn law_the_messages_of_a_thread_are_the_records_that_belong_to_it(
    records: Seq<SmsRecordView>,
    thread_id: Seq<char>,
    before: Option<Timestamp>,
    self_number: Option<Seq<char>>,
    mappings: Seq<(Seq<char>, Seq<char>)>,
)
    ensures
        thread_messages(records, thread_id, before, self_number, mappings) == records.filter(
            |record: SmsRecordView|
                record.in_thread(thread_id, self_number, mappings) && (before matches Some(cursor)
                    ==> record_time(record.date).ticks() < cursor.ticks()),
        ).map_values(|record: SmsRecordView| record.message_of(self_number, mappings)),
    decreases records.len(),
{
    reveal(Seq::filter);
    let ok = |record: SmsRecordView|
        record.in_thread(thread_id, self_number, mappings) && (before matches Some(cursor)
            ==> record_time(record.date).ticks() < cursor.ticks());
    let f = |record: SmsRecordView| record.message_of(self_number, mappings);
    if records.len() > 0 {
        law_the_messages_of_a_thread_are_the_records_that_belong_to_it(
            records.drop_last(),
            thread_id,
            before,
            self_number,
            mappings,
        );
        if let Some(cursor) = before {
            law_earlier_points_come_first(record_time(records.last().date), cursor);
        }
        if ok(records.last()) {
            assert(records.filter(ok).map_values(f) =~= records.drop_last().filter(ok).map_values(
                f,
            ).push(f(records.last())));
        }
    } else {
        assert(records.filter(ok).map_values(f) =~= seq![]);
    }
}

/// A message goes to the number of the first record in its thread; where there is none, to the
/// thread ID itself if it has at least three digits; otherwise nowhere.
pub proof fn law_messages_go_to_the_number_of_their_thread(
    thread_id: Seq<char>,
    records: Seq<SmsRecordView>,
    self_number: Option<Seq<char>>,
    mappings: Seq<(Seq<char>, Seq<char>)>,
    k: int,
)
    ensures
        0 <= k < records.len() && records[k].in_thread(thread_id, self_number, mappings) && (forall|
            j: int,
        |
            0 <= j < k ==> !(#[trigger] records[j]).in_thread(thread_id, self_number, mappings))
            ==> phone_of(thread_id, records, self_number, mappings) == Ok::<
            Seq<char>,
            IrisErrorView,
        >(mapped_phone(records[k].address, mappings)),
        (forall|j: int|
            0 <= j < records.len() ==> !(#[trigger] records[j]).in_thread(
                thread_id,
                self_number,
                mappings,
            )) ==> phone_of(thread_id, records, self_number, mappings) == (if thread_id.filter(
            |c: char| '0' <= c && c <= '9',
        ).len() >= 3 {
            Ok::<Seq<char>, IrisErrorView>(mapped_phone(thread_id, mappings))
        } else {
            Err::<Seq<char>, IrisErrorView>(
                IrisErrorView::NotFound("sms thread not found: "@ + thread_id),
            )
        }),
{
    law_digits_are_kept_in_order(thread_id);
    lemma_first_in_thread(records, thread_id, self_number, mappings, k);
}

proof fn lemma_first_in_thread(
    records: Seq<SmsRecordView>,
    thread_id: Seq<char>,
    self_number: Option<Seq<char>>,
    mappings: Seq<(Seq<char>, Seq<char>)>,
    k: int,
)
    ensures
        0 <= k < records.len() && records[k].in_thread(thread_id, self_number, mappings) && (forall|
            j: int,
        |
            0 <= j < k ==> !(#[trigger] records[j]).in_thread(thread_id, self_number, mappings))
            ==> first_in_thread(records, thread_id, self_number, mappings) == Some(records[k]),
        (forall|j: int|
            0 <= j < records.len() ==> !(#[trigger] records[j]).in_thread(
                thread_id,
                self_number,
                mappings,
            )) ==> first_in_thread(records, thread_id, self_number, mappings) is None,
    decreases records.len(),
{
    if records.len() > 0 {
        let rest = records.drop_first();
        lemma_first_in_thread(rest, thread_id, self_number, mappings, k - 1);
        assert forall|j: int| 0 <= j < rest.len() implies #[trigger] rest[j] == records[j + 1] by {}
    }
}

/// What was sent is reported as going out from the owner into the conversation with the number, at
/// the time of sending.
pub proof fn law_sent_messages_are_outbound(
    phone: Seq<char>,
    body: Seq<char>,
    self_number: Option<Seq<char>>,
    now: Timestamp,
)
    ensures
        ({
            let m = sent_message(phone, body, self_number, now);
            let millis = decimal(now.secs() * 1000 + now.nanos() / 1_000_000);
            &&& m.source_id == "outbound:"@ + millis
            &&& m.id == sms_uuid("message:"@ + phone + ":"@ + m.source_id)
            &&& self_number matches Some(number) ==> m.thread_id == sms_uuid(
                "thread:"@ + (normal_phone(number) + ":"@ + phone),
            )
            &&& self_number is None ==> m.thread_id == sms_uuid("thread:"@ + phone)
            &&& m.source == "sms"@
            &&& m.sender == owner(self_number)
            &&& m.kind == MessageKind::Text
            &&& m.body == body
            &&& m.attachments.len() == 0
            &&& m.timestamp == now
            &&& m.is_outbound
        }),
{
}

/// The settings need a host, and a command that is not blank, which is `ssh` where none is given;
/// the owner's number may be given under two names.
pub proof fn law_settings_need_a_host(credentials: Seq<(Seq<char>, Seq<char>)>)
    ensures
        ({
            let host = match (find(credentials, "ssh_host"@), find(credentials, "host"@)) {
                (Some(host), _) => Some(host),
                (None, other) => other,
            };
            let number = match (
                find(credentials, "self_number"@),
                find(credentials, "phone_number"@),
            ) {
                (Some(number), _) => Some(number),
                (None, other) => other,
            };
            let command = match find(credentials, "ssh_command"@) {
                Some(command) => command,
                None => "ssh"@,
            };
            &&& settings_from(credentials) is Ok <==> (host matches Some(host) && !blank(host)
                && !blank(command))
            &&& settings_from(credentials) matches Ok(settings) ==> {
                &&& Some(settings.ssh_target) == host
                &&& settings.ssh_command == command
                &&& number matches Some(number) ==> settings.self_number == Some(
                    normal_phone(number),
                )
                &&& number is None ==> settings.self_number is None
            }
            &&& host is None ==> settings_from(credentials) == Err::<SmsSettings, IrisErrorView>(
                IrisErrorView::Config("sms credentials.ssh_host is required"@),
            )
            &&& host matches Some(host) ==> blank(host) ==> settings_from(credentials) == Err::<
                SmsSettings,
                IrisErrorView,
            >(IrisErrorView::Config("sms ssh_host is required"@))
        }),
{
}

/// Every credential under `phone_map.` maps a number to another, both normalized; of two for one
/// number the later stands.
pub proof fn law_phone_maps_are_read_from_the_credentials(
    credentials: Seq<(Seq<char>, Seq<char>)>,
    number: Seq<char>,
)
    ensures
        ordered(phone_map(credentials)),
        find(phone_map(credentials), number) matches Some(phone) ==> exists|i: int|
            0 <= i < credentials.len() && begins(
                (#[trigger] credentials[i]).0,
                "phone_map."@,
            ) && number == normal_phone(credentials[i].0.skip(10)) && phone == normal_phone(
                credentials[i].1,
            ) && forall|j: int|
                i < j < credentials.len() && begins((#[trigger] credentials[j]).0, "phone_map."@)
                    ==> normal_phone(credentials[j].0.skip(10)) != number,
        find(phone_map(credentials), number) is None ==> forall|i: int|
            0 <= i < credentials.len() && begins((#[trigger] credentials[i]).0, "phone_map."@)
                ==> normal_phone(credentials[i].0.skip(10)) != number,
    decreases credentials.len(),
{
    reveal_strlit("phone_map.");
    assert("phone_map."@.len() == 10);
    if credentials.len() > 0 {
        let front = credentials.drop_last();
        let n = credentials.len() - 1;
        let (key, value) = credentials.last();
        law_phone_maps_are_read_from_the_credentials(front, number);
        assert(credentials[n] == credentials.last());
        assert forall|i: int| 0 <= i < n implies #[trigger] front[i] == credentials[i] by {}
        let own = normal_phone(key.skip(10));
        if begins(key, "phone_map."@) {
            lemma_put(phone_map(front), own, normal_phone(value));
        }
        if begins(key, "phone_map."@) && own == number {
        } else {
            if let Some(phone) = find(phone_map(front), number) {
                let i = choose|i: int|
                    0 <= i < front.len() && begins((#[trigger] front[i]).0, "phone_map."@)
                        && number == normal_phone(front[i].0.skip(10)) && phone == normal_phone(
                        front[i].1,
                    ) && forall|j: int|
                        i < j < front.len() && begins((#[trigger] front[j]).0, "phone_map."@)
                            ==> normal_phone(front[j].0.skip(10)) != number;
                assert(credentials[i] == front[i]);
                assert forall|j: int|
                    i < j < credentials.len() && begins(
                        (#[trigger] credentials[j]).0,
                        "phone_map."@,
                    ) implies normal_phone(credentials[j].0.skip(10)) != number by {
                    if j < n {
                        assert(front[j] == credentials[j]);
                    }
                }
            }
            if find(phone_map(front), number) is None {
                assert forall|i: int|
                    0 <= i < credentials.len() && begins(
                        (#[trigger] credentials[i]).0,
                        "phone_map."@,
                    ) implies normal_phone(credentials[i].0.skip(10)) != number by {
                    if i < n {
                        assert(front[i] == credentials[i]);
                    }
                }
            }
        }
    }
}

/// What a command printed counts only if it succeeded; what it complained about is the error.
pub proof fn law_failed_commands_tell_their_complaint(stdout: Seq<u8>, stderr: Seq<u8>)
    ensures
        printed(false, stdout, stderr) == Err::<Seq<char>, IrisErrorView>(
            IrisErrorView::Provider { provider: "sms"@, message: trimmed(lossy_text(stderr)) },
        ),
        valid_utf8(stdout) ==> printed(true, stdout, stderr) == Ok::<Seq<char>, IrisErrorView>(
            decode_utf8(stdout),
        ),
        !valid_utf8(stdout) ==> printed(true, stdout, stderr) == Err::<Seq<char>, IrisErrorView>(
            IrisErrorView::Serialization(utf8_fault(stdout)),
        ),
{
}

/// Whether a thread is what some records tell of a conversation.
pub open spec fn some_thread_told(
    records: Seq<SmsRecordView>,
    self_number: Option<Seq<char>>,
    mappings: Seq<(Seq<char>, Seq<char>)>,
    thread: ThreadView,
) -> bool {
    exists|key: Seq<char>| thread_told(records, key, self_number, mappings, thread)
}

/// A listing of threads shows each conversation as late as its latest record, the latest first, as
/// many as the limit allows; where it allows all, the conversation of every record is there.
pub proof fn law_listed_threads_come_by_their_latest_record(
    records: Seq<SmsRecordView>,
    self_number: Option<Seq<char>>,
    mappings: Seq<(Seq<char>, Seq<char>)>,
    limit: Option<u32>,
)
    requires
        records.len() <= u32::MAX,
    ensures
        ({
            let listed = first_items(
                sorted_by(
                    without_keys(threads_by_key(records, self_number, mappings)),
                    newer(),
                ),
                allowed(limit),
            );
            let all = threads_by_key(records, self_number, mappings).len();
            let n = match limit {
                Some(limit) => limit as int,
                None => 50,
            };
            &&& forall|i: int|
                0 <= i < listed.len() ==> some_thread_told(
                    records,
                    self_number,
                    mappings,
                    #[trigger] listed[i],
                )
            &&& forall|i: int, j: int|
                0 <= i < j < listed.len() ==> (#[trigger] listed[i]).last_message_at.ticks() >= (
                #[trigger] listed[j]).last_message_at.ticks()
            &&& listed.len() == (if all <= n {
                all as int
            } else {
                n
            })
            &&& all <= n ==> forall|j: int|
                0 <= j < records.len() ==> exists|i: int|
                    0 <= i < listed.len() && thread_told(
                        records,
                        conversation(#[trigger] records[j], self_number, mappings),
                        self_number,
                        mappings,
                        #[trigger] listed[i],
                    )
        }),
{
    let entries = threads_by_key(records, self_number, mappings);
    let threads = without_keys(entries);
    let listed = first_items(sorted_by(threads, newer()), allowed(limit));
    law_a_thread_is_as_late_as_its_latest_record(records, seq![], self_number, mappings);
    law_the_latest_threads_are_listed(threads, limit);
    assert forall|i: int| 0 <= i < listed.len() implies some_thread_told(
        records,
        self_number,
        mappings,
        #[trigger] listed[i],
    ) by {
        let k = choose|k: int| 0 <= k < threads.len() && threads[k] == listed[i];
        lemma_find_at(entries, k);
        law_a_thread_is_as_late_as_its_latest_record(
            records,
            entries[k].0,
            self_number,
            mappings,
        );
        assert(thread_told(records, entries[k].0, self_number, mappings, listed[i]));
    }
    if listed.len() == entries.len() {
        assert forall|j: int| 0 <= j < records.len() implies exists|i: int|
            0 <= i < listed.len() && thread_told(
                records,
                conversation(#[trigger] records[j], self_number, mappings),
                self_number,
                mappings,
                #[trigger] listed[i],
            ) by {
            broadcast use vstd::seq_lib::group_to_multiset_ensures;

            let key = conversation(records[j], self_number, mappings);
            law_a_thread_is_as_late_as_its_latest_record(records, key, self_number, mappings);
            assert(of_conversation(records[j], key, self_number, mappings));
            let thread = find(entries, key)->0;
            lemma_found(entries, key);
            let k = choose|k: int|
                0 <= k < entries.len() && (#[trigger] entries[k]).0 == key && entries[k].1
                    == thread;
            assert(threads[k] == thread);
            assert(threads.contains(thread));
            assert(threads.to_multiset().count(thread) > 0);
            assert(listed.contains(thread));
            let i = choose|i: int| 0 <= i < listed.len() && listed[i] == thread;
            assert(thread_told(records, key, self_number, mappings, listed[i]));
        }
    }
}

/// A send is told by the message it made.
pub proof fn law_sends_are_told_by_their_message(message_id: Seq<char>)
    ensures
        send_view(message_id) is Object,
        send_view(message_id)->Object_0 == seq![
            ("message_id"@, JsonView::Text(message_id)),
            ("operation"@, JsonView::Text("send_message"@)),
        ],
{
}

/// What the library made of a record tells the number that it came from.
pub proof fn law_metadata_tells_the_number(
    record: SmsRecordView,
    phone: Seq<char>,
    body: Seq<char>,
    self_number: Option<Seq<char>>,
    mappings: Seq<(Seq<char>, Seq<char>)>,
    now: Timestamp,
)
    ensures
        record.contact_of(mappings).metadata == JsonView::Object(
            seq![("address"@, JsonView::Text(record.address))],
        ),
        owner(self_number).metadata == JsonView::Object(seq![("owner"@, JsonView::Bool(true))]),
        ({
            let members = record.thread_of(self_number, mappings).metadata->Object_0;
            &&& record.thread_of(self_number, mappings).metadata is Object && members.len() == 2
            &&& members[0] == ("address"@, JsonView::Text(record.address))
            &&& members[1].0 == "threadid"@
            &&& record.threadid matches Some(id) ==> members[1].1 == id
            &&& record.threadid is None ==> members[1].1 == JsonView::Null
        }),
        ({
            let sent = sent_message(phone, body, self_number, now).metadata;
            &&& sent is Object && sent->Object_0.len() == 2
            &&& sent->Object_0[0] == ("address"@, JsonView::Text(phone))
            &&& sent->Object_0[1] == ("delivery"@, JsonView::Text("submitted"@))
        }),
{
}

} // verus!
