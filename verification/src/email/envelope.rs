//! What an email says, and the contacts, messages and threads it stands for.

use vstd::prelude::*;
use crate::contacts::{
    first_of_each, keep_first_of_each, law_one_item_for_each_key, lemma_contains_either,
};
use crate::email::{email_id, UUID_NAMESPACE};
use crate::error::prefixed;
use crate::ids::{uuid_text, uuid_v5, Uuid};
use crate::json::{
    json_array, json_object, json_opt_text, json_text, member, member_views, opt_text_view, Json,
    JsonView,
};
use crate::listing::{
    allowed, first_items, keep_first, law_a_sighting_changes_its_own_thread,
    law_the_earliest_messages_are_listed, law_the_latest_threads_are_listed, lemma_first_views,
    list_known, newer, older, put_thread, sort_oldest_first, take_thread, thread_views,
    with_thread, without_keys,
};
use crate::maps::{find, lemma_find_at, lemma_found, ordered};
use crate::model::{
    attachment_ids, copy_attachments, whole, wholes, Attachment, AttachmentView, Contact,
    ContactView, Message, MessageKind, MessageView, Thread, ThreadView, WholeMessage,
};
use crate::order::{lemma_sorted_map, sorted_by, viewed};
use crate::text::{
    ascii_lowercase, copy_opt, has_char, lowercase, lowered_ascii, str_eq, to_lowercase, view_opt,
    views,
};
use crate::time::{law_earlier_points_come_first, Timestamp};

verus! {

/// An address with the name it is given.
#[derive(Debug, PartialEq, Eq)]
pub struct EmailAddress {
    pub name: Option<String>,
    pub address: String,
}

/// The mathematical value of an address.
#[verifier::ext_equal]
pub struct EmailAddressView {
    pub name: Option<Seq<char>>,
    pub address: Seq<char>,
}

impl View for EmailAddress {
    type V = EmailAddressView;

    open spec fn view(&self) -> EmailAddressView {
        EmailAddressView { name: view_opt(self.name), address: self.address@ }
    }
}

impl EmailAddressView {
    /// The address as it is shown: behind its name in angle brackets, or alone.
    pub open spec fn shown(self) -> Seq<char> {
        match self.name {
            Some(name) => name + " <"@ + self.address + ">"@,
            None => self.address,
        }
    }

    /// The contact of the address.
    pub open spec fn contact(self) -> ContactView {
        ContactView {
            id: email_id("contact:"@ + lowercase(self.address)),
            source: "email"@,
            source_id: self.address,
            provider_instance: None,
            display_name: self.name,
            avatar_url: None,
            metadata: JsonView::Object(seq![("email"@, JsonView::Text(self.address))]),
        }
    }
}

impl EmailAddress {
    /// The address as it is shown.
    pub fn display(&self) -> (r: String)
        ensures
            r@ == self@.shown(),
    {
        match &self.name {
            Some(name) => {
                let mut out = prefixed(name.as_str(), " <");
                out.append(self.address.as_str());
                out.append(">");
                out
            },
            None => self.address.clone(),
        }
    }

    /// The contact of the address.
    pub fn to_contact(&self) -> (r: Contact)
        ensures
            r@ == self@.contact(),
    {
        let lowered = to_lowercase(self.address.as_str());
        let mut members: Vec<(String, Json)> = Vec::new();
        members.push(member("email", json_text(self.address.as_str())));
        assert(member_views(members@) =~= self@.contact().metadata->Object_0);
        Contact {
            id: Uuid::of_name(UUID_NAMESPACE, prefixed("contact:", lowered.as_str()).as_str()),
            source: "email".to_owned(),
            source_id: self.address.clone(),
            provider_instance: None,
            display_name: copy_opt(&self.name),
            avatar_url: None,
            metadata: json_object(members),
        }
    }
}

/// What an email says.
#[derive(Debug, PartialEq, Eq)]
pub struct EmailEnvelope {
    pub source_id: String,
    pub subject: Option<String>,
    pub from: Vec<EmailAddress>,
    pub to: Vec<EmailAddress>,
    pub cc: Vec<EmailAddress>,
    pub date: Timestamp,
    pub body: String,
    pub attachments: Vec<Attachment>,
    pub references: Vec<String>,
    pub in_reply_to: Option<String>,
}

/// The mathematical value of an email.
#[verifier::ext_equal]
pub struct EmailEnvelopeView {
    pub source_id: Seq<char>,
    pub subject: Option<Seq<char>>,
    pub from: Seq<EmailAddressView>,
    pub to: Seq<EmailAddressView>,
    pub cc: Seq<EmailAddressView>,
    pub date: Timestamp,
    pub body: Seq<char>,
    pub attachments: Seq<AttachmentView>,
    pub references: Seq<Seq<char>>,
    pub in_reply_to: Option<Seq<char>>,
}

impl View for EmailEnvelope {
    type V = EmailEnvelopeView;

    open spec fn view(&self) -> EmailEnvelopeView {
        EmailEnvelopeView {
            source_id: self.source_id@,
            subject: view_opt(self.subject),
            from: views(self.from@),
            to: views(self.to@),
            cc: views(self.cc@),
            date: self.date,
            body: self.body@,
            attachments: views(self.attachments@),
            references: views(self.references@),
            in_reply_to: view_opt(self.in_reply_to),
        }
    }
}

/// The contacts of addresses.
pub open spec fn contacts_of(addresses: Seq<EmailAddressView>) -> Seq<ContactView> {
    addresses.map_values(|address: EmailAddressView| address.contact())
}

/// The addresses as they are shown, in JSON.
pub open spec fn shown_addresses(addresses: Seq<EmailAddressView>) -> JsonView {
    JsonView::Array(addresses.map_values(|address: EmailAddressView| JsonView::Text(address.shown())))
}

/// Texts in JSON.
pub open spec fn text_array(texts: Seq<Seq<char>>) -> JsonView {
    JsonView::Array(texts.map_values(|text: Seq<char>| JsonView::Text(text)))
}

/// The lower-case forms of the contacts' source identifiers.
pub open spec fn address_keys(contacts: Seq<ContactView>) -> Seq<Seq<char>> {
    contacts.map_values(|contact: ContactView| lowercase(contact.source_id))
}

/// The contacts whose addresses, letter case aside, do not occur before them, in order.
pub open spec fn unique_addresses(contacts: Seq<ContactView>) -> Seq<ContactView> {
    first_of_each(contacts, address_keys(contacts))
}

impl EmailEnvelopeView {
    /// What the emails of one thread have in common: the oldest email it refers to, the one it
    /// answers, or itself.
    pub open spec fn key(self) -> Seq<char> {
        if self.references.len() > 0 {
            self.references[0]
        } else {
            match self.in_reply_to {
                Some(id) => id,
                None => self.source_id,
            }
        }
    }

    /// The UUID of the thread.
    pub open spec fn thread(self) -> Uuid {
        email_id("thread:"@ + self.key())
    }

    /// Whether a thread identifier means the email's thread.
    pub open spec fn in_thread(self, thread_id: Seq<char>) -> bool {
        self.key() == thread_id || uuid_text(self.thread().value) == thread_id
    }

    /// The addresses of the email: senders, recipients, and those who get a copy.
    pub open spec fn addresses(self) -> Seq<EmailAddressView> {
        self.from + self.to + self.cc
    }

    /// The contact who sent the email.
    pub open spec fn sender_contact(self) -> ContactView {
        if self.from.len() > 0 {
            self.from[0].contact()
        } else {
            (EmailAddressView { name: None, address: "unknown@example.invalid"@ }).contact()
        }
    }

    /// Whether one of the senders has the address, letter case aside.
    pub open spec fn sent_by(self, address: Seq<char>) -> bool {
        address.len() > 0 && exists|i: int|
            0 <= i < self.from.len() && lowered_ascii((#[trigger] self.from[i]).address)
                == lowered_ascii(address)
    }

    /// The thread that the email shows.
    pub open spec fn thread_of(self) -> ThreadView {
        ThreadView {
            id: self.thread(),
            source: "email"@,
            source_id: self.key(),
            provider_instance: None,
            title: self.subject,
            participants: unique_addresses(contacts_of(self.addresses())),
            last_message_at: self.date,
            unread_count: None,
            metadata: JsonView::Object(
                seq![
                    ("in_reply_to"@, opt_text_view(self.in_reply_to)),
                    ("message_id"@, JsonView::Text(self.source_id)),
                    ("references"@, text_array(self.references)),
                ],
            ),
        }
    }

    /// The message that the email is, where the owner sends from the given address.
    pub open spec fn message_of(self, from_address: Seq<char>) -> MessageView {
        MessageView {
            id: email_id("message:"@ + self.source_id),
            thread_id: self.thread(),
            source: "email"@,
            source_id: self.source_id,
            sender: self.sender_contact(),
            kind: if self.body.contains('<') && self.body.contains('>') {
                MessageKind::RichText
            } else {
                MessageKind::Text
            },
            body: self.body,
            attachments: self.attachments,
            timestamp: self.date,
            is_outbound: self.sent_by(from_address),
            metadata: JsonView::Object(
                seq![
                    ("cc"@, shown_addresses(self.cc)),
                    ("subject"@, opt_text_view(self.subject)),
                    ("to"@, shown_addresses(self.to)),
                ],
            ),
        }
    }
}

/// Keeps the contacts whose addresses, letter case aside, do not occur before them.
pub fn dedupe_contacts(contacts: Vec<Contact>) -> (r: Vec<Contact>)
    ensures
        views(r@) == unique_addresses(views(contacts@)),
        r@.len() <= contacts@.len(),
{
    let mut keys: Vec<String> = Vec::new();
    let mut i: usize = 0;
    while i < contacts.len()
        invariant
            i <= contacts@.len(),
            keys@.len() == i,
            forall|j: int|
                0 <= j < i ==> (#[trigger] keys@[j])@ == lowercase(contacts@[j].source_id@),
        decreases contacts@.len() - i,
    {
        keys.push(to_lowercase(contacts[i].source_id.as_str()));
        i += 1;
    }
    assert(views(keys@) =~= address_keys(views(contacts@)));
    keep_first_of_each(contacts, &keys)
}

fn append_contacts(contacts: &mut Vec<Contact>, addresses: &Vec<EmailAddress>)
    ensures
        views(final(contacts)@) == views(old(contacts)@) + contacts_of(views(addresses@)),
{
    let ghost known = contacts@;
    let mut i: usize = 0;
    while i < addresses.len()
        invariant
            i <= addresses@.len(),
            contacts@.len() == known.len() + i,
            forall|j: int| 0 <= j < known.len() ==> (#[trigger] contacts@[j]) == known[j],
            forall|j: int|
                known.len() <= j < contacts@.len() ==> (#[trigger] contacts@[j])@
                    == addresses@[j - known.len()]@.contact(),
        decreases addresses@.len() - i,
    {
        contacts.push(addresses[i].to_contact());
        i += 1;
    }
    assert(views(contacts@) =~= views(known) + contacts_of(views(addresses@)));
}

fn show_addresses(addresses: &Vec<EmailAddress>) -> (r: Json)
    ensures
        r@ == shown_addresses(views(addresses@)),
{
    let mut items: Vec<Json> = Vec::new();
    let mut i: usize = 0;
    while i < addresses.len()
        invariant
            i <= addresses@.len(),
            items@.len() == i,
            forall|j: int|
                0 <= j < i ==> (#[trigger] items@[j])@ == JsonView::Text(addresses@[j]@.shown()),
        decreases addresses@.len() - i,
    {
        items.push(json_text(addresses[i].display().as_str()));
        i += 1;
    }
    assert(views(items@) =~= shown_addresses(views(addresses@))->Array_0);
    json_array(items)
}

fn show_texts(texts: &Vec<String>) -> (r: Json)
    ensures
        r@ == text_array(views(texts@)),
{
    let mut items: Vec<Json> = Vec::new();
    let mut i: usize = 0;
    while i < texts.len()
        invariant
            i <= texts@.len(),
            items@.len() == i,
            forall|j: int| 0 <= j < i ==> (#[trigger] items@[j])@ == JsonView::Text(texts@[j]@),
        decreases texts@.len() - i,
    {
        items.push(json_text(texts[i].as_str()));
        i += 1;
    }
    assert(views(items@) =~= text_array(views(texts@))->Array_0);
    json_array(items)
}

impl EmailEnvelope {
    /// What the emails of one thread have in common.
    pub fn thread_key(&self) -> (r: String)
        ensures
            r@ == self@.key(),
    {
        if self.references.len() > 0 {
            self.references[0].clone()
        } else {
            match &self.in_reply_to {
                Some(id) => id.clone(),
                None => self.source_id.clone(),
            }
        }
    }

    /// The UUID of the thread.
    pub fn thread_id(&self) -> (r: Uuid)
        ensures
            r == self@.thread(),
    {
        let name = prefixed("thread:", self.thread_key().as_str());
        Uuid::of_name(UUID_NAMESPACE, name.as_str())
    }

    /// Whether a thread identifier means the email's thread.
    pub fn matches_thread(&self, thread_id: &str) -> (r: bool)
        ensures
            r == self@.in_thread(thread_id@),
    {
        str_eq(self.thread_key().as_str(), thread_id) || str_eq(
            self.thread_id().text().as_str(),
            thread_id,
        )
    }

    /// The contacts of the email, with repetitions.
    pub fn contacts(&self) -> (r: Vec<Contact>)
        ensures
            views(r@) == contacts_of(self@.addresses()),
    {
        let mut out: Vec<Contact> = Vec::new();
        append_contacts(&mut out, &self.from);
        append_contacts(&mut out, &self.to);
        append_contacts(&mut out, &self.cc);
        assert(views(out@) =~= contacts_of(self@.addresses()));
        out
    }

    /// The contact who sent the email.
    pub fn sender(&self) -> (r: Contact)
        ensures
            r@ == self@.sender_contact(),
    {
        if self.from.len() > 0 {
            assert(self@.from[0] == self.from@[0]@);
            self.from[0].to_contact()
        } else {
            let unknown = EmailAddress {
                name: None,
                address: "unknown@example.invalid".to_owned(),
            };
            unknown.to_contact()
        }
    }

    fn is_sent_by(&self, address: &str) -> (r: bool)
        ensures
            r == self@.sent_by(address@),
    {
        if address.is_empty() {
            return false;
        }
        let wanted = ascii_lowercase(address);
        let mut i: usize = 0;
        while i < self.from.len()
            invariant
                i <= self.from@.len(),
                address@.len() > 0,
                wanted@ == lowered_ascii(address@),
                forall|j: int|
                    0 <= j < i ==> lowered_ascii((#[trigger] self@.from[j]).address)
                        != lowered_ascii(address@),
            decreases self.from@.len() - i,
        {
            assert(self@.from[i as int] == self.from@[i as int]@);
            if str_eq(ascii_lowercase(self.from[i].address.as_str()).as_str(), wanted.as_str()) {
                return true;
            }
            i += 1;
        }
        false
    }

    /// The thread that the email shows.
    pub fn to_thread(&self) -> (r: Thread)
        ensures
            r@ == self@.thread_of(),
    {
        let mut members: Vec<(String, Json)> = Vec::new();
        members.push(member("in_reply_to", json_opt_text(&self.in_reply_to)));
        members.push(member("message_id", json_text(self.source_id.as_str())));
        members.push(member("references", show_texts(&self.references)));
        assert(member_views(members@) =~= self@.thread_of().metadata->Object_0);
        Thread {
            id: self.thread_id(),
            source: "email".to_owned(),
            source_id: self.thread_key(),
            provider_instance: None,
            title: copy_opt(&self.subject),
            participants: dedupe_contacts(self.contacts()),
            last_message_at: self.date,
            unread_count: None,
            metadata: json_object(members),
        }
    }

    /// The message that the email is, sent by nobody in particular.
    pub fn to_message(&self) -> (r: Message)
        ensures
            r@ == self@.message_of(seq![]),
            attachment_ids(r.attachments@) == attachment_ids(self.attachments@),
    {
        proof {
            reveal_strlit("");
            assert(""@ =~= seq![]);
        }
        self.to_message_from("")
    }

    /// The message that the email is, where the owner sends from the given address.
    pub fn to_message_from(&self, from_address: &str) -> (r: Message)
        ensures
            r@ == self@.message_of(from_address@),
            attachment_ids(r.attachments@) == attachment_ids(self.attachments@),
    {
        let mut members: Vec<(String, Json)> = Vec::new();
        members.push(member("cc", show_addresses(&self.cc)));
        members.push(member("subject", json_opt_text(&self.subject)));
        members.push(member("to", show_addresses(&self.to)));
        assert(member_views(members@) =~= self@.message_of(from_address@).metadata->Object_0);
        let name = prefixed("message:", self.source_id.as_str());
        Message {
            id: Uuid::of_name(UUID_NAMESPACE, name.as_str()),
            thread_id: self.thread_id(),
            source: "email".to_owned(),
            source_id: self.source_id.clone(),
            sender: self.sender(),
            kind: if has_char(self.body.as_str(), '<') && has_char(self.body.as_str(), '>') {
                MessageKind::RichText
            } else {
                MessageKind::Text
            },
            body: self.body.clone(),
            attachments: copy_attachments(&self.attachments),
            timestamp: self.date,
            is_outbound: self.is_sent_by(from_address),
            metadata: json_object(members),
        }
    }
}

/// A thread with what one more email of it shows: the later time, and all participants.
pub open spec fn joined_thread(existing: ThreadView, thread: ThreadView) -> ThreadView {
    ThreadView {
        last_message_at: if existing.last_message_at.earlier(thread.last_message_at) {
            thread.last_message_at
        } else {
            existing.last_message_at
        },
        participants: unique_addresses(existing.participants + thread.participants),
        ..existing
    }
}

/// The threads that some emails show, in the order of their keys.
pub open spec fn threads_by_key(emails: Seq<EmailEnvelopeView>) -> Seq<(Seq<char>, ThreadView)>
    decreases emails.len(),
{
    if emails.len() == 0 {
        seq![]
    } else {
        with_thread(
            threads_by_key(emails.drop_last()),
            emails.last().key(),
            emails.last().thread_of(),
            |existing: ThreadView, thread: ThreadView| joined_thread(existing, thread),
        )
    }
}

fn join_thread(existing: Thread, thread: Thread) -> (r: Thread)
    ensures
        r@ == joined_thread(existing@, thread@),
{
    let mut out = existing;
    if out.last_message_at.is_earlier(&thread.last_message_at) {
        out.last_message_at = thread.last_message_at;
    }
    let ghost known = out.participants@;
    let ghost more = thread.participants@;
    let mut participants = out.participants;
    let mut other = thread.participants;
    participants.append(&mut other);
    assert(views(participants@) =~= views(known) + views(more));
    out.participants = dedupe_contacts(participants);
    out
}

/// The threads that some emails show: those with the latest messages first.
pub fn list_threads(emails: &Vec<EmailEnvelope>, limit: Option<u32>) -> (r: Vec<Thread>)
    ensures
        views(r@) == first_items(
            sorted_by(without_keys(threads_by_key(views(emails@))), newer()),
            allowed(limit),
        ),
        forall|i: int, j: int|
            0 <= i < j < r@.len() ==> (#[trigger] views(r@)[i]).last_message_at.ticks() >= (
            #[trigger] views(r@)[j]).last_message_at.ticks(),
        forall|i: int|
            0 <= i < r@.len() ==> some_thread_told(views(emails@), #[trigger] views(r@)[i]),
{
    proof {
        law_listed_threads_come_by_their_latest_email(views(emails@), limit);
    }
    let ghost all = views(emails@);
    let ghost join = |existing: ThreadView, thread: ThreadView| joined_thread(existing, thread);
    let mut known: Vec<(String, Thread)> = Vec::new();
    let mut i: usize = 0;
    assert(all.take(0) =~= seq![]);
    assert(thread_views(known@) =~= seq![]);
    while i < emails.len()
        invariant
            i <= emails@.len(),
            all == views(emails@),
            join == (|existing: ThreadView, thread: ThreadView| joined_thread(existing, thread)),
            thread_views(known@) == threads_by_key(all.take(i as int)),
        decreases emails@.len() - i,
    {
        proof {
            let next = all.take(i + 1);
            assert(next.drop_last() =~= all.take(i as int));
            assert(next.last() == emails@[i as int]@);
        }
        let ghost before = thread_views(known@);
        let key = emails[i].thread_key();
        let thread = emails[i].to_thread();
        let ghost seen = thread@;
        let (at, existing) = take_thread(&mut known, key.as_str());
        let thread = match existing {
            Some(existing) => join_thread(existing, thread),
            None => thread,
        };
        put_thread(&mut known, at, key, thread);
        assert(thread_views(known@) =~= with_thread(before, key@, seen, join));
        i += 1;
    }
    assert(all.take(all.len() as int) =~= all);
    list_known(known, limit)
}

/// Whether a message is wanted before a cursor.
pub open spec fn before_cursor(at: Timestamp, before: Option<Timestamp>) -> bool {
    before matches Some(cursor) ==> at.earlier(cursor)
}

/// The messages of a thread before the cursor, in the order of the emails.
pub open spec fn thread_messages(
    emails: Seq<EmailEnvelopeView>,
    thread_id: Seq<char>,
    before: Option<Timestamp>,
    from_address: Seq<char>,
) -> Seq<MessageView>
    decreases emails.len(),
{
    if emails.len() == 0 {
        seq![]
    } else {
        let front = thread_messages(emails.drop_last(), thread_id, before, from_address);
        let email = emails.last();
        if email.in_thread(thread_id) && before_cursor(email.date, before) {
            front.push(email.message_of(from_address))
        } else {
            front
        }
    }
}

/// The order in which the earlier message comes first, whatever the IDs of its attachments.
pub open spec fn whole_older() -> spec_fn(WholeMessage, WholeMessage) -> bool {
    |x: WholeMessage, y: WholeMessage| older()(x.message, y.message)
}

/// The messages of a thread before the cursor with the IDs of their attachments, in the order of
/// the emails.
pub open spec fn whole_thread_messages(
    emails: Seq<EmailEnvelope>,
    thread_id: Seq<char>,
    before: Option<Timestamp>,
    from_address: Seq<char>,
) -> Seq<WholeMessage>
    decreases emails.len(),
{
    if emails.len() == 0 {
        seq![]
    } else {
        let front = whole_thread_messages(emails.drop_last(), thread_id, before, from_address);
        let email = emails.last();
        if email@.in_thread(thread_id) && before_cursor(email@.date, before) {
            front.push(
                WholeMessage {
                    message: email@.message_of(from_address),
                    attachment_ids: attachment_ids(email.attachments@),
                },
            )
        } else {
            front
        }
    }
}

/// The messages of a thread before the cursor: the earliest first, as many as the limit allows.
/// Their attachments keep the IDs that they have in the emails.
pub fn list_messages(
    emails: &Vec<EmailEnvelope>,
    thread_id: &str,
    before: Option<Timestamp>,
    limit: Option<u32>,
    from_address: &str,
) -> (r: Vec<Message>)
    ensures
        views(r@) == first_items(
            sorted_by(thread_messages(views(emails@), thread_id@, before, from_address@), older()),
            allowed(limit),
        ),
        wholes(r@) == first_items(
            sorted_by(
                whole_thread_messages(emails@, thread_id@, before, from_address@),
                whole_older(),
            ),
            allowed(limit),
        ),
        forall|i: int, j: int|
            0 <= i < j < r@.len() ==> (#[trigger] views(r@)[i]).timestamp.ticks() <= (
            #[trigger] views(r@)[j]).timestamp.ticks(),
        limit matches Some(n) ==> r@.len() <= n,
{
    proof {
        law_the_earliest_messages_are_listed(
            thread_messages(views(emails@), thread_id@, before, from_address@),
            limit,
        );
    }
    let ghost all = views(emails@);
    let mut out: Vec<Message> = Vec::new();
    let mut i: usize = 0;
    assert(all.take(0) =~= seq![]);
    assert(views(out@) =~= seq![]);
    assert(wholes(out@) =~= seq![]);
    assert(emails@.take(0) =~= seq![]);
    while i < emails.len()
        invariant
            i <= emails@.len(),
            all == views(emails@),
            views(out@) == thread_messages(all.take(i as int), thread_id@, before, from_address@),
            wholes(out@) == whole_thread_messages(
                emails@.take(i as int),
                thread_id@,
                before,
                from_address@,
            ),
        decreases emails@.len() - i,
    {
        let ghost known = out@;
        proof {
            let next = all.take(i + 1);
            assert(next.drop_last() =~= all.take(i as int));
            assert(next.last() == emails@[i as int]@);
            let following = emails@.take(i + 1);
            assert(following.drop_last() =~= emails@.take(i as int));
            assert(following.last() == emails@[i as int]);
        }
        let email = &emails[i];
        let wanted = match &before {
            Some(cursor) => email.date.is_earlier(cursor),
            None => true,
        };
        if wanted && email.matches_thread(thread_id) {
            let message = email.to_message_from(from_address);
            out.push(message);
            assert(views(out@) =~= views(known).push(message@));
            assert(wholes(out@) =~= wholes(known).push(whole(message)));
        }
        i += 1;
    }
    assert(all.take(all.len() as int) =~= all);
    assert(emails@.take(emails@.len() as int) =~= emails@);
    let ghost found = out@;
    let sorted = sort_oldest_first(out);
    proof {
        let f = |message: Message| whole(message);
        let less = viewed::<Message>(older());
        assert forall|x: Message, y: Message| #[trigger]
            less(x, y) == whole_older()(f(x), f(y)) by {}
        lemma_sorted_map(found, f, less, whole_older());
        assert(found.map_values(f) =~= wholes(found));
        assert(wholes(first_items(sorted@, allowed(limit))) =~= first_items(
            sorted@.map_values(f),
            allowed(limit),
        ));
        lemma_first_views(sorted@, allowed(limit));
    }
    keep_first(sorted, limit)
}

/// The contacts of some emails, with repetitions.
pub open spec fn all_contacts(emails: Seq<EmailEnvelopeView>) -> Seq<ContactView>
    decreases emails.len(),
{
    if emails.len() == 0 {
        seq![]
    } else {
        all_contacts(emails.drop_last()) + contacts_of(emails.last().addresses())
    }
}

/// The contacts of some emails, each once, as many as the limit allows.
pub fn list_contacts(emails: &Vec<EmailEnvelope>, limit: Option<u32>) -> (r: Vec<Contact>)
    ensures
        views(r@) == first_items(unique_addresses(all_contacts(views(emails@))), allowed(limit)),
{
    let ghost all = views(emails@);
    let mut contacts: Vec<Contact> = Vec::new();
    let mut i: usize = 0;
    assert(all.take(0) =~= seq![]);
    assert(views(contacts@) =~= seq![]);
    while i < emails.len()
        invariant
            i <= emails@.len(),
            all == views(emails@),
            views(contacts@) == all_contacts(all.take(i as int)),
        decreases emails@.len() - i,
    {
        let ghost known = contacts@;
        proof {
            let next = all.take(i + 1);
            assert(next.drop_last() =~= all.take(i as int));
            assert(next.last() == emails@[i as int]@);
        }
        let mut more = emails[i].contacts();
        let ghost added = more@;
        contacts.append(&mut more);
        assert(views(contacts@) =~= views(known) + views(added));
        i += 1;
    }
    assert(all.take(all.len() as int) =~= all);
    let unique = dedupe_contacts(contacts);
    proof {
        lemma_first_views(unique@, allowed(limit));
    }
    keep_first(unique, limit)
}

/// The UUID that the things of emails have under a name.
pub open spec fn email_uuid(name: Seq<char>) -> Uuid {
    Uuid {
        value: uuid_v5(
            0x6e6c_4e12_1a7d_4a3c_8b53_8914_42f3_0002,
            vstd::utf8::encode_utf8(name),
        ),
    }
}

/// Whether an email is of the conversation that a message identifier opened: the first that it
/// refers to, or else the one that it answers, or else its own.
pub open spec fn of_conversation(email: EmailEnvelopeView, key: Seq<char>) -> bool {
    ||| email.references.len() > 0 && email.references[0] == key
    ||| email.references.len() == 0 && email.in_reply_to == Some(key)
    ||| email.references.len() == 0 && email.in_reply_to is None && email.source_id == key
}

/// Whether an email belongs to a thread, which is given by the identifier that opened the
/// conversation or by the UUID of the thread.
pub open spec fn belongs(email: EmailEnvelopeView, thread_id: Seq<char>) -> bool {
    ||| of_conversation(email, thread_id)
    ||| exists|key: Seq<char>|
        #![trigger of_conversation(email, key)]
        of_conversation(email, key) && thread_id == uuid_text(
            email_uuid("thread:"@ + key).value,
        )
}

/// Each email is of one conversation, and its thread is named after it.
pub proof fn law_an_email_is_of_one_conversation(
    email: EmailEnvelopeView,
    key: Seq<char>,
    thread_id: Seq<char>,
)
    ensures
        of_conversation(email, key) <==> email.key() == key,
        email.thread() == email_uuid("thread:"@ + email.key()),
        email.in_thread(thread_id) <==> belongs(email, thread_id),
{
    assert(of_conversation(email, email.key()));
    if belongs(email, thread_id) && !of_conversation(email, thread_id) {
        let k = choose|k: Seq<char>|
            #![trigger of_conversation(email, k)]
            of_conversation(email, k) && thread_id == uuid_text(
                email_uuid("thread:"@ + k).value,
            );
        assert(k == email.key());
    }
}

/// A contact is known by its address in lower case, and keeps the address and the name as given.
pub proof fn law_contacts_are_known_by_their_address(address: EmailAddressView)
    ensures
        address.contact().id == email_uuid("contact:"@ + lowercase(address.address)),
        address.contact().source == "email"@,
        address.contact().source_id == address.address,
        address.contact().display_name == address.name,
        address.contact().provider_instance is None,
        address.contact().avatar_url is None,
        address.name matches Some(name) ==> address.shown() == name + " <"@ + address.address
            + ">"@,
        address.name is None ==> address.shown() == address.address,
{
}

/// A normalized message says what the email says: it comes from the first sender, goes out where
/// one of the senders is the owner, and is rich text where its body holds both angle brackets.
pub proof fn law_a_message_says_what_the_email_says(email: EmailEnvelopeView, own: Seq<char>)
    ensures
        ({
            let m = email.message_of(own);
            &&& m.id == email_uuid("message:"@ + email.source_id)
            &&& m.thread_id == email_uuid("thread:"@ + email.key())
            &&& m.source == "email"@
            &&& m.source_id == email.source_id
            &&& email.from.len() > 0 ==> m.sender == email.from[0].contact()
            &&& email.from.len() == 0 ==> m.sender.source_id == "unknown@example.invalid"@
                && m.sender.display_name is None
            &&& m.kind == MessageKind::RichText <==> exists|i: int, j: int|
                0 <= i < email.body.len() && 0 <= j < email.body.len() && #[trigger] email.body[i]
                    == '<' && #[trigger] email.body[j] == '>'
            &&& m.kind == MessageKind::RichText || m.kind == MessageKind::Text
            &&& m.body == email.body
            &&& m.attachments == email.attachments
            &&& m.timestamp == email.date
            &&& m.is_outbound <==> own.len() > 0 && exists|i: int|
                0 <= i < email.from.len() && lowered_ascii((#[trigger] email.from[i]).address)
                    == lowered_ascii(own)
        }),
        ({
            let members = email.message_of(own).metadata->Object_0;
            &&& email.message_of(own).metadata is Object
            &&& members.len() == 3
            &&& members[0].0 == "cc"@ && members[0].1 is Array
            &&& members[0].1->Array_0.len() == email.cc.len()
            &&& forall|i: int|
                0 <= i < email.cc.len() ==> (#[trigger] members[0].1->Array_0[i])
                    == JsonView::Text(email.cc[i].shown())
            &&& members[1].0 == "subject"@
            &&& email.subject matches Some(subject) ==> members[1].1 == JsonView::Text(subject)
            &&& email.subject is None ==> members[1].1 == JsonView::Null
            &&& members[2].0 == "to"@ && members[2].1 is Array
            &&& members[2].1->Array_0.len() == email.to.len()
            &&& forall|i: int|
                0 <= i < email.to.len() ==> (#[trigger] members[2].1->Array_0[i])
                    == JsonView::Text(email.to[i].shown())
        }),
{
    let body = email.body;
    if body.contains('<') && body.contains('>') {
        let i = choose|i: int| 0 <= i < body.len() && body[i] == '<';
        let j = choose|j: int| 0 <= j < body.len() && body[j] == '>';
        assert(body[i] == '<' && body[j] == '>');
    }
}

/// Whether an email names an address, in lower case, among its senders and receivers.
pub open spec fn names(email: EmailEnvelopeView, address: Seq<char>) -> bool {
    ||| exists|i: int|
        0 <= i < email.from.len() && lowercase((#[trigger] email.from[i]).address) == address
    ||| exists|i: int|
        0 <= i < email.to.len() && lowercase((#[trigger] email.to[i]).address) == address
    ||| exists|i: int|
        0 <= i < email.cc.len() && lowercase((#[trigger] email.cc[i]).address) == address
}

proof fn lemma_names(email: EmailEnvelopeView, address: Seq<char>)
    ensures
        address_keys(contacts_of(email.addresses())).contains(address) <==> names(email, address),
{
    let all = email.addresses();
    let keys = address_keys(contacts_of(all));
    let n = email.from.len();
    let m = n + email.to.len();
    assert(keys.len() == all.len());
    assert forall|i: int| 0 <= i < all.len() implies #[trigger] keys[i] == lowercase(
        all[i].address,
    ) by {}
    if keys.contains(address) {
        let i = choose|i: int| 0 <= i < keys.len() && keys[i] == address;
        if i < n {
            assert(lowercase(email.from[i].address) == address);
        } else if i < m {
            assert(all[i] == email.to[i - n]);
            assert(lowercase(email.to[i - n].address) == address);
        } else {
            assert(all[i] == email.cc[i - m]);
            assert(lowercase(email.cc[i - m].address) == address);
        }
    }
    if exists|i: int|
        0 <= i < email.from.len() && lowercase((#[trigger] email.from[i]).address) == address {
        let i = choose|i: int|
            0 <= i < email.from.len() && lowercase((#[trigger] email.from[i]).address) == address;
        assert(all[i] == email.from[i]);
        assert(keys[i] == address);
    }
    if exists|i: int|
        0 <= i < email.to.len() && lowercase((#[trigger] email.to[i]).address) == address {
        let i = choose|i: int|
            0 <= i < email.to.len() && lowercase((#[trigger] email.to[i]).address) == address;
        assert(all[n + i] == email.to[i]);
        assert(keys[n + i] == address);
    }
    if exists|i: int|
        0 <= i < email.cc.len() && lowercase((#[trigger] email.cc[i]).address) == address {
        let i = choose|i: int|
            0 <= i < email.cc.len() && lowercase((#[trigger] email.cc[i]).address) == address;
        assert(all[m + i] == email.cc[i]);
        assert(keys[m + i] == address);
    }
}

proof fn lemma_unique_addresses(contacts: Seq<ContactView>)
    ensures
        address_keys(unique_addresses(contacts)).no_duplicates(),
        forall|k: Seq<char>|
            address_keys(contacts).contains(k) <==> #[trigger] address_keys(
                unique_addresses(contacts),
            ).contains(k),
{
    let f = |contact: ContactView| lowercase(contact.source_id);
    law_one_item_for_each_key(contacts, address_keys(contacts), f);
    let kept = unique_addresses(contacts);
    assert(kept.map_values(f) =~= address_keys(kept));
}

/// Whether a thread is what some emails tell of a conversation: it is named after what opened the
/// conversation, titled after its first email, as late as its latest, and has for participants the
/// addresses that its emails name, each once.
#[verifier::opaque]
pub open spec fn thread_told(
    emails: Seq<EmailEnvelopeView>,
    key: Seq<char>,
    thread: ThreadView,
) -> bool {
    &&& thread.id == email_uuid("thread:"@ + key)
    &&& thread.source == "email"@
    &&& thread.source_id == key
    &&& thread.provider_instance is None
    &&& thread.unread_count is None
    &&& forall|j: int|
        0 <= j < emails.len() && of_conversation(#[trigger] emails[j], key)
            ==> emails[j].date.ticks() <= thread.last_message_at.ticks()
    &&& exists|j: int|
        0 <= j < emails.len() && of_conversation(#[trigger] emails[j], key)
            && thread.last_message_at == emails[j].date
    &&& exists|j: int|
        0 <= j < emails.len() && of_conversation(#[trigger] emails[j], key) && thread.title
            == emails[j].subject && forall|k: int|
            0 <= k < j ==> !of_conversation(#[trigger] emails[k], key)
    &&& address_keys(thread.participants).no_duplicates()
    &&& forall|address: Seq<char>| #[trigger]
        address_keys(thread.participants).contains(address) <==> exists|j: int|
            0 <= j < emails.len() && of_conversation(#[trigger] emails[j], key) && names(
                emails[j],
                address,
            )
}

proof fn lemma_first_told(emails: Seq<EmailEnvelopeView>, key: Seq<char>)
    requires
        emails.len() > 0,
        of_conversation(emails.last(), key),
        forall|j: int| 0 <= j < emails.len() - 1 ==> !of_conversation(#[trigger] emails[j], key),
    ensures
        thread_told(emails, key, emails.last().thread_of()),
{
    reveal(thread_told);
    let n = emails.len() - 1;
    let email = emails.last();
    let thread = email.thread_of();
    lemma_unique_addresses(contacts_of(email.addresses()));
    assert(of_conversation(emails[n], key));
    assert forall|address: Seq<char>| #[trigger]
        address_keys(thread.participants).contains(address) <==> exists|j: int|
            0 <= j < emails.len() && of_conversation(#[trigger] emails[j], key) && names(
                emails[j],
                address,
            ) by {
        lemma_names(email, address);
        if exists|j: int|
            0 <= j < emails.len() && of_conversation(#[trigger] emails[j], key) && names(
                emails[j],
                address,
            ) {
            let j = choose|j: int|
                0 <= j < emails.len() && of_conversation(#[trigger] emails[j], key) && names(
                    emails[j],
                    address,
                );
            assert(j == n);
        }
    }
}

proof fn lemma_next_told(emails: Seq<EmailEnvelopeView>, key: Seq<char>, known: ThreadView)
    requires
        emails.len() > 0,
        of_conversation(emails.last(), key),
        thread_told(emails.drop_last(), key, known),
    ensures
        thread_told(emails, key, joined_thread(known, emails.last().thread_of())),
{
    reveal(thread_told);
    let front = emails.drop_last();
    let n = emails.len() - 1;
    let email = emails.last();
    let seen = email.thread_of();
    let joined = joined_thread(known, seen);
    law_earlier_points_come_first(known.last_message_at, seen.last_message_at);
    assert(of_conversation(emails[n], key));
    assert forall|j: int|
        0 <= j < emails.len() && of_conversation(
            #[trigger] emails[j],
            key,
        ) implies emails[j].date.ticks() <= joined.last_message_at.ticks() by {
        if j < n {
            assert(front[j] == emails[j]);
        }
    }
    let latest = choose|j: int|
        0 <= j < front.len() && of_conversation(#[trigger] front[j], key)
            && known.last_message_at == front[j].date;
    assert(emails[latest] == front[latest]);
    let first = choose|j: int|
        0 <= j < front.len() && of_conversation(#[trigger] front[j], key) && known.title
            == front[j].subject && forall|k: int|
            0 <= k < j ==> !of_conversation(#[trigger] front[k], key);
    assert(emails[first] == front[first]);
    assert forall|k: int| 0 <= k < first implies !of_conversation(#[trigger] emails[k], key) by {
        assert(front[k] == emails[k]);
    }
    let a = address_keys(known.participants);
    let b = address_keys(seen.participants);
    lemma_unique_addresses(contacts_of(email.addresses()));
    lemma_unique_addresses(known.participants + seen.participants);
    assert(address_keys(known.participants + seen.participants) =~= a + b);
    assert forall|address: Seq<char>| #[trigger]
        address_keys(joined.participants).contains(address) <==> exists|j: int|
            0 <= j < emails.len() && of_conversation(#[trigger] emails[j], key) && names(
                emails[j],
                address,
            ) by {
        lemma_names(email, address);
        lemma_contains_either(a, b, address);
        if a.contains(address) {
            let j = choose|j: int|
                0 <= j < front.len() && of_conversation(#[trigger] front[j], key) && names(
                    front[j],
                    address,
                );
            assert(emails[j] == front[j]);
        }
        if exists|j: int|
            0 <= j < emails.len() && of_conversation(#[trigger] emails[j], key) && names(
                emails[j],
                address,
            ) {
            let j = choose|j: int|
                0 <= j < emails.len() && of_conversation(#[trigger] emails[j], key) && names(
                    emails[j],
                    address,
                );
            if j < n {
                assert(front[j] == emails[j]);
            }
        }
    }
}

proof fn lemma_other_told(emails: Seq<EmailEnvelopeView>, key: Seq<char>, thread: ThreadView)
    requires
        emails.len() > 0,
        !of_conversation(emails.last(), key),
        thread_told(emails.drop_last(), key, thread),
    ensures
        thread_told(emails, key, thread),
{
    reveal(thread_told);
    let front = emails.drop_last();
    let n = emails.len() - 1;
    assert(!of_conversation(emails[n], key));
    assert forall|j: int|
        0 <= j < emails.len() && of_conversation(
            #[trigger] emails[j],
            key,
        ) implies emails[j].date.ticks() <= thread.last_message_at.ticks() by {
        assert(front[j] == emails[j]);
    }
    let latest = choose|j: int|
        0 <= j < front.len() && of_conversation(#[trigger] front[j], key)
            && thread.last_message_at == front[j].date;
    assert(emails[latest] == front[latest]);
    let first = choose|j: int|
        0 <= j < front.len() && of_conversation(#[trigger] front[j], key) && thread.title
            == front[j].subject && forall|k: int|
            0 <= k < j ==> !of_conversation(#[trigger] front[k], key);
    assert(emails[first] == front[first]);
    assert forall|k: int| 0 <= k < first implies !of_conversation(#[trigger] emails[k], key) by {
        assert(front[k] == emails[k]);
    }
    assert forall|address: Seq<char>| #[trigger]
        address_keys(thread.participants).contains(address) <==> exists|j: int|
            0 <= j < emails.len() && of_conversation(#[trigger] emails[j], key) && names(
                emails[j],
                address,
            ) by {
        if address_keys(thread.participants).contains(address) {
            let j = choose|j: int|
                0 <= j < front.len() && of_conversation(#[trigger] front[j], key) && names(
                    front[j],
                    address,
                );
            assert(emails[j] == front[j]);
        }
        if exists|j: int|
            0 <= j < emails.len() && of_conversation(#[trigger] emails[j], key) && names(
                emails[j],
                address,
            ) {
            let j = choose|j: int|
                0 <= j < emails.len() && of_conversation(#[trigger] emails[j], key) && names(
                    emails[j],
                    address,
                );
            assert(front[j] == emails[j]);
        }
    }
}

/// The threads that emails tell of are one for each conversation among them, each as late as the
/// latest email of the conversation.
pub proof fn law_a_thread_is_as_late_as_its_latest_email(
    emails: Seq<EmailEnvelopeView>,
    key: Seq<char>,
)
    ensures
        ordered(threads_by_key(emails)),
        find(threads_by_key(emails), key) matches Some(thread) ==> thread_told(emails, key, thread),
        find(threads_by_key(emails), key) is Some <==> exists|j: int|
            0 <= j < emails.len() && of_conversation(#[trigger] emails[j], key),
    decreases emails.len(),
{
    if emails.len() > 0 {
        let front = emails.drop_last();
        let email = emails.last();
        let known = threads_by_key(front);
        let join = |existing: ThreadView, thread: ThreadView| joined_thread(existing, thread);
        law_a_thread_is_as_late_as_its_latest_email(front, key);
        law_a_sighting_changes_its_own_thread(known, email.key(), email.thread_of(), join);
        assert(threads_by_key(emails) == with_thread(known, email.key(), email.thread_of(), join));
        law_an_email_is_of_one_conversation(email, key, key);
        assert forall|j: int| 0 <= j < front.len() implies #[trigger] emails[j] == front[j] by {}
        if of_conversation(email, key) {
            assert(of_conversation(emails[emails.len() - 1], key));
            match find(known, key) {
                Some(thread) => lemma_next_told(emails, key, thread),
                None => {
                    assert forall|j: int| 0 <= j < emails.len() - 1 implies !of_conversation(
                        #[trigger] emails[j],
                        key,
                    ) by {
                        assert(front[j] == emails[j]);
                    }
                    lemma_first_told(emails, key);
                },
            }
        } else {
            if let Some(thread) = find(known, key) {
                lemma_other_told(emails, key, thread);
                let j = choose|j: int|
                    0 <= j < front.len() && of_conversation(#[trigger] front[j], key);
                assert(of_conversation(emails[j], key));
            }
            if exists|j: int| 0 <= j < emails.len() && of_conversation(#[trigger] emails[j], key) {
                let j = choose|j: int|
                    0 <= j < emails.len() && of_conversation(#[trigger] emails[j], key);
                assert(of_conversation(front[j], key));
            }
        }
    }
}

/// The messages of a thread are the emails that belong to it and are earlier than the cursor, in
/// the order in which they came.
pub proof fn law_the_messages_of_a_thread_are_the_emails_that_belong_to_it(
    emails: Seq<EmailEnvelopeView>,
    thread_id: Seq<char>,
    before: Option<Timestamp>,
    own: Seq<char>,
)
    ensures
        thread_messages(emails, thread_id, before, own) == emails.filter(
            |email: EmailEnvelopeView|
                belongs(email, thread_id) && (before matches Some(cursor) ==> email.date.ticks()
                    < cursor.ticks()),
        ).map_values(|email: EmailEnvelopeView| email.message_of(own)),
    decreases emails.len(),
{
    reveal(Seq::filter);
    let ok = |email: EmailEnvelopeView|
        belongs(email, thread_id) && (before matches Some(cursor) ==> email.date.ticks()
            < cursor.ticks());
    let f = |email: EmailEnvelopeView| email.message_of(own);
    if emails.len() > 0 {
        law_the_messages_of_a_thread_are_the_emails_that_belong_to_it(
            emails.drop_last(),
            thread_id,
            before,
            own,
        );
        law_an_email_is_of_one_conversation(emails.last(), thread_id, thread_id);
        if let Some(cursor) = before {
            law_earlier_points_come_first(emails.last().date, cursor);
        }
        if ok(emails.last()) {
            assert(emails.filter(ok).map_values(f) =~= emails.drop_last().filter(ok).map_values(
                f,
            ).push(f(emails.last())));
        }
    } else {
        assert(emails.filter(ok).map_values(f) =~= seq![]);
    }
}

proof fn lemma_all_contacts(emails: Seq<EmailEnvelopeView>, address: Seq<char>)
    ensures
        address_keys(all_contacts(emails)).contains(address) <==> exists|j: int|
            0 <= j < emails.len() && names(#[trigger] emails[j], address),
    decreases emails.len(),
{
    let all = address_keys(all_contacts(emails));
    if emails.len() > 0 {
        let front = emails.drop_last();
        let n = emails.len() - 1;
        lemma_all_contacts(front, address);
        lemma_names(emails.last(), address);
        let a = address_keys(all_contacts(front));
        let b = address_keys(contacts_of(emails.last().addresses()));
        assert(all =~= a + b);
        lemma_contains_either(a, b, address);
        assert(emails[n] == emails.last());
        if a.contains(address) {
            let j = choose|j: int| 0 <= j < front.len() && names(#[trigger] front[j], address);
            assert(emails[j] == front[j]);
        }
        if exists|j: int| 0 <= j < emails.len() && names(#[trigger] emails[j], address) {
            let j = choose|j: int| 0 <= j < emails.len() && names(#[trigger] emails[j], address);
            if j < n {
                assert(front[j] == emails[j]);
            }
        }
    } else {
        assert(all =~= seq![]);
    }
}

/// The contacts of emails are the addresses that they name, each once.
pub proof fn law_contacts_are_the_addresses_that_are_named(emails: Seq<EmailEnvelopeView>)
    ensures
        address_keys(unique_addresses(all_contacts(emails))).no_duplicates(),
        forall|address: Seq<char>| #[trigger]
            address_keys(unique_addresses(all_contacts(emails))).contains(address) <==> exists|
                j: int,
            |
                0 <= j < emails.len() && names(#[trigger] emails[j], address),
{
    lemma_unique_addresses(all_contacts(emails));
    assert forall|address: Seq<char>| #[trigger]
        address_keys(unique_addresses(all_contacts(emails))).contains(address) <==> exists|j: int|
            0 <= j < emails.len() && names(#[trigger] emails[j], address) by {
        lemma_all_contacts(emails, address);
    }
}

/// Whether a thread is what some emails tell of a conversation.
pub open spec fn some_thread_told(emails: Seq<EmailEnvelopeView>, thread: ThreadView) -> bool {
    exists|key: Seq<char>| thread_told(emails, key, thread)
}

/// A listing of threads shows each conversation as late as its latest email, the latest first, as
/// many as the limit allows; where it allows all, the conversation of every email is there.
pub proof fn law_listed_threads_come_by_their_latest_email(
    emails: Seq<EmailEnvelopeView>,
    limit: Option<u32>,
)
    ensures
        ({
            let listed = first_items(
                sorted_by(without_keys(threads_by_key(emails)), newer()),
                allowed(limit),
            );
            let all = threads_by_key(emails).len();
            let n = match limit {
                Some(limit) => limit as int,
                None => 50,
            };
            &&& forall|i: int|
                0 <= i < listed.len() ==> some_thread_told(emails, #[trigger] listed[i])
            &&& forall|i: int, j: int|
                0 <= i < j < listed.len() ==> (#[trigger] listed[i]).last_message_at.ticks() >= (
                #[trigger] listed[j]).last_message_at.ticks()
            &&& listed.len() == (if all <= n {
                all as int
            } else {
                n
            })
            &&& all <= n ==> forall|j: int|
                0 <= j < emails.len() ==> exists|i: int|
                    0 <= i < listed.len() && thread_told(
                        emails,
                        (#[trigger] emails[j]).key(),
                        #[trigger] listed[i],
                    )
        }),
{
    let entries = threads_by_key(emails);
    let threads = without_keys(entries);
    let listed = first_items(sorted_by(threads, newer()), allowed(limit));
    law_a_thread_is_as_late_as_its_latest_email(emails, seq![]);
    law_the_latest_threads_are_listed(threads, limit);
    assert forall|i: int| 0 <= i < listed.len() implies some_thread_told(
        emails,
        #[trigger] listed[i],
    ) by {
        let k = choose|k: int| 0 <= k < threads.len() && threads[k] == listed[i];
        lemma_find_at(entries, k);
        law_a_thread_is_as_late_as_its_latest_email(emails, entries[k].0);
        assert(thread_told(emails, entries[k].0, listed[i]));
    }
    if listed.len() == entries.len() {
        assert forall|j: int| 0 <= j < emails.len() implies exists|i: int|
            0 <= i < listed.len() && thread_told(
                emails,
                (#[trigger] emails[j]).key(),
                #[trigger] listed[i],
            ) by {
            broadcast use vstd::seq_lib::group_to_multiset_ensures;

            let key = emails[j].key();
            law_a_thread_is_as_late_as_its_latest_email(emails, key);
            assert(of_conversation(emails[j], key));
            let thread = find(entries, key)->0;
            lemma_found(entries, key);
            let k = choose|k: int|
                0 <= k < entries.len() && (#[trigger] entries[k]).0 == key && entries[k].1
                    == thread;
            assert(threads[k] == thread);
            assert(threads.contains(thread));
            assert(threads.to_multiset().count(thread) > 0);
            assert(listed.contains(thread));
            let i = choose|i: int| 0 <= i < listed.len() && listed[i] == thread;
            assert(thread_told(emails, key, listed[i]));
        }
    }
}

/// Messages keep the IDs of their attachments through a listing.
pub proof fn law_messages_keep_the_ids_of_their_attachments(
    emails: Seq<EmailEnvelope>,
    thread_id: Seq<char>,
    before: Option<Timestamp>,
    own: Seq<char>,
)
    ensures
        whole_thread_messages(emails, thread_id, before, own) == emails.filter(
            |email: EmailEnvelope|
                belongs(email@, thread_id) && (before matches Some(cursor) ==> email@.date.ticks()
                    < cursor.ticks()),
        ).map_values(
            |email: EmailEnvelope|
                WholeMessage {
                    message: email@.message_of(own),
                    attachment_ids: attachment_ids(email.attachments@),
                },
        ),
    decreases emails.len(),
{
    reveal(Seq::filter);
    let ok = |email: EmailEnvelope|
        belongs(email@, thread_id) && (before matches Some(cursor) ==> email@.date.ticks()
            < cursor.ticks());
    let f = |email: EmailEnvelope|
        WholeMessage {
            message: email@.message_of(own),
            attachment_ids: attachment_ids(email.attachments@),
        };
    if emails.len() > 0 {
        law_messages_keep_the_ids_of_their_attachments(emails.drop_last(), thread_id, before, own);
        law_an_email_is_of_one_conversation(emails.last()@, thread_id, thread_id);
        if let Some(cursor) = before {
            law_earlier_points_come_first(emails.last()@.date, cursor);
        }
        if ok(emails.last()) {
            assert(emails.filter(ok).map_values(f) =~= emails.drop_last().filter(ok).map_values(
                f,
            ).push(f(emails.last())));
        }
    } else {
        assert(emails.filter(ok).map_values(f) =~= seq![]);
    }
}

/// Contacts and threads of emails tell the address, and the message with what it refers to.
pub proof fn law_metadata_tells_where_an_email_stands(
    address: EmailAddressView,
    email: EmailEnvelopeView,
)
    ensures
        address.contact().metadata == JsonView::Object(
            seq![("email"@, JsonView::Text(address.address))],
        ),
        ({
            let members = email.thread_of().metadata->Object_0;
            &&& email.thread_of().metadata is Object && members.len() == 3
            &&& members[0].0 == "in_reply_to"@
            &&& email.in_reply_to matches Some(id) ==> members[0].1 == JsonView::Text(id)
            &&& email.in_reply_to is None ==> members[0].1 == JsonView::Null
            &&& members[1] == ("message_id"@, JsonView::Text(email.source_id))
            &&& members[2].0 == "references"@ && members[2].1 is Array
            &&& members[2].1->Array_0.len() == email.references.len()
            &&& forall|i: int|
                0 <= i < email.references.len() ==> (#[trigger] members[2].1->Array_0[i])
                    == JsonView::Text(email.references[i])
        }),
{
}

} // verus!
