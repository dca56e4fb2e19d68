//! Emails as bytes, read into envelopes.

use mail_parser::PartType::{Binary, Html, InlineBinary, Message, Multipart, Text};
use mail_parser::{HeaderValue, MessageParser, MimeHeaders};
use vstd::prelude::*;
use crate::decimal::{decimal, unsigned_text};
use crate::email::envelope::{EmailAddress, EmailAddressView, EmailEnvelope, EmailEnvelopeView};
use crate::email::UUID_NAMESPACE;
use crate::error::prefixed;
use crate::ids::{random_id, uuid_text, uuid_v5, Uuid};
use crate::maps::{
    find, holds, lemma_placed, lemma_put, lemma_with_value, ordered, pairs_of, placed, take_value,
};
use crate::model::{randomly_named, Attachment, AttachmentView};
use crate::text::{
    ascii_lowercase, begins, blank, chars_of, decode_lossy, find_text, first_index,
    law_a_text_is_found_where_it_occurs_first, lemma_first_index, lemma_first_index_unique, lines,
    lines_of, lossy_text, lowered_ascii, split_char, split_on, split_once, split_once_text, str_eq,
    trim, trim_leading, trim_trailing, trimmed, view_opt, views, without_leading, without_trailing,
    words, words_of,
};
use crate::time::{
    law_a_point_is_made_of_its_parts, lemma_timestamp_whole, rfc2822_parsed, Timestamp, MAX_SECS,
    MIN_SECS,
};

verus! {

/// The texts of a structured header.
#[derive(Debug, PartialEq, Eq)]
pub enum HeaderTexts {
    /// One text.
    One(String),
    /// A list of texts.
    Many(Vec<String>),
    /// The header is absent or holds something else.
    Other,
}

/// The mathematical value of a header's texts.
pub enum HeaderTextsView {
    One(Seq<char>),
    Many(Seq<Seq<char>>),
    Other,
}

impl View for HeaderTexts {
    type V = HeaderTextsView;

    open spec fn view(&self) -> HeaderTextsView {
        match *self {
            HeaderTexts::One(text) => HeaderTextsView::One(text@),
            HeaderTexts::Many(texts) => HeaderTextsView::Many(views(texts@)),
            HeaderTexts::Other => HeaderTextsView::Other,
        }
    }
}

/// An address as a header holds it: either part may be missing.
#[derive(Debug, PartialEq, Eq)]
pub struct HeaderAddress {
    pub name: Option<String>,
    pub address: Option<String>,
}

/// The mathematical value of a header's address: the name and the address.
pub type HeaderAddressView = (Option<Seq<char>>, Option<Seq<char>>);

impl View for HeaderAddress {
    type V = HeaderAddressView;

    open spec fn view(&self) -> HeaderAddressView {
        (view_opt(self.name), view_opt(self.address))
    }
}

/// What a part of an email holds.
#[derive(Debug, PartialEq, Eq)]
pub enum PartBody {
    /// Text.
    Text(String),
    /// A page.
    Html(String),
    /// Bytes.
    Binary(Vec<u8>),
    /// Bytes that are shown within the email.
    InlineBinary(Vec<u8>),
    /// Another email, as it came.
    Message(Vec<u8>),
    /// Parts.
    Multipart,
}

/// The mathematical value of what a part holds.
pub enum PartBodyView {
    Text(Seq<char>),
    Html(Seq<char>),
    Binary(Seq<u8>),
    InlineBinary(Seq<u8>),
    Message(Seq<u8>),
    Multipart,
}

impl View for PartBody {
    type V = PartBodyView;

    open spec fn view(&self) -> PartBodyView {
        match *self {
            PartBody::Text(text) => PartBodyView::Text(text@),
            PartBody::Html(text) => PartBodyView::Html(text@),
            PartBody::Binary(bytes) => PartBodyView::Binary(bytes@),
            PartBody::InlineBinary(bytes) => PartBodyView::InlineBinary(bytes@),
            PartBody::Message(bytes) => PartBodyView::Message(bytes@),
            PartBody::Multipart => PartBodyView::Multipart,
        }
    }
}

impl PartBodyView {
    /// How many bytes there are; a text counts in UTF-8, and parts count nothing.
    pub open spec fn size(self) -> nat {
        match self {
            PartBodyView::Text(text) => vstd::utf8::encode_utf8(text).len(),
            PartBodyView::Html(text) => vstd::utf8::encode_utf8(text).len(),
            PartBodyView::Binary(bytes) => bytes.len(),
            PartBodyView::InlineBinary(bytes) => bytes.len(),
            PartBodyView::Message(bytes) => bytes.len(),
            PartBodyView::Multipart => 0,
        }
    }
}

impl PartBody {
    /// How many bytes there are; a text counts in UTF-8, and parts count nothing.
    pub fn size(&self) -> (r: usize)
        ensures
            r == self@.size(),
    {
        match self {
            PartBody::Text(text) => text.as_str().as_bytes().len(),
            PartBody::Html(text) => text.as_str().as_bytes().len(),
            PartBody::Binary(bytes) => bytes.len(),
            PartBody::InlineBinary(bytes) => bytes.len(),
            PartBody::Message(bytes) => bytes.len(),
            PartBody::Multipart => 0,
        }
    }
}

/// An attached part of an email.
#[derive(Debug, PartialEq, Eq)]
pub struct MailPart {
    /// The file name.
    pub name: Option<String>,
    /// The type, such as `text`, and the subtype, such as `plain`.
    pub kind: Option<(String, Option<String>)>,
    /// What the part holds.
    pub body: PartBody,
}

/// The mathematical value of an attached part: name, type with subtype, and contents.
pub type MailPartView = (
    Option<Seq<char>>,
    Option<(Seq<char>, Option<Seq<char>>)>,
    PartBodyView,
);

impl View for MailPart {
    type V = MailPartView;

    open spec fn view(&self) -> MailPartView {
        (
            view_opt(self.name),
            match self.kind {
                Some((kind, subtype)) => Some((kind@, view_opt(subtype))),
                None => None,
            },
            self.body@,
        )
    }
}

/// The views of an optional list.
pub open spec fn opt_views<T: View>(items: Option<Vec<T>>) -> Option<Seq<T::V>> {
    match items {
        Some(items) => Some(views(items@)),
        None => None,
    }
}

/// Whether the bytes have the headers of an email.
pub uninterp spec fn mail_found(raw: Seq<u8>) -> bool;

/// The `Message-ID` of an email.
pub uninterp spec fn mail_message_id(raw: Seq<u8>) -> Option<Seq<char>>;

/// The `Subject` of an email.
pub uninterp spec fn mail_subject(raw: Seq<u8>) -> Option<Seq<char>>;

/// The `From` addresses of an email.
pub uninterp spec fn mail_from(raw: Seq<u8>) -> Option<Seq<(Option<Seq<char>>, Option<Seq<char>>)>>;

/// The `To` addresses of an email.
pub uninterp spec fn mail_to(raw: Seq<u8>) -> Option<Seq<(Option<Seq<char>>, Option<Seq<char>>)>>;

/// The `Cc` addresses of an email.
pub uninterp spec fn mail_cc(raw: Seq<u8>) -> Option<Seq<(Option<Seq<char>>, Option<Seq<char>>)>>;

/// The `Date` of an email in seconds since the Unix epoch.
pub uninterp spec fn mail_date(raw: Seq<u8>) -> Option<i64>;

/// The first body of an email as plain text.
pub uninterp spec fn mail_body_text(raw: Seq<u8>) -> Option<Seq<char>>;

/// The first body of an email as HTML.
pub uninterp spec fn mail_body_html(raw: Seq<u8>) -> Option<Seq<char>>;

/// The attached parts of an email.
pub uninterp spec fn mail_attachments(raw: Seq<u8>) -> Option<
    Seq<(Option<Seq<char>>, Option<(Seq<char>, Option<Seq<char>>)>, PartBodyView)>,
>;

/// The `References` of an email.
pub uninterp spec fn mail_references(raw: Seq<u8>) -> HeaderTextsView;

/// The `In-Reply-To` of an email.
pub uninterp spec fn mail_in_reply_to(raw: Seq<u8>) -> HeaderTextsView;

/// Whether `mail_parser::MessageParser::parse` finds headers: that depends on the bytes alone.
#[verifier::external_body]
fn call_parse(raw: &[u8]) -> (r: bool)
    ensures
        r == mail_found(raw@),
{
    MessageParser::default().parse(raw).is_some()
}

/// `mail_parser::Message::message_id` of the parsed bytes, which alone decide it.
#[verifier::external_body]
fn call_message_id(raw: &[u8]) -> (r: Option<String>)
    ensures
        view_opt(r) == mail_message_id(raw@),
{
    let message = MessageParser::default().parse(raw)?;
    message.message_id().map(str::to_owned)
}

/// `mail_parser::Message::subject` of the parsed bytes, which alone decide it.
#[verifier::external_body]
fn call_subject(raw: &[u8]) -> (r: Option<String>)
    ensures
        view_opt(r) == mail_subject(raw@),
{
    let message = MessageParser::default().parse(raw)?;
    message.subject().map(str::to_owned)
}

/// `mail_parser::Message::from` of the parsed bytes, which alone decide it: the addresses in order,
/// those of groups too.
#[verifier::external_body]
fn call_from(raw: &[u8]) -> (r: Option<Vec<HeaderAddress>>)
    ensures
        opt_views(r) == mail_from(raw@),
{
    let message = MessageParser::default().parse(raw)?;
    let found = message.from()?.iter().map(|entry| HeaderAddress {
        name: entry.name().map(str::to_owned),
        address: entry.address().map(str::to_owned),
    });
    Some(found.collect())
}

/// `mail_parser::Message::to` of the parsed bytes, which alone decide it: the addresses in order,
/// those of groups too.
#[verifier::external_body]
fn call_to(raw: &[u8]) -> (r: Option<Vec<HeaderAddress>>)
    ensures
        opt_views(r) == mail_to(raw@),
{
    let message = MessageParser::default().parse(raw)?;
    let found = message.to()?.iter().map(|entry| HeaderAddress {
        name: entry.name().map(str::to_owned),
        address: entry.address().map(str::to_owned),
    });
    Some(found.collect())
}

/// `mail_parser::Message::cc` of the parsed bytes, which alone decide it: the addresses in order,
/// those of groups too.
#[verifier::external_body]
fn call_cc(raw: &[u8]) -> (r: Option<Vec<HeaderAddress>>)
    ensures
        opt_views(r) == mail_cc(raw@),
{
    let message = MessageParser::default().parse(raw)?;
    let found = message.cc()?.iter().map(|entry| HeaderAddress {
        name: entry.name().map(str::to_owned),
        address: entry.address().map(str::to_owned),
    });
    Some(found.collect())
}

/// `mail_parser::Message::date` of the parsed bytes, which alone decide it, in the seconds of
/// `mail_parser::DateTime::to_timestamp`.
#[verifier::external_body]
fn call_date(raw: &[u8]) -> (r: Option<i64>)
    ensures
        r == mail_date(raw@),
{
    let message = MessageParser::default().parse(raw)?;
    message.date().map(|date| date.to_timestamp())
}

/// `mail_parser::Message::body_text` for the first body of the parsed bytes, which alone decide it.
#[verifier::external_body]
fn call_body_text(raw: &[u8]) -> (r: Option<String>)
    ensures
        view_opt(r) == mail_body_text(raw@),
{
    let message = MessageParser::default().parse(raw)?;
    message.body_text(0).map(|body| body.into_owned())
}

/// `mail_parser::Message::body_html` for the first body of the parsed bytes, which alone decide it.
#[verifier::external_body]
fn call_body_html(raw: &[u8]) -> (r: Option<String>)
    ensures
        view_opt(r) == mail_body_html(raw@),
{
    let message = MessageParser::default().parse(raw)?;
    message.body_html(0).map(|body| body.into_owned())
}

/// `mail_parser::Message::attachments` of the parsed bytes, which alone decide it: of each part the
/// file name, the type and subtype, and what it holds; of a part that is an email, the bytes of
/// `mail_parser::Message::raw_message`.
#[verifier::external_body]
fn call_attachments(raw: &[u8]) -> (r: Option<Vec<MailPart>>)
    ensures
        opt_views(r) == mail_attachments(raw@),
{
    let message = MessageParser::default().parse(raw)?;
    Some(message.attachments().map(|part| MailPart {
        name: part.attachment_name().map(str::to_owned),
        kind: part.content_type().map(|kind| {
            (kind.ctype().to_owned(), kind.subtype().map(str::to_owned))
        }),
        body: match &part.body {
            Text(text) => PartBody::Text(text.to_string()),
            Html(text) => PartBody::Html(text.to_string()),
            Binary(bytes) => PartBody::Binary(bytes.to_vec()),
            InlineBinary(bytes) => PartBody::InlineBinary(bytes.to_vec()),
            Message(inner) => PartBody::Message(inner.raw_message().to_vec()),
            Multipart(_) => PartBody::Multipart,
        },
    }).collect())
}

/// `mail_parser::Message::references` of the parsed bytes, which alone decide it.
#[verifier::external_body]
fn call_references(raw: &[u8]) -> (r: HeaderTexts)
    ensures
        r@ == mail_references(raw@),
{
    let message = MessageParser::default().parse(raw);
    match message.as_ref().map(|message| message.references()) {
        Some(HeaderValue::Text(text)) => HeaderTexts::One(text.to_string()),
        Some(HeaderValue::TextList(texts)) => {
            HeaderTexts::Many(texts.iter().map(|text| text.to_string()).collect())
        },
        _ => HeaderTexts::Other,
    }
}

/// `mail_parser::Message::in_reply_to` of the parsed bytes, which alone decide it.
#[verifier::external_body]
fn call_in_reply_to(raw: &[u8]) -> (r: HeaderTexts)
    ensures
        r@ == mail_in_reply_to(raw@),
{
    let message = MessageParser::default().parse(raw);
    match message.as_ref().map(|message| message.in_reply_to()) {
        Some(HeaderValue::Text(text)) => HeaderTexts::One(text.to_string()),
        Some(HeaderValue::TextList(texts)) => {
            HeaderTexts::Many(texts.iter().map(|text| text.to_string()).collect())
        },
        _ => HeaderTexts::Other,
    }
}

/// What an email parser finds in an email.
#[derive(Debug, PartialEq, Eq)]
pub struct ParsedMail {
    pub message_id: Option<String>,
    pub subject: Option<String>,
    pub from: Option<Vec<HeaderAddress>>,
    pub to: Option<Vec<HeaderAddress>>,
    pub cc: Option<Vec<HeaderAddress>>,
    /// Seconds since the Unix epoch.
    pub date: Option<i64>,
    pub body_text: Option<String>,
    pub body_html: Option<String>,
    pub attachments: Option<Vec<MailPart>>,
    pub references: HeaderTexts,
    pub in_reply_to: HeaderTexts,
}

/// The mathematical value of a parsed email.
#[verifier::ext_equal]
pub struct ParsedMailView {
    pub message_id: Option<Seq<char>>,
    pub subject: Option<Seq<char>>,
    pub from: Option<Seq<HeaderAddressView>>,
    pub to: Option<Seq<HeaderAddressView>>,
    pub cc: Option<Seq<HeaderAddressView>>,
    pub date: Option<i64>,
    pub body_text: Option<Seq<char>>,
    pub body_html: Option<Seq<char>>,
    pub attachments: Option<Seq<MailPartView>>,
    pub references: HeaderTextsView,
    pub in_reply_to: HeaderTextsView,
}

impl View for ParsedMail {
    type V = ParsedMailView;

    open spec fn view(&self) -> ParsedMailView {
        ParsedMailView {
            message_id: view_opt(self.message_id),
            subject: view_opt(self.subject),
            from: opt_views(self.from),
            to: opt_views(self.to),
            cc: opt_views(self.cc),
            date: self.date,
            body_text: view_opt(self.body_text),
            body_html: view_opt(self.body_html),
            attachments: opt_views(self.attachments),
            references: self.references@,
            in_reply_to: self.in_reply_to@,
        }
    }
}

/// What the email parser finds in some bytes.
pub open spec fn mail_of(raw: Seq<u8>) -> ParsedMailView {
    ParsedMailView {
        message_id: mail_message_id(raw),
        subject: mail_subject(raw),
        from: mail_from(raw),
        to: mail_to(raw),
        cc: mail_cc(raw),
        date: mail_date(raw),
        body_text: mail_body_text(raw),
        body_html: mail_body_html(raw),
        attachments: mail_attachments(raw),
        references: mail_references(raw),
        in_reply_to: mail_in_reply_to(raw),
    }
}

/// The source identifier of an email that has none: made of its bytes.
pub open spec fn content_id(raw: Seq<u8>) -> Seq<char> {
    "uuid-v5:"@ + uuid_text(uuid_v5(UUID_NAMESPACE, raw))
}

/// The addresses of a header that have an address.
pub open spec fn complete_addresses(found: Seq<HeaderAddressView>) -> Seq<EmailAddressView>
    decreases found.len(),
{
    if found.len() == 0 {
        seq![]
    } else {
        let front = complete_addresses(found.drop_last());
        match found.last().1 {
            Some(address) => front.push(EmailAddressView { name: found.last().0, address }),
            None => front,
        }
    }
}

/// The addresses of a header that may be absent.
pub open spec fn header_addresses(found: Option<Seq<HeaderAddressView>>) -> Seq<EmailAddressView> {
    match found {
        Some(found) => complete_addresses(found),
        None => seq![],
    }
}

/// The texts of a header in a list.
pub open spec fn header_text_list(texts: HeaderTextsView) -> Seq<Seq<char>> {
    match texts {
        HeaderTextsView::One(text) => seq![text],
        HeaderTextsView::Many(texts) => texts,
        HeaderTextsView::Other => seq![],
    }
}

/// The attachment that a part of an email is.
pub open spec fn part_attachment(source_id: Seq<char>, index: int, part: MailPartView) -> AttachmentView {
    AttachmentView {
        mime_type: match part.1 {
            Some((kind, Some(subtype))) => kind + "/"@ + subtype,
            Some((kind, None)) => kind,
            None => "application/octet-stream"@,
        },
        url: "email:message:"@ + source_id + ":attachment:"@ + decimal(index),
        filename: part.0,
        size: Some(part.2.size() as u64),
    }
}

/// The attachments that the parts of an email are.
pub open spec fn part_attachments(source_id: Seq<char>, parts: Option<Seq<MailPartView>>) -> Seq<
    AttachmentView,
> {
    match parts {
        Some(parts) => Seq::new(parts.len(), |i: int| part_attachment(source_id, i, parts[i])),
        None => seq![],
    }
}

/// The date of an email, or the present where it has none that the calendar holds.
pub open spec fn date_or(date: Option<i64>, now: Timestamp) -> Timestamp {
    match date {
        Some(secs) => if MIN_SECS <= secs <= MAX_SECS {
            Timestamp::at(secs, 0)
        } else {
            now
        },
        None => now,
    }
}

/// The envelope of a parsed email; `fallback` identifies an email without a message identifier.
pub open spec fn envelope_of(mail: ParsedMailView, fallback: Seq<char>, now: Timestamp) -> EmailEnvelopeView {
    let source_id = match mail.message_id {
        Some(id) => id,
        None => fallback,
    };
    let replied = header_text_list(mail.in_reply_to);
    EmailEnvelopeView {
        source_id,
        subject: mail.subject,
        from: header_addresses(mail.from),
        to: header_addresses(mail.to),
        cc: header_addresses(mail.cc),
        date: date_or(mail.date, now),
        body: match mail.body_text {
            Some(body) => body,
            None => match mail.body_html {
                Some(body) => body,
                None => seq![],
            },
        },
        attachments: part_attachments(source_id, mail.attachments),
        references: header_text_list(mail.references),
        in_reply_to: if replied.len() > 0 {
            Some(replied[0])
        } else {
            None
        },
    }
}

fn addresses(found: Option<Vec<HeaderAddress>>) -> (r: Vec<EmailAddress>)
    ensures
        views(r@) == header_addresses(opt_views(found)),
{
    let mut out: Vec<EmailAddress> = Vec::new();
    assert(views(out@) =~= seq![]);
    if let Some(found) = found {
        let ghost all = views(found@);
        assert(all.take(0) =~= seq![]);
        for entry in it: found
            invariant
                it.seq() == found@,
                all == views(found@),
                views(out@) == complete_addresses(all.take(it.index())),
        {
            let ghost known = out@;
            proof {
                let next = all.take(it.index() + 1);
                assert(next.drop_last() =~= all.take(it.index()));
                assert(next.last() == entry@);
            }
            if let Some(address) = entry.address {
                let complete = EmailAddress { name: entry.name, address };
                let ghost added = complete@;
                out.push(complete);
                assert(views(out@) =~= views(known).push(added));
            }
        }
        assert(all.take(all.len() as int) =~= all);
    }
    out
}

/// The texts of a header in a list.
pub fn header_text_values(texts: HeaderTexts) -> (r: Vec<String>)
    ensures
        views(r@) == header_text_list(texts@),
{
    match texts {
        HeaderTexts::One(text) => {
            let mut out: Vec<String> = Vec::new();
            out.push(text);
            assert(views(out@) =~= seq![text@]);
            out
        },
        HeaderTexts::Many(texts) => texts,
        HeaderTexts::Other => {
            let out: Vec<String> = Vec::new();
            assert(views(out@) =~= seq![]);
            out
        },
    }
}

/// The attachment that a part of an email is.
pub fn attachment_from_part(source_id: &str, index: usize, part: MailPart) -> (r: Attachment)
    ensures
        r@ == part_attachment(source_id@, index as int, part@),
        random_id(r.id.value),
{
    let mime_type = match part.kind {
        Some((kind, Some(subtype))) => {
            let mut out = prefixed(kind.as_str(), "/");
            out.append(subtype.as_str());
            out
        },
        Some((kind, None)) => kind,
        None => "application/octet-stream".to_owned(),
    };
    let mut url = prefixed("email:message:", source_id);
    url.append(":attachment:");
    url.append(unsigned_text(index as u64).as_str());
    Attachment {
        id: Uuid::fresh(),
        mime_type,
        url,
        filename: part.name,
        size: Some(part.body.size() as u64),
    }
}

fn attachments_from(source_id: &str, parts: Option<Vec<MailPart>>) -> (r: Vec<Attachment>)
    ensures
        views(r@) == part_attachments(source_id@, opt_views(parts)),
        randomly_named(r@),
{
    let mut out: Vec<Attachment> = Vec::new();
    if let Some(parts) = parts {
        let ghost all = views(parts@);
        let mut index: usize = 0;
        let n: usize = parts.len();
        for part in it: parts
            invariant
                it.seq() == parts@,
                all == views(parts@),
                n == parts@.len(),
                index == it.index(),
                out@.len() == index,
                forall|j: int|
                    0 <= j < index ==> (#[trigger] out@[j])@ == part_attachment(
                        source_id@,
                        j,
                        all[j],
                    ),
                randomly_named(out@),
        {
            assert(all[index as int] == part@);
            out.push(attachment_from_part(source_id, index, part));
            index += 1;
        }
        assert(views(out@) =~= part_attachments(source_id@, Some(all)));
    } else {
        assert(views(out@) =~= seq![]);
    }
    out
}

/// The envelope of a parsed email; `fallback` identifies an email without a message identifier.
pub fn envelope_from(mail: ParsedMail, fallback: String, now: Timestamp) -> (r: EmailEnvelope)
    ensures
        r@ == envelope_of(mail@, fallback@, now),
        randomly_named(r.attachments@),
{
    let source_id = match mail.message_id {
        Some(id) => id,
        None => fallback,
    };
    let attachments = attachments_from(source_id.as_str(), mail.attachments);
    let mut replied = header_text_values(mail.in_reply_to);
    let ghost all = views(replied@);
    let in_reply_to = if replied.len() > 0 {
        assert(all[0] == replied@[0]@);
        Some(replied.remove(0))
    } else {
        None
    };
    let date = match mail.date {
        Some(secs) => match Timestamp::from_seconds(secs) {
            Some(at) => at,
            None => now,
        },
        None => now,
    };
    let body = match mail.body_text {
        Some(body) => body,
        None => match mail.body_html {
            Some(body) => body,
            None => String::new(),
        },
    };
    assert(body@ =~= envelope_of(mail@, fallback@, now).body);
    EmailEnvelope {
        source_id,
        subject: mail.subject,
        from: addresses(mail.from),
        to: addresses(mail.to),
        cc: addresses(mail.cc),
        date,
        body,
        attachments,
        references: header_text_values(mail.references),
        in_reply_to,
    }
}

/// Where a character last occurs: its index, or -1.
pub open spec fn last_index(s: Seq<char>, c: char) -> int
    decreases s.len(),
{
    if s.len() == 0 {
        -1
    } else if s.last() == c {
        s.len() - 1
    } else {
        last_index(s.drop_last(), c)
    }
}

/// The address that an item of an address list stands for.
pub open spec fn address_of(item: Seq<char>) -> EmailAddressView {
    let at = last_index(item, '<');
    if 0 <= at < item.len() {
        let name = without_trailing(without_leading(trimmed(item.take(at)), '"'), '"');
        EmailAddressView {
            name: if name.len() == 0 {
                None
            } else {
                Some(name)
            },
            address: trimmed(without_trailing(item.skip(at + 1), '>')),
        }
    } else {
        EmailAddressView { name: None, address: item }
    }
}

/// The addresses of the items of an address list that are not blank.
pub open spec fn listed_addresses(items: Seq<Seq<char>>) -> Seq<EmailAddressView>
    decreases items.len(),
{
    if items.len() == 0 {
        seq![]
    } else {
        let front = listed_addresses(items.drop_last());
        let item = trimmed(items.last());
        if item.len() == 0 {
            front
        } else {
            front.push(address_of(item))
        }
    }
}

fn parse_address(item: &str) -> (r: EmailAddress)
    ensures
        r@ == address_of(item@),
{
    let chars = chars_of(item);
    let n: usize = chars.len();
    let mut end: usize = n;
    assert(item@.take(item@.len() as int) =~= item@);
    while end > 0 && chars[end - 1] != '<'
        invariant
            end <= chars@.len(),
            chars@ == item@,
            last_index(item@, '<') == last_index(item@.take(end as int), '<'),
        decreases end,
    {
        assert(item@.take(end as int).drop_last() =~= item@.take(end - 1));
        end -= 1;
    }
    if end > 0 {
        assert(last_index(item@, '<') == end - 1);
        assert(item@.subrange(0, end - 1) =~= item@.take(end - 1));
        assert(item@.subrange(end as int, n as int) =~= item@.skip(end as int));
        let before = trim(item.substring_char(0, end - 1));
        let name = trim_trailing(trim_leading(before.as_str(), '"'), '"');
        let address = trim(trim_trailing(item.substring_char(end, n), '>'));
        EmailAddress {
            name: if name.is_empty() {
                None
            } else {
                Some(name.to_owned())
            },
            address,
        }
    } else {
        EmailAddress { name: None, address: item.to_owned() }
    }
}

/// Reads a comma-separated list of addresses.
pub fn parse_address_list(input: &str) -> (r: Vec<EmailAddress>)
    ensures
        views(r@) == listed_addresses(split_on(input@, ',')),
{
    let items = split_char(input, ',');
    let ghost all = views(items@);
    let mut out: Vec<EmailAddress> = Vec::new();
    let mut i: usize = 0;
    assert(all.take(0) =~= seq![]);
    assert(views(out@) =~= seq![]);
    while i < items.len()
        invariant
            i <= items@.len(),
            all == views(items@),
            views(out@) == listed_addresses(all.take(i as int)),
        decreases items@.len() - i,
    {
        let ghost known = out@;
        proof {
            let next = all.take(i + 1);
            assert(next.drop_last() =~= all.take(i as int));
            assert(next.last() == items@[i as int]@);
        }
        let item = trim(items[i].as_str());
        if !item.as_str().is_empty() {
            let address = parse_address(item.as_str());
            let ghost added = address@;
            out.push(address);
            assert(views(out@) =~= views(known).push(added));
        }
        i += 1;
    }
    assert(all.take(all.len() as int) =~= all);
    out
}

/// The values of headers under their lower-case names, in the order of the names.
pub type HeadersView = Seq<(Seq<char>, Seq<Seq<char>>)>;

/// The views of headers.
pub open spec fn header_views(headers: Seq<(String, Vec<String>)>) -> HeadersView {
    headers.map_values(|header: (String, Vec<String>)| (header.0@, views(header.1@)))
}

/// Whether a line continues the one before it.
pub open spec fn continues(line: Seq<char>) -> bool {
    line.len() > 0 && (line[0] == ' ' || line[0] == '\t')
}

/// The values with a continuation line behind the last one.
pub open spec fn continued(values: Seq<Seq<char>>, line: Seq<char>) -> Seq<Seq<char>> {
    if values.len() == 0 {
        values
    } else {
        values.drop_last().push(values.last() + " "@ + trimmed(line))
    }
}

/// The headers that some lines make, and the name of the last one.
pub open spec fn headers_of(lines: Seq<Seq<char>>) -> (HeadersView, Option<Seq<char>>)
    decreases lines.len(),
{
    if lines.len() == 0 {
        (seq![], None)
    } else {
        let (headers, current) = headers_of(lines.drop_last());
        let line = lines.last();
        let colon = first_index(line, ':');
        if continues(line) {
            match current {
                Some(name) => if holds(headers, name) {
                    let at = placed(headers, name);
                    (headers.update(at, (name, continued(headers[at].1, line))), current)
                } else {
                    (headers, current)
                },
                None => (headers, current),
            }
        } else if line.contains(':') {
            let name = lowered_ascii(trimmed(line.take(colon)));
            let value = trimmed(line.skip(colon + 1));
            let at = placed(headers, name);
            if holds(headers, name) {
                (headers.update(at, (name, headers[at].1.push(value))), Some(name))
            } else {
                (headers.insert(at, (name, seq![value])), Some(name))
            }
        } else {
            (headers, current)
        }
    }
}

/// The first value of a header.
pub open spec fn first_value(headers: HeadersView, name: Seq<char>) -> Option<Seq<char>> {
    match find(headers, name) {
        Some(values) => if values.len() > 0 {
            Some(values[0])
        } else {
            None
        },
        None => None,
    }
}

fn take_header(headers: &mut Vec<(String, Vec<String>)>, name: &str) -> (r: (
    usize,
    Option<Vec<String>>,
))
    ensures
        r.0 == placed(header_views(old(headers)@), name@),
        r.0 <= final(headers)@.len(),
        r.1 is Some <==> holds(header_views(old(headers)@), name@),
        r.1 matches Some(values) ==> header_views(old(headers)@)[r.0 as int] == (
            name@,
            views(values@),
        ) && r.0 < old(headers)@.len() && header_views(final(headers)@) == header_views(
            old(headers)@,
        ).remove(r.0 as int),
        r.1 is None ==> final(headers)@ == old(headers)@,
{
    let ghost given = headers@;
    proof {
        lemma_placed(pairs_of(given), header_views(given), name@);
    }
    let r = take_value(headers, name);
    if r.1.is_some() {
        assert(header_views(headers@) =~= header_views(given).remove(r.0 as int));
    }
    r
}

fn put_header(headers: &mut Vec<(String, Vec<String>)>, at: usize, name: String, values: Vec<String>)
    requires
        at <= old(headers)@.len(),
    ensures
        header_views(final(headers)@) == header_views(old(headers)@).insert(
            at as int,
            (name@, views(values@)),
        ),
{
    let ghost given = headers@;
    headers.insert(at, (name, values));
    assert(header_views(headers@) =~= header_views(given).insert(at as int, (name@, views(values@))));
}

fn is_continuation(line: &str) -> (r: bool)
    ensures
        r == continues(line@),
{
    let chars = chars_of(line);
    chars.len() > 0 && (chars[0] == ' ' || chars[0] == '\t')
}

/// Reads header lines: a name and a value around a colon, and lines that continue the one before.
pub fn parse_headers(input: &str) -> (r: Vec<(String, Vec<String>)>)
    ensures
        header_views(r@) == headers_of(lines_of(input@)).0,
{
    let lines = lines(input);
    let ghost all = views(lines@);
    let mut headers: Vec<(String, Vec<String>)> = Vec::new();
    let mut current: Option<String> = None;
    let mut i: usize = 0;
    assert(all.take(0) =~= seq![]);
    assert(header_views(headers@) =~= seq![]);
    while i < lines.len()
        invariant
            i <= lines@.len(),
            all == views(lines@),
            (header_views(headers@), view_opt(current)) == headers_of(all.take(i as int)),
        decreases lines@.len() - i,
    {
        let line = lines[i].as_str();
        proof {
            let next = all.take(i + 1);
            assert(next.drop_last() =~= all.take(i as int));
            assert(next.last() == line@);
            lemma_first_index(line@, ':');
        }
        let ghost before = header_views(headers@);
        if is_continuation(line) {
            if let Some(name) = &current {
                let (at, found) = take_header(&mut headers, name.as_str());
                if let Some(values) = found {
                    let mut values = values;
                    let ghost known = values@;
                    if values.len() > 0 {
                        let last = values.pop();
                        let mut text = match last {
                            Some(text) => text,
                            None => String::new(),
                        };
                        text.append(" ");
                        text.append(trim(line).as_str());
                        values.push(text);
                    }
                    assert(views(values@) =~= continued(views(known), line@));
                    let ghost longer = views(values@);
                    put_header(&mut headers, at, name.clone(), values);
                    assert(header_views(headers@) =~= before.update(at as int, (name@, longer)));
                }
            }
        } else if let Some((name, value)) = split_once(line, ':') {
            let name = ascii_lowercase(trim(name).as_str());
            let value = trim(value);
            let ghost added = value@;
            let (at, found) = take_header(&mut headers, name.as_str());
            match found {
                Some(values) => {
                    let mut values = values;
                    let ghost known = views(values@);
                    values.push(value);
                    assert(views(values@) =~= known.push(added));
                    put_header(&mut headers, at, name.clone(), values);
                    assert(header_views(headers@) =~= before.update(
                        at as int,
                        (name@, known.push(added)),
                    ));
                },
                None => {
                    let mut values: Vec<String> = Vec::new();
                    values.push(value);
                    assert(views(values@) =~= seq![added]);
                    put_header(&mut headers, at, name.clone(), values);
                },
            }
            current = Some(name);
        }
        i += 1;
    }
    assert(all.take(all.len() as int) =~= all);
    headers
}

/// The first value of a header.
pub fn first_header(headers: &Vec<(String, Vec<String>)>, name: &str) -> (r: Option<String>)
    ensures
        view_opt(r) == first_value(header_views(headers@), name@),
{
    let ghost all = header_views(headers@);
    let mut i: usize = 0;
    assert(all.skip(0) =~= all);
    while i < headers.len()
        invariant
            i <= headers@.len(),
            all == header_views(headers@),
            find(all, name@) == find(all.skip(i as int), name@),
        decreases headers@.len() - i,
    {
        assert(all.skip(i as int)[0] == all[i as int]);
        if str_eq(headers[i].0.as_str(), name) {
            if headers[i].1.len() > 0 {
                assert(all[i as int].1[0] == headers@[i as int].1@[0]@);
                return Some(headers[i].1[0].clone());
            }
            return None;
        }
        assert(all.skip(i as int).drop_first() =~= all.skip(i + 1));
        i += 1;
    }
    None
}

/// What stands before and after the first empty line.
pub open spec fn headers_and_body(input: Seq<char>) -> (Seq<char>, Seq<char>) {
    match find_text(input, "\r\n\r\n"@) {
        Some(at) => (input.take(at), input.skip(at + 4)),
        None => match find_text(input, "\n\n"@) {
            Some(at) => (input.take(at), input.skip(at + 2)),
            None => (input, seq![]),
        },
    }
}

/// What stands before and after the first empty line.
pub fn split_headers_body<'a>(input: &'a str) -> (r: (&'a str, &'a str))
    ensures
        (r.0@, r.1@) == headers_and_body(input@),
{
    proof {
        reveal_strlit("\r\n\r\n");
        reveal_strlit("\n\n");
        reveal_strlit("");
        assert(""@ =~= seq![]);
    }
    match split_once_text(input, "\r\n\r\n") {
        Some(parts) => parts,
        None => match split_once_text(input, "\n\n") {
            Some(parts) => parts,
            None => (input, ""),
        },
    }
}

/// A text that may be absent, then empty.
pub open spec fn or_empty(text: Option<Seq<char>>) -> Seq<char> {
    match text {
        Some(text) => text,
        None => seq![],
    }
}

/// The point in time that an RFC 2822 date names, or the present.
pub open spec fn header_date(text: Option<Seq<char>>, now: Timestamp) -> Timestamp {
    match text {
        Some(text) => match rfc2822_parsed(text) {
            Some(point) => Timestamp::at(point.0, point.1),
            None => now,
        },
        None => now,
    }
}

/// The envelope that is read from a text as far as it has headers.
pub open spec fn lossy_envelope(text: Seq<char>, fallback: Seq<char>, now: Timestamp) -> EmailEnvelopeView {
    let (head, body) = headers_and_body(text);
    let headers = headers_of(lines_of(head)).0;
    EmailEnvelopeView {
        source_id: match first_value(headers, "message-id"@) {
            Some(id) => id,
            None => fallback,
        },
        subject: first_value(headers, "subject"@),
        from: listed_addresses(split_on(or_empty(first_value(headers, "from"@)), ',')),
        to: listed_addresses(split_on(or_empty(first_value(headers, "to"@)), ',')),
        cc: listed_addresses(split_on(or_empty(first_value(headers, "cc"@)), ',')),
        date: header_date(first_value(headers, "date"@), now),
        body: trimmed(body),
        attachments: seq![],
        references: match first_value(headers, "references"@) {
            Some(value) => words_of(value),
            None => seq![],
        },
        in_reply_to: first_value(headers, "in-reply-to"@),
    }
}

fn header_address_list(headers: &Vec<(String, Vec<String>)>, name: &str) -> (r: Vec<EmailAddress>)
    ensures
        views(r@) == listed_addresses(
            split_on(or_empty(first_value(header_views(headers@), name@)), ','),
        ),
{
    match first_header(headers, name) {
        Some(value) => parse_address_list(value.as_str()),
        None => {
            let empty = String::new();
            assert(empty@ =~= seq![]);
            parse_address_list(empty.as_str())
        },
    }
}

/// The source identifier of an email that has none: made of its bytes.
pub fn content_source_id(raw: &[u8]) -> (r: String)
    ensures
        r@ == content_id(raw@),
{
    prefixed("uuid-v5:", Uuid::of_bytes(UUID_NAMESPACE, raw).text().as_str())
}

/// Reads an email in which no parser found headers, as far as it goes.
pub fn parse_lossy_email(raw: &[u8], now: Timestamp) -> (r: EmailEnvelope)
    ensures
        r@ == lossy_envelope(lossy_text(raw@), content_id(raw@), now),
        randomly_named(r.attachments@),
{
    let text = decode_lossy(raw);
    let (head, body) = split_headers_body(text.as_str());
    let headers = parse_headers(head);
    let source_id = match first_header(&headers, "message-id") {
        Some(id) => id,
        None => content_source_id(raw),
    };
    let date = match first_header(&headers, "date") {
        Some(value) => match Timestamp::parse_rfc2822(value.as_str()) {
            Some(at) => at,
            None => now,
        },
        None => now,
    };
    let references = match first_header(&headers, "references") {
        Some(value) => words(value.as_str()),
        None => {
            let none: Vec<String> = Vec::new();
            assert(views(none@) =~= seq![]);
            none
        },
    };
    let attachments: Vec<Attachment> = Vec::new();
    assert(views(attachments@) =~= seq![]);
    let r = EmailEnvelope {
        source_id,
        subject: first_header(&headers, "subject"),
        from: header_address_list(&headers, "from"),
        to: header_address_list(&headers, "to"),
        cc: header_address_list(&headers, "cc"),
        date,
        body: trim(body),
        attachments,
        references,
        in_reply_to: first_header(&headers, "in-reply-to"),
    };
    proof {
        lemma_timestamp_whole(date);
    }
    r
}

/// What an email's bytes say.
pub open spec fn email_of(raw: Seq<u8>, now: Timestamp) -> EmailEnvelopeView {
    if mail_found(raw) {
        envelope_of(mail_of(raw), content_id(raw), now)
    } else {
        lossy_envelope(lossy_text(raw), content_id(raw), now)
    }
}

/// Reads an email; one without a date is dated to the present.
pub fn parse_email(raw: &[u8], now: Timestamp) -> (r: EmailEnvelope)
    ensures
        r@ == email_of(raw@, now),
        randomly_named(r.attachments@),
{
    if !call_parse(raw) {
        return parse_lossy_email(raw, now);
    }
    let mail = ParsedMail {
        message_id: call_message_id(raw),
        subject: call_subject(raw),
        from: call_from(raw),
        to: call_to(raw),
        cc: call_cc(raw),
        date: call_date(raw),
        body_text: call_body_text(raw),
        body_html: call_body_html(raw),
        attachments: call_attachments(raw),
        references: call_references(raw),
        in_reply_to: call_in_reply_to(raw),
    };
    envelope_from(mail, content_source_id(raw), now)
}

/// The addresses of a header are those of its entries that hold one, in their order, with the names
/// they are given.
pub proof fn law_entries_without_an_address_are_left_out(found: Seq<HeaderAddressView>)
    ensures
        header_addresses(Some(found)) == found.filter(
            |entry: HeaderAddressView| entry.1 is Some,
        ).map_values(
            |entry: HeaderAddressView| EmailAddressView { name: entry.0, address: entry.1->0 },
        ),
        header_addresses(None).len() == 0,
    decreases found.len(),
{
    reveal(Seq::filter);
    let ok = |entry: HeaderAddressView| entry.1 is Some;
    let f = |entry: HeaderAddressView| EmailAddressView { name: entry.0, address: entry.1->0 };
    if found.len() > 0 {
        law_entries_without_an_address_are_left_out(found.drop_last());
        if ok(found.last()) {
            assert(found.filter(ok).map_values(f) =~= found.drop_last().filter(ok).map_values(
                f,
            ).push(f(found.last())));
        }
    } else {
        assert(found.filter(ok).map_values(f) =~= seq![]);
    }
}

/// An envelope says what the mail says: the identifier that the mail bears or else the fallback,
/// the plain body before the marked up one, the first identifier that it answers, and its own date,
/// or the present where it has none that the calendar holds.
pub proof fn law_an_envelope_says_what_the_mail_says(
    mail: ParsedMailView,
    fallback: Seq<char>,
    now: Timestamp,
)
    ensures
        ({
            let e = envelope_of(mail, fallback, now);
            &&& mail.message_id matches Some(id) ==> e.source_id == id
            &&& mail.message_id is None ==> e.source_id == fallback
            &&& e.subject == mail.subject
            &&& e.from == header_addresses(mail.from)
            &&& e.to == header_addresses(mail.to)
            &&& e.cc == header_addresses(mail.cc)
            &&& mail.body_text matches Some(body) ==> e.body == body
            &&& mail.body_text is None ==> (mail.body_html matches Some(body) ==> e.body == body)
            &&& mail.body_text is None && mail.body_html is None ==> e.body.len() == 0
            &&& mail.date matches Some(secs) ==> MIN_SECS <= secs <= MAX_SECS ==> e.date.secs()
                == secs && e.date.nanos() == 0
            &&& mail.date matches Some(secs) ==> !(MIN_SECS <= secs <= MAX_SECS) ==> e.date == now
            &&& mail.date is None ==> e.date == now
            &&& mail.references matches HeaderTextsView::One(id) ==> e.references == seq![id]
            &&& mail.references matches HeaderTextsView::Many(ids) ==> e.references == ids
            &&& mail.references is Other ==> e.references.len() == 0
            &&& mail.in_reply_to matches HeaderTextsView::One(id) ==> e.in_reply_to == Some(id)
            &&& mail.in_reply_to matches HeaderTextsView::Many(ids) ==> ids.len() > 0
                ==> e.in_reply_to == Some(ids[0])
            &&& mail.in_reply_to matches HeaderTextsView::Many(ids) ==> ids.len() == 0
                ==> e.in_reply_to is None
            &&& mail.in_reply_to is Other ==> e.in_reply_to is None
        }),
{
    if let Some(secs) = mail.date {
        law_a_point_is_made_of_its_parts(secs, 0);
    }
}

/// Every part that a mail attaches becomes an attachment at its place, with its own name, type and
/// number of bytes, to be found by the identifier of the mail and its place.
pub proof fn law_every_part_is_attached(mail: ParsedMailView, fallback: Seq<char>, now: Timestamp)
    ensures
        ({
            let e = envelope_of(mail, fallback, now);
            &&& mail.attachments is None ==> e.attachments.len() == 0
            &&& mail.attachments matches Some(parts) ==> {
                &&& e.attachments.len() == parts.len()
                &&& forall|i: int|
                    0 <= i < parts.len() ==> {
                        let a = #[trigger] e.attachments[i];
                        &&& a.url == "email:message:"@ + e.source_id + ":attachment:"@ + decimal(i)
                        &&& a.filename == parts[i].0
                        &&& parts[i].1 matches Some((kind, Some(subtype))) ==> a.mime_type == kind
                            + "/"@ + subtype
                        &&& parts[i].1 matches Some((kind, None)) ==> a.mime_type == kind
                        &&& parts[i].1 is None ==> a.mime_type == "application/octet-stream"@
                        &&& a.size == Some(parts[i].2.size() as u64)
                    }
            }
        }),
{
}

/// An address stands between the last opening bracket of an entry and the closing one behind it,
/// and what comes before is the name, without quotation marks; an entry without a bracket is the
/// address.
pub proof fn law_addresses_stand_in_brackets(name: Seq<char>, address: Seq<char>)
    ensures
        !address.contains('<') ==> address_of(address) == (EmailAddressView {
            name: None,
            address,
        }),
        !address.contains('<') && (address.len() == 0 || address.last() != '>') ==> {
            let found = address_of(name + seq!['<'] + address + seq!['>']);
            let bare = without_trailing(without_leading(trimmed(name), '"'), '"');
            &&& found.address == trimmed(address)
            &&& bare.len() > 0 ==> found.name == Some(bare)
            &&& bare.len() == 0 ==> found.name is None
        },
{
    lemma_last_index(address, '<', -1);
    let item = name + seq!['<'] + address + seq!['>'];
    if !address.contains('<') {
        assert forall|k: int| name.len() < k < item.len() implies #[trigger] item[k] != '<' by {
            if k < item.len() - 1 {
                assert(item[k] == address[k - name.len() - 1]);
            }
        }
        lemma_last_index(item, '<', name.len() as int);
        assert(item.take(name.len() as int) =~= name);
        let behind = item.skip(name.len() as int + 1);
        assert(behind =~= address.push('>'));
        assert(behind.drop_last() =~= address);
        reveal_with_fuel(without_trailing, 2);
    }
}

proof fn lemma_last_index(s: Seq<char>, c: char, at: int)
    requires
        -1 <= at < s.len(),
    ensures
        !s.contains(c) ==> last_index(s, c) == -1,
        at >= 0 && s[at] == c && (forall|k: int| at < k < s.len() ==> #[trigger] s[k] != c)
            ==> last_index(s, c) == at,
    decreases s.len(),
{
    if s.len() > 0 {
        let front = s.drop_last();
        assert(s[s.len() - 1] == s.last());
        if at < front.len() {
            lemma_last_index(front, c, at);
            assert forall|k: int| 0 <= k < front.len() implies #[trigger] front[k] == s[k] by {}
        } else {
            lemma_last_index(front, c, -1);
        }
        if !s.contains(c) && front.contains(c) {
            let k = choose|k: int| 0 <= k < front.len() && front[k] == c;
            assert(s[k] == c);
        }
    }
}

/// The addresses of a list are those of its entries that are not blank, in their order.
pub proof fn law_blank_entries_are_left_out(items: Seq<Seq<char>>)
    ensures
        listed_addresses(items) == items.filter(|item: Seq<char>| !blank(item)).map_values(
            |item: Seq<char>| address_of(trimmed(item)),
        ),
    decreases items.len(),
{
    reveal(Seq::filter);
    let ok = |item: Seq<char>| !blank(item);
    let f = |item: Seq<char>| address_of(trimmed(item));
    if items.len() > 0 {
        law_blank_entries_are_left_out(items.drop_last());
        if ok(items.last()) {
            assert(items.filter(ok).map_values(f) =~= items.drop_last().filter(ok).map_values(
                f,
            ).push(f(items.last())));
        }
    } else {
        assert(items.filter(ok).map_values(f) =~= seq![]);
    }
}

proof fn lemma_headers_in_order(lines: Seq<Seq<char>>)
    ensures
        ordered(headers_of(lines).0),
    decreases lines.len(),
{
    if lines.len() > 0 {
        lemma_headers_in_order(lines.drop_last());
        let (headers, current) = headers_of(lines.drop_last());
        let line = lines.last();
        if continues(line) {
            if let Some(name) = current {
                let at = placed(headers, name);
                lemma_with_value(headers, name, continued(headers[at].1, line));
                lemma_put(headers, name, continued(headers[at].1, line));
            }
        } else if line.contains(':') {
            let colon = first_index(line, ':');
            let name = lowered_ascii(trimmed(line.take(colon)));
            let value = trimmed(line.skip(colon + 1));
            let at = placed(headers, name);
            let values = if holds(headers, name) {
                headers[at].1.push(value)
            } else {
                seq![value]
            };
            lemma_with_value(headers, name, values);
            lemma_put(headers, name, values);
        }
    }
}

/// A line `name: value` adds a value to the header of that name, whatever its case, behind those it
/// has, and to no other.
pub proof fn law_header_lines_add_a_value(
    lines: Seq<Seq<char>>,
    name: Seq<char>,
    value: Seq<char>,
    other: Seq<char>,
)
    requires
        !name.contains(':'),
        name.len() > 0 ==> name[0] != ' ' && name[0] != '\t',
    ensures
        ({
            let before = find(headers_of(lines).0, other);
            let after = find(headers_of(lines.push(name + seq![':'] + value)).0, other);
            let own = lowered_ascii(trimmed(name));
            &&& other != own ==> after == before
            &&& other == own && before is None ==> after == Some(seq![trimmed(value)])
            &&& other == own && before is Some ==> after == Some(before->0.push(trimmed(value)))
            &&& headers_of(lines.push(name + seq![':'] + value)).1 == Some(own)
        }),
{
    let line = name + seq![':'] + value;
    let all = lines.push(line);
    assert(all.drop_last() =~= lines);
    let (headers, current) = headers_of(lines);
    lemma_headers_in_order(lines);
    assert(line[name.len() as int] == ':');
    assert forall|i: int| 0 <= i < name.len() implies line[i] != ':' by {
        assert(line[i] == name[i]);
    }
    lemma_first_index_unique(line, ':', name.len() as int);
    assert(line.take(name.len() as int) =~= name);
    assert(line.skip(name.len() as int + 1) =~= value);
    assert(line[0] == (if name.len() > 0 {
        name[0]
    } else {
        ':'
    }));
    let own = lowered_ascii(trimmed(name));
    let at = placed(headers, own);
    let values = if holds(headers, own) {
        headers[at].1.push(trimmed(value))
    } else {
        seq![trimmed(value)]
    };
    lemma_with_value(headers, own, values);
    lemma_put(headers, own, values);
}

/// A line that begins with a space or a tab goes on with the last value of the header before it; a
/// line without a colon says nothing.
pub proof fn law_indented_lines_go_on(lines: Seq<Seq<char>>, line: Seq<char>, other: Seq<char>)
    ensures
        ({
            let indented = line.len() > 0 && (line[0] == ' ' || line[0] == '\t');
            let before = find(headers_of(lines).0, other);
            let after = find(headers_of(lines.push(line)).0, other);
            let current = headers_of(lines).1;
            &&& indented && current == Some(other) ==> (before matches Some(values)
                ==> values.len() > 0 ==> after == Some(
                values.drop_last().push(values.last() + " "@ + trimmed(line)),
            ))
            &&& indented && current != Some(other) ==> after == before
            &&& indented ==> headers_of(lines.push(line)).1 == current
            &&& !indented && !line.contains(':') ==> headers_of(lines.push(line)) == headers_of(
                lines,
            )
        }),
{
    let all = lines.push(line);
    assert(all.drop_last() =~= lines);
    let (headers, current) = headers_of(lines);
    lemma_headers_in_order(lines);
    if continues(line) {
        if let Some(name) = current {
            let at = placed(headers, name);
            let values = continued(headers[at].1, line);
            lemma_with_value(headers, name, values);
            lemma_put(headers, name, values);
        }
    }
}

/// The head of a message ends at its first empty line, and the body follows; lines may end in
/// either way.
pub proof fn law_the_body_follows_the_first_empty_line(input: Seq<char>)
    ensures
        ({
            let (head, body) = headers_and_body(input);
            let long = seq!['\r', '\n', '\r', '\n'];
            let short = seq!['\n', '\n'];
            ||| input == head + long + body && forall|k: int|
                0 <= k < head.len() ==> !begins(#[trigger] input.skip(k), long)
            ||| input == head + short + body && (forall|k: int|
                0 <= k < head.len() ==> !begins(#[trigger] input.skip(k), short)) && (forall|k: int|
                0 <= k <= input.len() ==> !begins(#[trigger] input.skip(k), long))
            ||| input == head && body.len() == 0 && (forall|k: int|
                0 <= k <= input.len() ==> !begins(#[trigger] input.skip(k), short)) && (forall|
                k: int,
            |
                0 <= k <= input.len() ==> !begins(#[trigger] input.skip(k), long))
        }),
{
    reveal_strlit("\r\n\r\n");
    reveal_strlit("\n\n");
    let long = seq!['\r', '\n', '\r', '\n'];
    let short = seq!['\n', '\n'];
    assert("\r\n\r\n"@ =~= long);
    assert("\n\n"@ =~= short);
    law_a_text_is_found_where_it_occurs_first(input, long);
    law_a_text_is_found_where_it_occurs_first(input, short);
    if let Some(at) = find_text(input, long) {
        assert(input.skip(at).take(4) == long);
        assert(input =~= input.take(at) + input.skip(at).take(4) + input.skip(at + 4));
    } else if let Some(at) = find_text(input, short) {
        assert(input.skip(at).take(2) == short);
        assert(input =~= input.take(at) + input.skip(at).take(2) + input.skip(at + 2));
    }
}

/// What cannot be parsed as mail is still read by its header lines, the first value of each header
/// counting: the envelope says what they say.
pub proof fn law_header_lines_make_an_envelope(text: Seq<char>, fallback: Seq<char>, now: Timestamp)
    ensures
        ({
            let (head, body) = headers_and_body(text);
            let headers = headers_of(lines_of(head)).0;
            let e = lossy_envelope(text, fallback, now);
            &&& find(headers, "message-id"@) matches Some(values) ==> values.len() > 0
                ==> e.source_id == values[0]
            &&& find(headers, "message-id"@) is None ==> e.source_id == fallback
            &&& find(headers, "subject"@) matches Some(values) ==> values.len() > 0 ==> e.subject
                == Some(values[0])
            &&& find(headers, "subject"@) is None ==> e.subject is None
            &&& find(headers, "from"@) matches Some(values) ==> values.len() > 0 ==> e.from
                == listed_addresses(split_on(values[0], ','))
            &&& find(headers, "to"@) matches Some(values) ==> values.len() > 0 ==> e.to
                == listed_addresses(split_on(values[0], ','))
            &&& find(headers, "cc"@) matches Some(values) ==> values.len() > 0 ==> e.cc
                == listed_addresses(split_on(values[0], ','))
            &&& find(headers, "references"@) matches Some(values) ==> values.len() > 0
                ==> e.references == words_of(values[0])
            &&& find(headers, "references"@) is None ==> e.references.len() == 0
            &&& find(headers, "in-reply-to"@) matches Some(values) ==> values.len() > 0
                ==> e.in_reply_to == Some(values[0])
            &&& find(headers, "in-reply-to"@) is None ==> e.in_reply_to is None
            &&& find(headers, "date"@) is None ==> e.date == now
            &&& find(headers, "date"@) matches Some(values) ==> values.len() > 0 ==> (
            rfc2822_parsed(values[0]) matches Some(point) ==> e.date.secs() == point.0
                && e.date.nanos() == point.1)
            &&& e.body == trimmed(body)
            &&& e.attachments.len() == 0
        }),
{
    let headers = headers_of(lines_of(headers_and_body(text).0)).0;
    if let Some(values) = find(headers, "date"@) {
        if values.len() > 0 {
            if let Some(point) = rfc2822_parsed(values[0]) {
                law_a_point_is_made_of_its_parts(point.0, point.1);
            }
        }
    }
}

/// A mail without an identifier is known by a UUID of its bytes.
pub proof fn law_mails_without_an_identifier_are_known_by_their_bytes(raw: Seq<u8>, now: Timestamp)
    ensures
        ({
            let name = "uuid-v5:"@ + uuid_text(
                uuid_v5(0x6e6c_4e12_1a7d_4a3c_8b53_8914_42f3_0002, raw),
            );
            &&& mail_found(raw) ==> email_of(raw, now) == envelope_of(mail_of(raw), name, now)
            &&& !mail_found(raw) ==> email_of(raw, now) == lossy_envelope(
                lossy_text(raw),
                name,
                now,
            )
        }),
{
}

} // verus!
