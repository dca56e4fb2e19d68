//! Outgoing emails: new ones, and replies that keep to the thread they answer.

use vstd::prelude::*;
use crate::decimal::{decimal, signed_text};
use crate::email::envelope::{
    belongs, email_uuid, law_an_email_is_of_one_conversation, of_conversation, EmailAddress,
    EmailAddressView, EmailEnvelope, EmailEnvelopeView,
};
use crate::email::{email_id, mailbox_address, parse_mailbox, UUID_NAMESPACE};
use crate::error::{prefixed, IrisError, IrisErrorView};
use crate::ids::Uuid;
use crate::json::{json_array, json_object, json_text, member, member_views, Json, JsonView};
use crate::model::{Attachment, AttachmentView, Message, MessageKind, MessageView};
use crate::text::{
    ascii_lower, ascii_lowercase, begins, copy_opt, join, joined, lowercase, lowered_ascii,
    starts_with, str_eq,
    to_lowercase, trim, trimmed, trimmed_end, trimmed_start, view_opt, view_result, views,
    white_space,
};
use crate::time::{law_earlier_points_come_first, Timestamp};

verus! {

/// A message identifier without the white space and the angle brackets around it.
pub open spec fn bare_id(id: Seq<char>) -> Seq<char> {
    let t = trimmed(id);
    if t.len() >= 2 && t[0] == '<' && t.last() == '>' {
        t.subrange(1, t.len() - 1)
    } else {
        t
    }
}

/// Strip surrounding angle brackets from a message ID, if present.
pub fn strip_brackets(id: &str) -> (r: String)
    ensures
        r@ == bare_id(id@),
{
    let trimmed_id = trim(id);
    let text = trimmed_id.as_str();
    let n: usize = text.unicode_len();
    if n >= 2 && text.get_char(0) == '<' && text.get_char(n - 1) == '>' {
        text.substring_char(1, n - 1).to_owned()
    } else {
        trimmed_id
    }
}

/// A message identifier in angle brackets.
pub open spec fn bracketed(id: Seq<char>) -> Seq<char> {
    seq!['<'] + bare_id(id) + seq!['>']
}

/// Wrap a message ID in RFC 5322 angle brackets, if not already bracketed. The `In-Reply-To` and
/// `References` headers require bracketed message IDs.
pub fn format_msgid(id: &str) -> (r: String)
    ensures
        r@ == bracketed(id@),
{
    let mut out = String::new();
    out.push('<');
    out.append(strip_brackets(id).as_str());
    out.push('>');
    assert(out@ =~= bracketed(id@));
    out
}

/// Bracketing what is bracketed changes nothing.
pub proof fn law_bracketing_is_idempotent(id: Seq<char>)
    ensures
        bracketed(bracketed(id)) == bracketed(id),
        bare_id(bracketed(id)) == bare_id(id),
{
    let t = bracketed(id);
    assert(t[0] == '<' && t.last() == '>');
    assert(!white_space('<') && !white_space('>'));
    assert(trimmed_start(t) == t);
    assert(trimmed_end(t) == t);
    assert(t.subrange(1, t.len() - 1) =~= bare_id(id));
}

/// The bare forms of message identifiers.
pub open spec fn bare_ids(ids: Seq<Seq<char>>) -> Seq<Seq<char>> {
    ids.map_values(|id: Seq<char>| bare_id(id))
}

/// What a reply to an email refers to: what the email refers to, and the email itself behind it
/// unless it is among them.
pub open spec fn reply_references(original: EmailEnvelopeView) -> Seq<Seq<char>> {
    let known = bare_ids(original.references);
    let own = bare_id(original.source_id);
    if known.contains(own) {
        known
    } else {
        known.push(own)
    }
}

/// Build the `References` header for a reply: the references of the original message followed by
/// its own message ID. This preserves the ancestry by which mail clients thread a conversation.
pub fn build_reply_references(original: &EmailEnvelope) -> (r: Vec<String>)
    ensures
        views(r@) == reply_references(original@),
{
    let own = strip_brackets(original.source_id.as_str());
    let ghost known = bare_ids(original@.references);
    let mut out: Vec<String> = Vec::new();
    let mut found = false;
    let mut i: usize = 0;
    while i < original.references.len()
        invariant
            i <= original.references@.len(),
            known == bare_ids(original@.references),
            own@ == bare_id(original.source_id@),
            out@.len() == i,
            forall|j: int| 0 <= j < i ==> (#[trigger] out@[j])@ == known[j],
            found ==> known.contains(own@),
            !found ==> forall|j: int| 0 <= j < i ==> known[j] != own@,
        decreases original.references@.len() - i,
    {
        let id = strip_brackets(original.references[i].as_str());
        assert(known[i as int] == id@);
        if str_eq(id.as_str(), own.as_str()) {
            found = true;
        }
        out.push(id);
        i += 1;
    }
    assert(views(out@) =~= known);
    if !found {
        out.push(own);
        assert(views(out@) =~= known.push(own@));
    }
    out
}

/// A reply refers to the email it answers, keeps the ancestry before it in its order, and adds
/// nothing else.
pub proof fn law_replies_keep_the_ancestry(original: EmailEnvelopeView)
    ensures
        reply_references(original).contains(bare_id(original.source_id)),
        reply_references(original).take(original.references.len() as int) == bare_ids(
            original.references,
        ),
        reply_references(original).len() <= original.references.len() + 1,
{
    let known = bare_ids(original.references);
    let own = bare_id(original.source_id);
    let all = reply_references(original);
    if !known.contains(own) {
        assert(all[all.len() - 1] == own);
    }
    assert(all.take(original.references.len() as int) =~= known);
}

/// What a reply needs to know of the email it answers.
#[derive(Debug, PartialEq, Eq)]
pub struct EmailReplyContext {
    pub recipient: String,
    pub subject: Option<String>,
    pub thread_id: Uuid,
    pub message_id: Option<String>,
    pub references: Vec<String>,
}

/// The mathematical value of a reply's context.
#[verifier::ext_equal]
pub struct ReplyView {
    pub recipient: Seq<char>,
    pub subject: Option<Seq<char>>,
    pub thread_id: Uuid,
    pub message_id: Option<Seq<char>>,
    pub references: Seq<Seq<char>>,
}

impl View for EmailReplyContext {
    type V = ReplyView;

    open spec fn view(&self) -> ReplyView {
        ReplyView {
            recipient: self.recipient@,
            subject: view_opt(self.subject),
            thread_id: self.thread_id,
            message_id: view_opt(self.message_id),
            references: views(self.references@),
        }
    }
}

/// The subject of a reply.
pub open spec fn subject_of_reply(subject: Option<Seq<char>>) -> Seq<char> {
    match subject {
        Some(subject) => if begins(lowered_ascii(subject), "re:"@) {
            subject
        } else {
            "Re: "@ + subject
        },
        None => "Iris message"@,
    }
}

impl EmailReplyContext {
    /// The subject of the reply: the subject it answers, marked as a reply once.
    pub fn reply_subject(&self) -> (r: String)
        ensures
            r@ == subject_of_reply(self@.subject),
    {
        match &self.subject {
            Some(subject) => {
                let lowered = ascii_lowercase(subject.as_str());
                if starts_with(lowered.as_str(), "re:") {
                    subject.clone()
                } else {
                    prefixed("Re: ", subject.as_str())
                }
            },
            None => "Iris message".to_owned(),
        }
    }
}

/// A reply to a reply has the same subject.
pub proof fn law_replies_are_marked_once(subject: Option<Seq<char>>)
    requires
        subject is Some,
    ensures
        subject_of_reply(Some(subject_of_reply(subject))) == subject_of_reply(subject),
{
    let text = subject->0;
    if !begins(lowered_ascii(text), "re:"@) {
        reveal_strlit("re:");
        reveal_strlit("Re: ");
        let marked = "Re: "@ + text;
        let low = lowered_ascii(marked);
        assert(low[0] == 'r') by {
            assert(marked[0] == 'R');
        }
        assert(low[1] == 'e') by {
            assert(marked[1] == 'e');
        }
        assert(low[2] == ':') by {
            assert(marked[2] == ':');
        }
        assert(low.take(3) =~= "re:"@);
    }
}

/// The latest email of a thread, the last of those that tie.
pub open spec fn latest_of(emails: Seq<EmailEnvelopeView>, thread_id: Seq<char>) -> Option<
    EmailEnvelopeView,
>
    decreases emails.len(),
{
    if emails.len() == 0 {
        None
    } else {
        let best = latest_of(emails.drop_last(), thread_id);
        let email = emails.last();
        if !email.in_thread(thread_id) {
            best
        } else {
            match best {
                Some(known) => if email.date.earlier(known.date) {
                    best
                } else {
                    Some(email)
                },
                None => Some(email),
            }
        }
    }
}

/// The first address that is not the owner's.
pub open spec fn other_address(addresses: Seq<EmailAddressView>, own: Seq<char>) -> Option<Seq<char>>
    decreases addresses.len(),
{
    if addresses.len() == 0 {
        None
    } else if lowercase(addresses[0].address) != own {
        Some(addresses[0].address)
    } else {
        other_address(addresses.drop_first(), own)
    }
}

/// What a reply in a thread needs to know: the latest email of the thread, and who gets the reply.
pub open spec fn reply_to(emails: Seq<EmailEnvelopeView>, thread_id: Seq<char>, own: Seq<char>) -> Result<
    Option<ReplyView>,
    IrisErrorView,
> {
    match latest_of(emails, thread_id) {
        None => Ok(None),
        Some(latest) => match other_address(latest.addresses(), own) {
            None => Err(
                IrisErrorView::NotFound("email thread has no reply recipient: "@ + thread_id),
            ),
            Some(recipient) => Ok(
                Some(
                    ReplyView {
                        recipient,
                        subject: latest.subject,
                        thread_id: latest.thread(),
                        message_id: Some(latest.source_id),
                        references: reply_references(latest),
                    },
                ),
            ),
        },
    }
}

/// The result of a lookup over views.
pub open spec fn reply_result(r: Result<Option<EmailReplyContext>, IrisError>) -> Result<
    Option<ReplyView>,
    IrisErrorView,
> {
    match r {
        Ok(context) => Ok(view_opt(context)),
        Err(error) => Err(error@),
    }
}

fn find_latest(emails: &Vec<EmailEnvelope>, thread_id: &str) -> (r: Option<usize>)
    ensures
        r matches Some(i) ==> i < emails@.len() && latest_of(views(emails@), thread_id@) == Some(
            emails@[i as int]@,
        ),
        r is None ==> latest_of(views(emails@), thread_id@) is None,
{
    let ghost all = views(emails@);
    let mut best: Option<usize> = None;
    let mut i: usize = 0;
    assert(all.take(0) =~= seq![]);
    while i < emails.len()
        invariant
            i <= emails@.len(),
            all == views(emails@),
            best matches Some(k) ==> k < i && latest_of(all.take(i as int), thread_id@) == Some(
                emails@[k as int]@,
            ),
            best is None ==> latest_of(all.take(i as int), thread_id@) is None,
        decreases emails@.len() - i,
    {
        proof {
            let next = all.take(i + 1);
            assert(next.drop_last() =~= all.take(i as int));
            assert(next.last() == emails@[i as int]@);
        }
        if emails[i].matches_thread(thread_id) {
            best = match best {
                Some(k) => if emails[i].date.is_earlier(&emails[k].date) {
                    Some(k)
                } else {
                    Some(i)
                },
                None => Some(i),
            };
        }
        i += 1;
    }
    assert(all.take(all.len() as int) =~= all);
    best
}

fn find_other(addresses: &Vec<EmailAddress>, own: &str) -> (r: Option<String>)
    ensures
        view_opt(r) == other_address(views(addresses@), own@),
{
    let ghost all = views(addresses@);
    let mut i: usize = 0;
    assert(all.skip(0) =~= all);
    while i < addresses.len()
        invariant
            i <= addresses@.len(),
            all == views(addresses@),
            other_address(all, own@) == other_address(all.skip(i as int), own@),
        decreases addresses@.len() - i,
    {
        assert(all.skip(i as int)[0] == addresses@[i as int]@);
        let lowered = to_lowercase(addresses[i].address.as_str());
        if !str_eq(lowered.as_str(), own) {
            return Some(addresses[i].address.clone());
        }
        assert(all.skip(i as int).drop_first() =~= all.skip(i + 1));
        i += 1;
    }
    None
}

proof fn lemma_other_address(first: Seq<EmailAddressView>, second: Seq<EmailAddressView>, own: Seq<char>)
    ensures
        other_address(first + second, own) == (match other_address(first, own) {
            Some(address) => Some(address),
            None => other_address(second, own),
        }),
    decreases first.len(),
{
    if first.len() == 0 {
        assert(first + second =~= second);
    } else {
        assert((first + second)[0] == first[0]);
        assert((first + second).drop_first() =~= first.drop_first() + second);
        lemma_other_address(first.drop_first(), second, own);
    }
}

/// What a reply in a thread needs to know: the latest email of the thread, and who gets the
/// reply, which is the first address in it that is not the owner's.
pub fn reply_context(emails: &Vec<EmailEnvelope>, thread_id: &str, own: &str) -> (r: Result<
    Option<EmailReplyContext>,
    IrisError,
>)
    ensures
        reply_result(r) == reply_to(views(emails@), thread_id@, own@),
        forall|k: int| #[trigger]
            latest_in_thread(views(emails@), thread_id@, k) ==> answers(
                reply_result(r),
                views(emails@)[k],
                thread_id@,
                own@,
            ),
{
    proof {
        assert forall|k: int| #[trigger] latest_in_thread(
            views(emails@),
            thread_id@,
            k,
        ) implies answers(
            reply_to(views(emails@), thread_id@, own@),
            views(emails@)[k],
            thread_id@,
            own@,
        ) by {
            law_replies_go_to_the_sender_first(views(emails@), thread_id@, own@, k);
        }
    }
    let index: usize = match find_latest(emails, thread_id) {
        Some(index) => index,
        None => {
            return Ok(None);
        },
    };
    let latest = &emails[index];
    proof {
        lemma_other_address(latest@.from, latest@.to, own@);
        lemma_other_address(latest@.from + latest@.to, latest@.cc, own@);
    }
    let recipient = match find_other(&latest.from, own) {
        Some(address) => address,
        None => match find_other(&latest.to, own) {
            Some(address) => address,
            None => match find_other(&latest.cc, own) {
                Some(address) => address,
                None => {
                    return Err(
                        IrisError::NotFound(
                            prefixed("email thread has no reply recipient: ", thread_id),
                        ),
                    );
                },
            },
        },
    };
    Ok(
        Some(
            EmailReplyContext {
                recipient,
                subject: copy_opt(&latest.subject),
                thread_id: latest.thread_id(),
                message_id: Some(latest.source_id.clone()),
                references: build_reply_references(latest),
            },
        ),
    )
}

/// An email that is about to be sent: what its headers say, and its body.
#[derive(Debug, PartialEq, Eq)]
pub struct OutgoingEmail {
    pub from: String,
    pub to: String,
    pub subject: String,
    pub in_reply_to: Option<String>,
    pub references: Option<String>,
    pub body: String,
}

/// The mathematical value of an outgoing email.
#[verifier::ext_equal]
pub struct OutgoingView {
    pub from: Seq<char>,
    pub to: Seq<char>,
    pub subject: Seq<char>,
    pub in_reply_to: Option<Seq<char>>,
    pub references: Option<Seq<char>>,
    pub body: Seq<char>,
}

impl View for OutgoingEmail {
    type V = OutgoingView;

    open spec fn view(&self) -> OutgoingView {
        OutgoingView {
            from: self.from@,
            to: self.to@,
            subject: self.subject@,
            in_reply_to: view_opt(self.in_reply_to),
            references: view_opt(self.references),
            body: self.body@,
        }
    }
}

/// Where an email goes, and what it answers.
#[derive(Debug, PartialEq, Eq)]
pub struct EmailTarget {
    pub recipient: String,
    pub subject: String,
    pub thread_id: Uuid,
    pub in_reply_to: Option<String>,
    pub references: Vec<String>,
}

/// The mathematical value of a target.
#[verifier::ext_equal]
pub struct TargetView {
    pub recipient: Seq<char>,
    pub subject: Seq<char>,
    pub thread_id: Uuid,
    pub in_reply_to: Option<Seq<char>>,
    pub references: Seq<Seq<char>>,
}

impl View for EmailTarget {
    type V = TargetView;

    open spec fn view(&self) -> TargetView {
        TargetView {
            recipient: self.recipient@,
            subject: self.subject@,
            thread_id: self.thread_id,
            in_reply_to: view_opt(self.in_reply_to),
            references: views(self.references@),
        }
    }
}

/// The target of a new email to an address.
pub open spec fn new_target(address: Seq<char>) -> TargetView {
    TargetView {
        recipient: address,
        subject: "Iris message"@,
        thread_id: email_id("thread:"@ + address),
        in_reply_to: None,
        references: seq![],
    }
}

/// The target of a reply.
pub open spec fn reply_target(context: ReplyView) -> TargetView {
    TargetView {
        recipient: context.recipient,
        subject: subject_of_reply(context.subject),
        thread_id: context.thread_id,
        in_reply_to: context.message_id,
        references: context.references,
    }
}

/// The target of a new email, where the thread identifier is an email recipient.
pub fn direct_target(thread_id: &str) -> (r: Option<EmailTarget>)
    ensures
        view_opt(r) == (match mailbox_address(thread_id@) {
            Ok(address) => Some(new_target(address)),
            Err(_) => None,
        }),
{
    match parse_mailbox(thread_id) {
        Ok(address) => Some(target_of_address(address)),
        Err(_) => None,
    }
}

/// The target of a new email to an address.
pub fn target_of_address(address: String) -> (r: EmailTarget)
    ensures
        r@ == new_target(address@),
{
    let name = prefixed("thread:", address.as_str());
    let references: Vec<String> = Vec::new();
    assert(views(references@) =~= seq![]);
    EmailTarget {
        recipient: address,
        subject: "Iris message".to_owned(),
        thread_id: Uuid::of_name(UUID_NAMESPACE, name.as_str()),
        in_reply_to: None,
        references,
    }
}

/// The target of a reply in a thread among the fetched emails.
pub fn thread_target(emails: &Vec<EmailEnvelope>, thread_id: &str, own: &str) -> (r: Result<
    EmailTarget,
    IrisError,
>)
    ensures
        view_result(r) == (match reply_to(views(emails@), thread_id@, own@) {
            Err(error) => Err(error),
            Ok(Some(context)) => Ok(reply_target(context)),
            Ok(None) => Err(
                IrisErrorView::NotFound(
                    "email thread not found and value is not an email recipient: "@ + thread_id@,
                ),
            ),
        }),
{
    match reply_context(emails, thread_id, own) {
        Err(error) => Err(error),
        Ok(Some(context)) => {
            let subject = context.reply_subject();
            Ok(
                EmailTarget {
                    recipient: context.recipient,
                    subject,
                    thread_id: context.thread_id,
                    in_reply_to: context.message_id,
                    references: context.references,
                },
            )
        },
        Ok(None) => Err(
            IrisError::NotFound(
                prefixed(
                    "email thread not found and value is not an email recipient: ",
                    thread_id,
                ),
            ),
        ),
    }
}

/// Message identifiers in angle brackets, with blanks between them.
pub open spec fn reference_line(ids: Seq<Seq<char>>) -> Seq<char> {
    joined(ids.map_values(|id: Seq<char>| bracketed(id)), " "@)
}

/// The email that goes to a target, given what the parses of the two addresses say.
pub open spec fn composed(
    from: Seq<char>,
    from_parsed: Result<Seq<char>, Seq<char>>,
    target: TargetView,
    to_parsed: Result<Seq<char>, Seq<char>>,
    body: Seq<char>,
) -> Result<OutgoingView, IrisErrorView> {
    match from_parsed {
        Err(error) => Err(IrisErrorView::Config("invalid email from address: "@ + error)),
        Ok(_) => match to_parsed {
            Err(error) => Err(IrisErrorView::Config("invalid email recipient: "@ + error)),
            Ok(_) => Ok(
                OutgoingView {
                    from,
                    to: target.recipient,
                    subject: target.subject,
                    in_reply_to: match target.in_reply_to {
                        Some(id) => Some(bracketed(id)),
                        None => None,
                    },
                    references: if target.references.len() == 0 {
                        None
                    } else {
                        Some(reference_line(target.references))
                    },
                    body,
                },
            ),
        },
    }
}

/// The email that goes to a target, given what the parses of the two addresses say.
pub fn compose(
    from: &str,
    from_parsed: Result<String, String>,
    target: &EmailTarget,
    to_parsed: Result<String, String>,
    body: &str,
) -> (r: Result<OutgoingEmail, IrisError>)
    ensures
        view_result(r) == composed(
            from@,
            view_result(from_parsed),
            target@,
            view_result(to_parsed),
            body@,
        ),
{
    if let Err(error) = from_parsed {
        return Err(IrisError::Config(prefixed("invalid email from address: ", error.as_str())));
    }
    if let Err(error) = to_parsed {
        return Err(IrisError::Config(prefixed("invalid email recipient: ", error.as_str())));
    }
    let in_reply_to = match &target.in_reply_to {
        Some(id) => Some(format_msgid(id.as_str())),
        None => None,
    };
    let references = if target.references.len() == 0 {
        None
    } else {
        let mut parts: Vec<String> = Vec::new();
        let mut i: usize = 0;
        while i < target.references.len()
            invariant
                i <= target.references@.len(),
                parts@.len() == i,
                forall|j: int|
                    0 <= j < i ==> (#[trigger] parts@[j])@ == bracketed(target.references@[j]@),
            decreases target.references@.len() - i,
        {
            parts.push(format_msgid(target.references[i].as_str()));
            i += 1;
        }
        assert(views(parts@) =~= target@.references.map_values(|id: Seq<char>| bracketed(id)));
        Some(join(&parts, " "))
    };
    Ok(
        OutgoingEmail {
            from: from.to_owned(),
            to: target.recipient.clone(),
            subject: target.subject.clone(),
            in_reply_to,
            references,
            body: body.to_owned(),
        },
    )
}

/// The email that goes from an address to a target; both have to be mailboxes.
pub fn compose_email(from: &str, target: &EmailTarget, body: &str) -> (r: Result<
    OutgoingEmail,
    IrisError,
>)
    ensures
        view_result(r) == composed(
            from@,
            mailbox_address(from@),
            target@,
            mailbox_address(target.recipient@),
            body@,
        ),
{
    compose(from, parse_mailbox(from), target, parse_mailbox(target.recipient.as_str()), body)
}

/// The message that a sent email is.
pub open spec fn sent_message(
    from: Seq<char>,
    target: TargetView,
    body: Seq<char>,
    id: Uuid,
    now: Timestamp,
) -> MessageView {
    MessageView {
        id,
        thread_id: target.thread_id,
        source: "email"@,
        source_id: "smtp:"@ + decimal(now.millis()),
        sender: (EmailAddressView { name: None, address: from }).contact(),
        kind: MessageKind::Text,
        body,
        attachments: Seq::<AttachmentView>::empty(),
        timestamp: now,
        is_outbound: true,
        metadata: JsonView::Object(
            seq![
                ("subject"@, JsonView::Text(target.subject)),
                ("to"@, JsonView::Array(seq![JsonView::Text(target.recipient)])),
                ("transport"@, JsonView::Text("smtp"@)),
            ],
        ),
    }
}

/// The message that a sent email is, under the given identifier.
pub fn outbound_message(from: &str, target: &EmailTarget, body: &str, id: Uuid, now: Timestamp) -> (r:
    Message)
    ensures
        r@ == sent_message(from@, target@, body@, id, now),
{
    let sender = EmailAddress { name: None, address: from.to_owned() };
    let mut recipients: Vec<Json> = Vec::new();
    recipients.push(json_text(target.recipient.as_str()));
    assert(views(recipients@) =~= seq![JsonView::Text(target.recipient@)]);
    let mut members: Vec<(String, Json)> = Vec::new();
    members.push(member("subject", json_text(target.subject.as_str())));
    members.push(member("to", json_array(recipients)));
    members.push(member("transport", json_text("smtp")));
    assert(member_views(members@) =~= sent_message(from@, target@, body@, id, now).metadata->Object_0);
    let attachments: Vec<Attachment> = Vec::new();
    assert(views(attachments@) =~= Seq::<AttachmentView>::empty());
    Message {
        id,
        thread_id: target.thread_id,
        source: "email".to_owned(),
        source_id: prefixed("smtp:", signed_text(now.timestamp_millis()).as_str()),
        sender: sender.to_contact(),
        kind: MessageKind::Text,
        body: body.to_owned(),
        attachments,
        timestamp: now,
        is_outbound: true,
        metadata: json_object(members),
    }
}

/// Whether an email is the latest of a thread among some emails; of equally late ones it is the
/// last.
pub open spec fn latest_in_thread(
    emails: Seq<EmailEnvelopeView>,
    thread_id: Seq<char>,
    k: int,
) -> bool {
    &&& 0 <= k < emails.len()
    &&& belongs(emails[k], thread_id)
    &&& forall|j: int|
        0 <= j < emails.len() && belongs(#[trigger] emails[j], thread_id) ==> {
            &&& emails[j].date.ticks() <= emails[k].date.ticks()
            &&& j > k ==> emails[j].date.ticks() < emails[k].date.ticks()
        }
}

/// Whether every one of some addresses is the owner's.
pub open spec fn all_own(addresses: Seq<EmailAddressView>, own: Seq<char>) -> bool {
    forall|i: int|
        0 <= i < addresses.len() ==> lowercase((#[trigger] addresses[i]).address) == own
}

/// Whether an address is the first among some that is not the owner's.
pub open spec fn first_foreign(
    addresses: Seq<EmailAddressView>,
    own: Seq<char>,
    address: Seq<char>,
) -> bool {
    exists|i: int|
        0 <= i < addresses.len() && (#[trigger] addresses[i]).address == address && lowercase(
            address,
        ) != own && all_own(addresses.take(i), own)
}

/// Whether a result is the answer to an email: the reply goes to the first sender who is not the
/// owner; where every sender is, to the first receiver; and only then to the first who got a copy.
pub open spec fn answers(
    r: Result<Option<ReplyView>, IrisErrorView>,
    email: EmailEnvelopeView,
    thread_id: Seq<char>,
    own: Seq<char>,
) -> bool {
    if all_own(email.from, own) && all_own(email.to, own) && all_own(email.cc, own) {
        r == Err::<Option<ReplyView>, IrisErrorView>(
            IrisErrorView::NotFound("email thread has no reply recipient: "@ + thread_id),
        )
    } else {
        r matches Ok(Some(reply)) && {
            &&& !all_own(email.from, own) ==> first_foreign(email.from, own, reply.recipient)
            &&& all_own(email.from, own) && !all_own(email.to, own) ==> first_foreign(
                email.to,
                own,
                reply.recipient,
            )
            &&& all_own(email.from, own) && all_own(email.to, own) ==> first_foreign(
                email.cc,
                own,
                reply.recipient,
            )
            &&& reply.subject == email.subject
            &&& reply.message_id == Some(email.source_id)
            &&& forall|key: Seq<char>| #[trigger]
                of_conversation(email, key) ==> reply.thread_id == email_uuid("thread:"@ + key)
            &&& forall|i: int|
                0 <= i < email.references.len() ==> i < reply.references.len() && (
                #[trigger] reply.references[i]) == bare_id(email.references[i])
            &&& reply.references.contains(bare_id(email.source_id))
        }
    }
}

proof fn lemma_foreign(addresses: Seq<EmailAddressView>, own: Seq<char>)
    ensures
        other_address(addresses, own) is None <==> all_own(addresses, own),
        other_address(addresses, own) matches Some(address) ==> first_foreign(
            addresses,
            own,
            address,
        ),
    decreases addresses.len(),
{
    if addresses.len() > 0 {
        if lowercase(addresses[0].address) != own {
            assert(all_own(addresses.take(0), own));
            assert(first_foreign(addresses, own, addresses[0].address));
        } else {
            let rest = addresses.drop_first();
            lemma_foreign(rest, own);
            if all_own(rest, own) {
                assert forall|i: int| 0 <= i < addresses.len() implies lowercase(
                    (#[trigger] addresses[i]).address,
                ) == own by {
                    if i > 0 {
                        assert(rest[i - 1] == addresses[i]);
                    }
                }
            } else {
                let k = choose|k: int|
                    0 <= k < rest.len() && lowercase((#[trigger] rest[k]).address) != own;
                assert(lowercase(addresses[k + 1].address) != own);
                let address = other_address(rest, own)->0;
                let i = choose|i: int|
                    0 <= i < rest.len() && (#[trigger] rest[i]).address == address && lowercase(
                        address,
                    ) != own && all_own(rest.take(i), own);
                assert(addresses[i + 1].address == address);
                let before = addresses.take(i + 1);
                assert forall|j: int| 0 <= j < before.len() implies lowercase(
                    (#[trigger] before[j]).address,
                ) == own by {
                    if j > 0 {
                        assert(rest.take(i)[j - 1] == before[j]);
                    }
                }
                assert(first_foreign(addresses, own, address));
            }
        }
    }
}

proof fn lemma_latest(emails: Seq<EmailEnvelopeView>, thread_id: Seq<char>, k: int)
    requires
        latest_in_thread(emails, thread_id, k),
    ensures
        latest_of(emails, thread_id) == Some(emails[k]),
    decreases emails.len(),
{
    let front = emails.drop_last();
    let email = emails.last();
    let n = emails.len() - 1;
    law_an_email_is_of_one_conversation(email, thread_id, thread_id);
    assert(emails[n] == email);
    if k < n {
        assert forall|j: int| 0 <= j < front.len() && belongs(#[trigger] front[j], thread_id) implies {
            &&& front[j].date.ticks() <= front[k].date.ticks()
            &&& j > k ==> front[j].date.ticks() < front[k].date.ticks()
        } by {
            assert(emails[j] == front[j]);
        }
        assert(front[k] == emails[k]);
        lemma_latest(front, thread_id, k);
        law_earlier_points_come_first(email.date, emails[k].date);
    } else if let Some(known) = latest_of(front, thread_id) {
        lemma_latest_is_one(front, thread_id);
        let j = choose|j: int|
            0 <= j < front.len() && (#[trigger] front[j]) == known && belongs(known, thread_id);
        assert(emails[j] == known);
        law_earlier_points_come_first(email.date, known.date);
    }
}

proof fn lemma_latest_is_one(emails: Seq<EmailEnvelopeView>, thread_id: Seq<char>)
    ensures
        latest_of(emails, thread_id) matches Some(known) ==> exists|j: int|
            0 <= j < emails.len() && (#[trigger] emails[j]) == known && belongs(known, thread_id),
        latest_of(emails, thread_id) is None ==> forall|j: int|
            0 <= j < emails.len() ==> !belongs(#[trigger] emails[j], thread_id),
    decreases emails.len(),
{
    if emails.len() > 0 {
        let front = emails.drop_last();
        let email = emails.last();
        let n = emails.len() - 1;
        assert(emails[n] == email);
        law_an_email_is_of_one_conversation(email, thread_id, thread_id);
        lemma_latest_is_one(front, thread_id);
        if let Some(known) = latest_of(front, thread_id) {
            let j = choose|j: int|
                0 <= j < front.len() && (#[trigger] front[j]) == known && belongs(known, thread_id);
            assert(emails[j] == known);
        } else {
            assert forall|j: int|
                0 <= j < emails.len() && latest_of(emails, thread_id) is None implies !belongs(
                #[trigger] emails[j],
                thread_id,
            ) by {
                if j < n {
                    assert(front[j] == emails[j]);
                }
            }
        }
    }
}

/// A reply answers the latest email of its thread, and goes to the one who sent it before anyone
/// who received it.
pub proof fn law_replies_go_to_the_sender_first(
    emails: Seq<EmailEnvelopeView>,
    thread_id: Seq<char>,
    own: Seq<char>,
    k: int,
)
    requires
        latest_in_thread(emails, thread_id, k),
    ensures
        answers(reply_to(emails, thread_id, own), emails[k], thread_id, own),
{
    let email = emails[k];
    lemma_latest(emails, thread_id, k);
    lemma_other_address(email.from, email.to, own);
    lemma_other_address(email.from + email.to, email.cc, own);
    lemma_foreign(email.from, own);
    lemma_foreign(email.to, own);
    lemma_foreign(email.cc, own);
    law_replies_keep_the_ancestry(email);
    if let Ok(Some(reply)) = reply_to(emails, thread_id, own) {
        assert forall|key: Seq<char>| #[trigger] of_conversation(
            email,
            key,
        ) implies reply.thread_id == email_uuid("thread:"@ + key) by {
            law_an_email_is_of_one_conversation(email, key, thread_id);
        }
        assert forall|i: int| 0 <= i < email.references.len() implies i < reply.references.len() && (
        #[trigger] reply.references[i]) == bare_id(email.references[i]) by {
            assert(reply.references.take(email.references.len() as int)[i] == bare_ids(
                email.references,
            )[i]);
        }
    }
}

/// Where no email belongs to the thread there is nothing to answer.
pub proof fn law_nothing_is_answered_in_an_unknown_thread(
    emails: Seq<EmailEnvelopeView>,
    thread_id: Seq<char>,
    own: Seq<char>,
)
    requires
        forall|j: int| 0 <= j < emails.len() ==> !belongs(#[trigger] emails[j], thread_id),
    ensures
        reply_to(emails, thread_id, own) == Ok::<Option<ReplyView>, IrisErrorView>(None),
{
    lemma_latest_is_one(emails, thread_id);
}

/// A reply's subject keeps one that is marked as a reply, in capitals or not, and marks any other;
/// what answers an email without a subject has the subject of a new one.
pub proof fn law_unmarked_subjects_are_marked(subject: Seq<char>)
    ensures
        ({
            let marked = subject.len() >= 3 && (subject[0] == 'r' || subject[0] == 'R') && (
            subject[1] == 'e' || subject[1] == 'E') && subject[2] == ':';
            &&& marked ==> subject_of_reply(Some(subject)) == subject
            &&& !marked ==> subject_of_reply(Some(subject)) == "Re: "@ + subject
        }),
        subject_of_reply(None) == "Iris message"@,
{
    reveal_strlit("re:");
    let lower = lowered_ascii(subject);
    if subject.len() >= 3 {
        assert(lower.take(3) =~= seq![lower[0], lower[1], lower[2]]);
        assert("re:"@ =~= seq!['r', 'e', ':']);
        lemma_ascii_lower(subject[0]);
        lemma_ascii_lower(subject[1]);
        lemma_ascii_lower(subject[2]);
        if begins(lower, "re:"@) {
            assert(lower.take(3)[0] == 'r');
            assert(lower.take(3)[1] == 'e');
            assert(lower.take(3)[2] == ':');
        }
    }
}

proof fn lemma_ascii_lower(c: char)
    ensures
        ascii_lower(c) == 'r' <==> c == 'r' || c == 'R',
        ascii_lower(c) == 'e' <==> c == 'e' || c == 'E',
        ascii_lower(c) == ':' <==> c == ':',
{
}

/// An identifier in angle brackets is what stands between them; any other is itself without the
/// white space around it.
pub proof fn law_brackets_hold_an_identifier(id: Seq<char>)
    ensures
        bare_id(seq!['<'] + id + seq!['>']) == id,
        bare_id(id).len() == trimmed(id).len() || bare_id(id).len() + 2 == trimmed(id).len(),
        !(trimmed(id).len() >= 2 && trimmed(id)[0] == '<' && trimmed(id).last() == '>') ==> bare_id(
            id,
        ) == trimmed(id),
        bracketed(id)[0] == '<' && bracketed(id).last() == '>',
        bracketed(id).len() == bare_id(id).len() + 2,
{
    let s = seq!['<'] + id + seq!['>'];
    assert(trimmed_start(s) == s);
    assert(trimmed_end(s) == s);
    assert(s.subrange(1, s.len() - 1) =~= id);
}

/// What goes out has the body and the addresses it was given, and the subject, the answered
/// identifier and the references of its target, every identifier in brackets.
pub proof fn law_outgoing_headers_tell_the_target(
    from: Seq<char>,
    target: TargetView,
    from_address: Seq<char>,
    to_address: Seq<char>,
    error: Seq<char>,
    body: Seq<char>,
)
    ensures
        composed(from, Ok(from_address), target, Ok(to_address), body) matches Ok(email) && {
            &&& email.from == from
            &&& email.to == target.recipient
            &&& email.subject == target.subject
            &&& email.body == body
            &&& target.in_reply_to matches Some(id) ==> email.in_reply_to == Some(
                seq!['<'] + bare_id(id) + seq!['>'],
            )
            &&& target.in_reply_to is None ==> email.in_reply_to is None
            &&& target.references.len() == 0 ==> email.references is None
            &&& target.references.len() == 1 ==> email.references == Some(
                seq!['<'] + bare_id(target.references[0]) + seq!['>'],
            )
            &&& target.references.len() > 1 ==> email.references == Some(
                reference_line(target.references.drop_last()) + " <"@ + bare_id(
                    target.references.last(),
                ) + seq!['>'],
            )
        },
        composed(from, Err(error), target, Ok(to_address), body) == Err::<
            OutgoingView,
            IrisErrorView,
        >(IrisErrorView::Config("invalid email from address: "@ + error)),
        composed(from, Ok(from_address), target, Err(error), body) == Err::<
            OutgoingView,
            IrisErrorView,
        >(IrisErrorView::Config("invalid email recipient: "@ + error)),
{
    reveal_strlit(" ");
    reveal_strlit(" <");
    let ids = target.references.map_values(|id: Seq<char>| bracketed(id));
    if target.references.len() > 1 {
        let front = target.references.drop_last();
        assert(ids.drop_last() =~= front.map_values(|id: Seq<char>| bracketed(id)));
        let last = bare_id(target.references.last());
        let line = reference_line(front);
        assert(line + " "@ + bracketed(target.references.last()) =~= line + " <"@ + last + seq![
            '>',
        ]);
    }
}

/// A reply goes where its context says, into the same thread; a new email opens the thread of its
/// address and answers nothing.
pub proof fn law_targets_tell_where_an_email_goes(context: ReplyView, address: Seq<char>)
    ensures
        reply_target(context).recipient == context.recipient,
        reply_target(context).thread_id == context.thread_id,
        reply_target(context).in_reply_to == context.message_id,
        reply_target(context).references == context.references,
        reply_target(context).subject == subject_of_reply(context.subject),
        new_target(address).recipient == address,
        new_target(address).thread_id == email_uuid("thread:"@ + address),
        new_target(address).in_reply_to is None,
        new_target(address).references.len() == 0,
        new_target(address).subject == "Iris message"@,
{
}

/// What was sent is reported as going out from the owner into the thread of its target, at the time
/// of sending.
pub proof fn law_sent_emails_are_outbound(
    from: Seq<char>,
    target: TargetView,
    body: Seq<char>,
    id: Uuid,
    now: Timestamp,
)
    ensures
        ({
            let m = sent_message(from, target, body, id, now);
            &&& m.id == id
            &&& m.thread_id == target.thread_id
            &&& m.source == "email"@
            &&& m.source_id == "smtp:"@ + decimal(now.secs() * 1000 + now.nanos() / 1_000_000)
            &&& m.sender.source_id == from
            &&& m.sender.display_name is None
            &&& m.sender.id == email_uuid("contact:"@ + lowercase(from))
            &&& m.kind == MessageKind::Text
            &&& m.body == body
            &&& m.attachments.len() == 0
            &&& m.timestamp == now
            &&& m.is_outbound
        }),
{
}

/// A reply refers to what it answers once, behind what that refers to, and to each of those as
/// often as it does.
pub proof fn law_replies_refer_to_what_they_answer_once(original: EmailEnvelopeView)
    ensures
        ({
            let refs = reply_references(original);
            let n = original.references.len();
            let own = bare_id(original.source_id);
            let known = exists|i: int|
                0 <= i < n && bare_id(#[trigger] original.references[i]) == own;
            &&& known ==> refs.len() == n
            &&& !known ==> refs.len() == n + 1 && refs.last() == own
            &&& forall|i: int|
                0 <= i < n ==> #[trigger] refs[i] == bare_id(original.references[i])
        }),
{
    let all = bare_ids(original.references);
    let own = bare_id(original.source_id);
    if all.contains(own) {
        let i = choose|i: int| 0 <= i < all.len() && all[i] == own;
        assert(bare_id(original.references[i]) == own);
    }
    if exists|i: int|
        0 <= i < original.references.len() && bare_id(#[trigger] original.references[i]) == own {
        let i = choose|i: int|
            0 <= i < original.references.len() && bare_id(#[trigger] original.references[i])
                == own;
        assert(all[i] == own);
    }
}

/// What was sent tells its subject, to whom it went, and by which way.
pub proof fn law_sent_emails_tell_to_whom_they_went(
    from: Seq<char>,
    target: TargetView,
    body: Seq<char>,
    id: Uuid,
    now: Timestamp,
)
    ensures
        ({
            let m = sent_message(from, target, body, id, now);
            &&& m.metadata is Object && m.metadata->Object_0.len() == 3
            &&& m.metadata->Object_0[0] == ("subject"@, JsonView::Text(target.subject))
            &&& m.metadata->Object_0[1].0 == "to"@
            &&& m.metadata->Object_0[1].1 == JsonView::Array(
                seq![JsonView::Text(target.recipient)],
            )
            &&& m.metadata->Object_0[2] == ("transport"@, JsonView::Text("smtp"@))
        }),
{
}

} // verus!
