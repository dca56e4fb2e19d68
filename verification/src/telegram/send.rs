//! Sending through Telegram, one request at a time.
//!
//! A text message is one request. Attachments are one request each: the first carries the body as
//! its caption. A send that fails behind accepted requests records what was dispatched before the
//! error is returned; one whose first request fails records nothing.

use vstd::prelude::*;
use crate::error::{IrisError, IrisErrorView};
use crate::json::{
    json_array, json_number, json_object, json_text, member, member_views, Json, JsonNumberView,
    JsonView,
};
use crate::model::{whole_opt, whole_result, Message, MessageView, WholeMessage};
use crate::outbound::{audit_summaries, summaries_of, ResolvedAttachment};
use crate::storage::ContentView;
use crate::telegram::{
    conventional_extension, default_filename, media_field_name, media_field_of, media_method_of,
    telegram_media_method,
};
use crate::text::{lowered_ascii, trimmed, view_unit, views};

verus! {

/// How far a send has come.
pub enum SendState {
    /// So many requests were accepted; the first was answered with this message.
    Dispatch { accepted: usize, first: Option<Message> },
    /// The audit log must record this before the outcome is returned.
    Audit { metadata: Json, outcome: Result<Message, IrisError> },
    /// The outcome is returned.
    Finish { outcome: Result<Message, IrisError> },
}

/// The mathematical value of the state of a send.
#[verifier::ext_equal]
pub enum SendStateView {
    Dispatch { accepted: nat, first: Option<WholeMessage> },
    Audit { metadata: JsonView, outcome: Result<WholeMessage, IrisErrorView> },
    Finish { outcome: Result<WholeMessage, IrisErrorView> },
}

impl View for SendState {
    type V = SendStateView;

    open spec fn view(&self) -> SendStateView {
        match *self {
            SendState::Dispatch { accepted, first } => SendStateView::Dispatch {
                accepted: accepted as nat,
                first: whole_opt(first),
            },
            SendState::Audit { metadata, outcome } => SendStateView::Audit {
                metadata: metadata@,
                outcome: whole_result(outcome),
            },
            SendState::Finish { outcome } => SendStateView::Finish {
                outcome: whole_result(outcome),
            },
        }
    }
}

/// A send to a chat.
pub struct SendRun {
    pub chat_id: i64,
    pub body: String,
    /// The attachments to dispatch, none for a text message.
    pub resolved: Vec<ResolvedAttachment>,
    pub state: SendState,
}

/// What a send must do next.
pub enum SendAction {
    /// Post the text.
    PostText { chat_id: i64, text: String },
    /// Post the attachment at this index.
    PostMedia {
        chat_id: i64,
        index: usize,
        method: &'static str,
        field: &'static str,
        filename: String,
        caption: String,
    },
    /// Record this in the audit log.
    Record(Json),
    /// Return the outcome.
    Return,
}

/// The audit metadata of a text that was sent.
pub open spec fn text_audit(sent: MessageView) -> JsonView {
    JsonView::Object(
        seq![
            ("attachment_count"@, JsonView::Number(JsonNumberView::Unsigned(0))),
            ("message_id"@, JsonView::Text(sent.source_id)),
            ("operation"@, JsonView::Text("send_message"@)),
        ],
    )
}

/// The audit metadata of attachments that were all sent.
pub open spec fn media_audit(sent: MessageView, attachments: Seq<ContentView>) -> JsonView {
    JsonView::Object(
        seq![
            (
                "attachment_count"@,
                JsonView::Number(JsonNumberView::Unsigned(attachments.len() as u64)),
            ),
            ("attachments"@, JsonView::Array(summaries_of(attachments))),
            ("message_id"@, JsonView::Text(sent.source_id)),
            ("operation"@, JsonView::Text("send_message"@)),
        ],
    )
}

/// The audit metadata of attachments of which only these were sent.
pub open spec fn partial_audit(dispatched: Seq<ContentView>) -> JsonView {
    JsonView::Object(
        seq![
            (
                "attachment_count"@,
                JsonView::Number(JsonNumberView::Unsigned(dispatched.len() as u64)),
            ),
            ("attachments"@, JsonView::Array(summaries_of(dispatched))),
            ("operation"@, JsonView::Text("send_message"@)),
            ("outcome"@, JsonView::Text("partial_dispatch"@)),
        ],
    )
}

/// The first message of a send, once a request more was accepted.
pub open spec fn first_message(first: Option<WholeMessage>, sent: WholeMessage) -> WholeMessage {
    match first {
        Some(first) => first,
        None => sent,
    }
}

/// The state behind the answer to a request.
pub open spec fn state_after_reply(
    resolved: Seq<ContentView>,
    state: SendStateView,
    reply: Result<WholeMessage, IrisErrorView>,
) -> SendStateView {
    match state {
        SendStateView::Dispatch { accepted, first } => if resolved.len() == 0 {
            match reply {
                Ok(sent) => SendStateView::Audit {
                    metadata: text_audit(sent.message),
                    outcome: Ok(sent),
                },
                Err(error) => SendStateView::Finish { outcome: Err(error) },
            }
        } else {
            match reply {
                Ok(sent) => if accepted + 1 < resolved.len() {
                    SendStateView::Dispatch {
                        accepted: accepted + 1,
                        first: Some(first_message(first, sent)),
                    }
                } else {
                    SendStateView::Audit {
                        metadata: media_audit(first_message(first, sent).message, resolved),
                        outcome: Ok(first_message(first, sent)),
                    }
                },
                Err(error) => if accepted == 0 {
                    SendStateView::Finish { outcome: Err(error) }
                } else {
                    SendStateView::Audit {
                        metadata: partial_audit(resolved.take(accepted as int)),
                        outcome: Err(error),
                    }
                },
            }
        },
        other => other,
    }
}

/// The state behind the answer of the audit log: its error takes the place of the outcome.
pub open spec fn state_after_audit(state: SendStateView, result: Result<(), IrisErrorView>) -> SendStateView {
    match state {
        SendStateView::Audit { outcome, .. } => match result {
            Ok(()) => SendStateView::Finish { outcome },
            Err(error) => SendStateView::Finish { outcome: Err(error) },
        },
        other => other,
    }
}

fn text_metadata(sent: &Message) -> (r: Json)
    ensures
        r@ == text_audit(sent@),
{
    let mut members: Vec<(String, Json)> = Vec::new();
    members.push(member("attachment_count", json_number(0)));
    members.push(member("message_id", json_text(sent.source_id.as_str())));
    members.push(member("operation", json_text("send_message")));
    assert(member_views(members@) =~= text_audit(sent@)->Object_0);
    json_object(members)
}

fn media_metadata(sent: &Message, resolved: &Vec<ResolvedAttachment>) -> (r: Json)
    ensures
        r@ == media_audit(sent@, views(resolved@)),
{
    let mut members: Vec<(String, Json)> = Vec::new();
    members.push(member("attachment_count", json_number(resolved.len() as u64)));
    members.push(member("attachments", json_array(audit_summaries(resolved))));
    members.push(member("message_id", json_text(sent.source_id.as_str())));
    members.push(member("operation", json_text("send_message")));
    assert(member_views(members@) =~= media_audit(sent@, views(resolved@))->Object_0);
    json_object(members)
}

fn partial_metadata(resolved: &Vec<ResolvedAttachment>, accepted: usize) -> (r: Json)
    requires
        accepted <= resolved@.len(),
    ensures
        r@ == partial_audit(views(resolved@).take(accepted as int)),
{
    let mut summaries: Vec<Json> = Vec::new();
    let mut i: usize = 0;
    let ghost dispatched = views(resolved@).take(accepted as int);
    while i < accepted
        invariant
            i <= accepted <= resolved@.len(),
            dispatched == views(resolved@).take(accepted as int),
            summaries@.len() == i,
            forall|j: int|
                0 <= j < i ==> (#[trigger] summaries@[j])@ == summaries_of(dispatched)[j],
        decreases accepted - i,
    {
        summaries.push(resolved[i].audit_summary());
        i += 1;
    }
    assert(views(summaries@) =~= summaries_of(dispatched));
    let mut members: Vec<(String, Json)> = Vec::new();
    members.push(member("attachment_count", json_number(accepted as u64)));
    members.push(member("attachments", json_array(summaries)));
    members.push(member("operation", json_text("send_message")));
    members.push(member("outcome", json_text("partial_dispatch")));
    assert(member_views(members@) =~= partial_audit(dispatched)->Object_0);
    json_object(members)
}

impl SendRun {
    /// Whether a request is left wherever the send is still dispatching.
    pub open spec fn valid(self) -> bool {
        self.state matches SendState::Dispatch { accepted, first } ==> {
            &&& (self.resolved@.len() == 0 ==> accepted == 0)
            &&& (self.resolved@.len() > 0 ==> accepted < self.resolved@.len())
            &&& (first is Some <==> accepted > 0)
        }
    }

    /// Starts a send of a body and resolved attachments to a chat.
    pub fn start(chat_id: i64, body: &str, resolved: Vec<ResolvedAttachment>) -> (r: SendRun)
        ensures
            r.valid(),
            r.chat_id == chat_id,
            r.body@ == body@,
            r.resolved == resolved,
            r.state@ == (SendStateView::Dispatch { accepted: 0, first: None }),
    {
        SendRun {
            chat_id,
            body: body.to_owned(),
            resolved,
            state: SendState::Dispatch { accepted: 0, first: None },
        }
    }

    /// What must be done next: a request for each attachment in order, the first with the body as
    /// its caption.
    pub fn action(&self) -> (r: SendAction)
        requires
            self.valid(),
        ensures
            match (self.state, r) {
                (SendState::Dispatch { accepted, .. }, SendAction::PostText { chat_id, text }) => {
                    &&& self.resolved@.len() == 0
                    &&& chat_id == self.chat_id
                    &&& text@ == self.body@
                },
                (
                    SendState::Dispatch { accepted, .. },
                    SendAction::PostMedia { chat_id, index, method, field, filename, caption },
                ) => {
                    let attachment = self.resolved@[accepted as int]@;
                    &&& self.resolved@.len() > 0
                    &&& chat_id == self.chat_id
                    &&& index == accepted
                    &&& method@ == media_method_of(attachment.mime_type)
                    &&& field@ == media_field_of(method@)
                    &&& filename@ == (match attachment.filename {
                        Some(name) => name,
                        None => "attachment."@ + conventional_extension(
                            lowered_ascii(trimmed(attachment.mime_type)),
                        ),
                    })
                    &&& caption@ == (if index == 0 {
                        self.body@
                    } else {
                        seq![]
                    })
                },
                (SendState::Audit { metadata, .. }, SendAction::Record(json)) => json@
                    == metadata@,
                (SendState::Finish { .. }, SendAction::Return) => true,
                _ => false,
            },
    {
        match &self.state {
            SendState::Dispatch { accepted, .. } => {
                if self.resolved.len() == 0 {
                    return SendAction::PostText {
                        chat_id: self.chat_id,
                        text: self.body.clone(),
                    };
                }
                let attachment = &self.resolved[*accepted];
                let method = telegram_media_method(attachment.mime_type.as_str());
                SendAction::PostMedia {
                    chat_id: self.chat_id,
                    index: *accepted,
                    method,
                    field: media_field_name(method),
                    filename: match &attachment.filename {
                        Some(name) => name.clone(),
                        None => default_filename(attachment.mime_type.as_str()),
                    },
                    caption: if *accepted == 0 {
                        self.body.clone()
                    } else {
                        String::new()
                    },
                }
            },
            SendState::Audit { metadata, .. } => SendAction::Record(metadata.clone()),
            SendState::Finish { .. } => SendAction::Return,
        }
    }

    /// Takes the answer to the request that [`SendRun::action`] asked for.
    pub fn replied(self, reply: Result<Message, IrisError>) -> (r: SendRun)
        requires
            self.valid(),
        ensures
            r.valid(),
            r.chat_id == self.chat_id,
            r.body == self.body,
            r.resolved == self.resolved,
            r.state@ == state_after_reply(
                views(self.resolved@),
                self.state@,
                whole_result(reply),
            ),
    {
        let ghost contents = views(self.resolved@);
        assert(contents.len() == self.resolved@.len());
        let SendRun { chat_id, body, resolved, state } = self;
        let next = match state {
            SendState::Dispatch { accepted, first } => if resolved.len() == 0 {
                match reply {
                    Ok(sent) => SendState::Audit {
                        metadata: text_metadata(&sent),
                        outcome: Ok(sent),
                    },
                    Err(error) => SendState::Finish { outcome: Err(error) },
                }
            } else {
                match reply {
                    Ok(sent) => {
                        let kept = match first {
                            Some(first) => first,
                            None => sent,
                        };
                        if accepted + 1 < resolved.len() {
                            SendState::Dispatch { accepted: accepted + 1, first: Some(kept) }
                        } else {
                            SendState::Audit {
                                metadata: media_metadata(&kept, &resolved),
                                outcome: Ok(kept),
                            }
                        }
                    },
                    Err(error) => if accepted == 0 {
                        SendState::Finish { outcome: Err(error) }
                    } else {
                        SendState::Audit {
                            metadata: partial_metadata(&resolved, accepted),
                            outcome: Err(error),
                        }
                    },
                }
            },
            other => other,
        };
        SendRun { chat_id, body, resolved, state: next }
    }

    /// Takes the answer of the audit log.
    pub fn recorded(self, result: Result<(), IrisError>) -> (r: SendRun)
        requires
            self.valid(),
        ensures
            r.valid(),
            r.chat_id == self.chat_id,
            r.body == self.body,
            r.resolved == self.resolved,
            r.state@ == state_after_audit(self.state@, view_unit(result)),
    {
        let SendRun { chat_id, body, resolved, state } = self;
        let next = match state {
            SendState::Audit { metadata: _, outcome } => match result {
                Ok(()) => SendState::Finish { outcome },
                Err(error) => SendState::Finish { outcome: Err(error) },
            },
            other => other,
        };
        SendRun { chat_id, body, resolved, state: next }
    }
}

/// The state of a send behind some answers.
pub open spec fn state_after(
    resolved: Seq<ContentView>,
    replies: Seq<Result<WholeMessage, IrisErrorView>>,
) -> SendStateView
    decreases replies.len(),
{
    if replies.len() == 0 {
        SendStateView::Dispatch { accepted: 0, first: None }
    } else {
        state_after_reply(resolved, state_after(resolved, replies.drop_last()), replies.last())
    }
}

proof fn lemma_accepted(
    resolved: Seq<ContentView>,
    replies: Seq<Result<WholeMessage, IrisErrorView>>,
)
    requires
        replies.len() < resolved.len(),
        forall|i: int| 0 <= i < replies.len() ==> (#[trigger] replies[i]) is Ok,
    ensures
        state_after(resolved, replies) == (SendStateView::Dispatch {
            accepted: replies.len(),
            first: if replies.len() == 0 {
                None
            } else {
                Some(replies[0]->Ok_0)
            },
        }),
    decreases replies.len(),
{
    if replies.len() > 0 {
        let front = replies.drop_last();
        assert forall|i: int| 0 <= i < front.len() implies (#[trigger] front[i]) is Ok by {
            assert(replies[i] is Ok);
        }
        assert(replies[replies.len() - 1] is Ok);
        lemma_accepted(resolved, front);
    }
}

/// Where every attachment is accepted, all are recorded, and the message of the first request is
/// what the send returns.
pub proof fn law_a_full_send_returns_the_first_message(
    resolved: Seq<ContentView>,
    replies: Seq<Result<WholeMessage, IrisErrorView>>,
)
    requires
        resolved.len() > 0,
        replies.len() == resolved.len(),
        forall|i: int| 0 <= i < replies.len() ==> (#[trigger] replies[i]) is Ok,
    ensures
        state_after(resolved, replies) == (SendStateView::Audit {
            metadata: media_audit(replies[0]->Ok_0.message, resolved),
            outcome: replies[0],
        }),
{
    let front = replies.drop_last();
    assert forall|i: int| 0 <= i < front.len() implies (#[trigger] front[i]) is Ok by {
        assert(replies[i] is Ok);
    }
    assert(replies[replies.len() - 1] is Ok);
    assert(replies[0] is Ok);
    lemma_accepted(resolved, front);
}

/// Where a request fails behind accepted ones, exactly the attachments before it are recorded as
/// dispatched, and the send returns the error.
pub proof fn law_a_partial_send_records_what_was_dispatched(
    resolved: Seq<ContentView>,
    replies: Seq<Result<WholeMessage, IrisErrorView>>,
)
    requires
        1 < replies.len() <= resolved.len(),
        forall|i: int| 0 <= i < replies.len() - 1 ==> (#[trigger] replies[i]) is Ok,
        replies.last() is Err,
    ensures
        state_after(resolved, replies) == (SendStateView::Audit {
            metadata: partial_audit(resolved.take(replies.len() - 1)),
            outcome: replies.last(),
        }),
{
    let front = replies.drop_last();
    assert forall|i: int| 0 <= i < front.len() implies (#[trigger] front[i]) is Ok by {
        assert(replies[i] is Ok);
    }
    lemma_accepted(resolved, front);
}

/// Where the first request fails, nothing was dispatched: the send returns the error, and nothing
/// is recorded.
pub proof fn law_a_failed_first_request_is_not_recorded(
    resolved: Seq<ContentView>,
    reply: Result<WholeMessage, IrisErrorView>,
)
    requires
        reply is Err,
    ensures
        state_after(resolved, seq![reply]) == (SendStateView::Finish { outcome: reply }),
{
    let replies = seq![reply];
    assert(replies.drop_last() =~= seq![]);
    assert(state_after(resolved, replies.drop_last()) == (SendStateView::Dispatch {
        accepted: 0,
        first: None,
    }));
    assert(replies.last() == reply);
}

/// A text is sent in one request; what was sent is recorded and returned, and an error is returned
/// unrecorded.
pub proof fn law_a_text_is_sent_in_one_request(
    sent: WholeMessage,
    error: IrisErrorView,
)
    ensures
        state_after(seq![], seq![Ok(sent)]) matches SendStateView::Audit { metadata, outcome }
            && outcome == Ok::<WholeMessage, IrisErrorView>(sent) && (metadata
            matches JsonView::Object(members) && members.len() == 3 && members[0] == (
            "attachment_count"@,
            JsonView::Number(JsonNumberView::Unsigned(0)),
        ) && members[1] == ("message_id"@, JsonView::Text(sent.message.source_id)) && members[2]
            == ("operation"@, JsonView::Text("send_message"@))),
        state_after(seq![], seq![Err(error)]) == (SendStateView::Finish { outcome: Err(error) }),
{
    let none = Seq::<ContentView>::empty();
    reveal_with_fuel(state_after, 2);
    assert(seq![Ok::<WholeMessage, IrisErrorView>(sent)].drop_last() =~= seq![]);
    assert(seq![Err::<WholeMessage, IrisErrorView>(error)].drop_last() =~= seq![]);
    assert(state_after(none, seq![]) == (SendStateView::Dispatch { accepted: 0, first: None }));
}

/// What was sent is recorded with the number and the summaries of its attachments and the message
/// it made; what was sent in part is recorded as such, with what went out and no message.
pub proof fn law_sends_are_recorded_with_what_went_out(
    sent: MessageView,
    attachments: Seq<ContentView>,
)
    ensures
        ({
            let count = JsonView::Number(JsonNumberView::Unsigned(attachments.len() as u64));
            let full = media_audit(sent, attachments)->Object_0;
            let part = partial_audit(attachments)->Object_0;
            &&& media_audit(sent, attachments) is Object && full.len() == 4
            &&& full[0] == ("attachment_count"@, count)
            &&& full[1] == ("attachments"@, JsonView::Array(summaries_of(attachments)))
            &&& full[2] == ("message_id"@, JsonView::Text(sent.source_id))
            &&& full[3] == ("operation"@, JsonView::Text("send_message"@))
            &&& partial_audit(attachments) is Object && part.len() == 4
            &&& part[0] == ("attachment_count"@, count)
            &&& part[1] == ("attachments"@, JsonView::Array(summaries_of(attachments)))
            &&& part[2] == ("operation"@, JsonView::Text("send_message"@))
            &&& part[3] == ("outcome"@, JsonView::Text("partial_dispatch"@))
        }),
{
}

/// An outcome is returned once it is recorded; where the recording fails, its error is.
pub proof fn law_outcomes_are_returned_once_recorded(
    metadata: JsonView,
    outcome: Result<WholeMessage, IrisErrorView>,
    error: IrisErrorView,
)
    ensures
        state_after_audit(SendStateView::Audit { metadata, outcome }, Ok(()))
            == (SendStateView::Finish { outcome }),
        state_after_audit(SendStateView::Audit { metadata, outcome }, Err(error))
            == (SendStateView::Finish { outcome: Err(error) }),
{
}

} // verus!
