//! Outbound message contract: structured sends with optional attachments.
//!
//! Attachments are either inline bytes or stable references into the Iris attachment store,
//! resolved at the provider boundary before any external request is made.

use vstd::prelude::*;
use crate::error::{config_error, prefixed, IrisError, IrisErrorView};
use crate::ids::{uuid_text, Uuid};
use crate::json::{
    json_number, json_object, json_opt_text, json_text, member, member_views, opt_text_view, Json,
    JsonNumberView, JsonView,
};
use crate::storage::{AttachmentContent, ContentView};
use crate::text::{
    blank, copy_bytes, copy_opt, is_blank, view_list, view_opt, view_result, view_unit, views,
};

verus! {

/// A structured outbound message: body text plus optional attachments.
#[derive(Debug, PartialEq, Eq)]
pub struct OutboundMessage {
    /// Primary text body. May be empty when attachments carry the content.
    pub body: String,
    /// Attachments to dispatch, in user-provided order.
    pub attachments: Vec<OutboundAttachment>,
}

impl OutboundMessage {
    /// Convenience constructor for a text-only message.
    pub fn text(body: &str) -> (r: OutboundMessage)
        ensures
            r.body@ == body@,
            r.attachments@.len() == 0,
    {
        OutboundMessage { body: body.to_owned(), attachments: Vec::new() }
    }

    /// Whether this message carries no attachments (pure text send).
    pub fn is_text_only(&self) -> (r: bool)
        ensures
            r == (self.attachments@.len() == 0),
    {
        self.attachments.len() == 0
    }
}

/// A single outbound attachment.
#[derive(Debug, PartialEq, Eq)]
pub enum OutboundAttachment {
    /// Inline bytes supplied directly by the caller.
    Bytes {
        /// MIME type of the attachment. Must be non-empty.
        mime_type: String,
        /// Original filename, if known.
        filename: Option<String>,
        /// Raw attachment bytes. Must be non-empty.
        bytes: Vec<u8>,
    },
    /// A reference to an attachment in the Iris store, by ID.
    Stored(Uuid),
}

/// The mathematical value of an outbound attachment.
#[verifier::ext_equal]
pub enum OutboundAttachmentView {
    Bytes { mime_type: Seq<char>, filename: Option<Seq<char>>, bytes: Seq<u8> },
    Stored(Uuid),
}

impl View for OutboundAttachment {
    type V = OutboundAttachmentView;

    open spec fn view(&self) -> OutboundAttachmentView {
        match *self {
            OutboundAttachment::Bytes { mime_type, filename, bytes } => {
                OutboundAttachmentView::Bytes {
                    mime_type: mime_type@,
                    filename: view_opt(filename),
                    bytes: bytes@,
                }
            },
            OutboundAttachment::Stored(id) => OutboundAttachmentView::Stored(id),
        }
    }
}

/// A fully resolved outbound attachment ready for provider dispatch.
#[derive(Debug, PartialEq, Eq)]
pub struct ResolvedAttachment {
    /// MIME type of the attachment.
    pub mime_type: String,
    /// Original filename, if known.
    pub filename: Option<String>,
    /// Raw attachment bytes.
    pub bytes: Vec<u8>,
}

impl View for ResolvedAttachment {
    type V = ContentView;

    open spec fn view(&self) -> ContentView {
        ContentView {
            mime_type: self.mime_type@,
            filename: view_opt(self.filename),
            bytes: self.bytes@,
        }
    }
}

/// The audit summary of an attachment: its shape, never its content.
pub open spec fn summary_of(mime_type: Seq<char>, filename: Option<Seq<char>>, byte_count: nat) -> JsonView {
    JsonView::Object(
        seq![
            ("byte_count"@, JsonView::Number(JsonNumberView::Unsigned(byte_count as u64))),
            ("filename"@, opt_text_view(filename)),
            ("mime_type"@, JsonView::Text(mime_type)),
        ],
    )
}

/// The audit summaries of some attachments, in order.
pub open spec fn summaries_of(attachments: Seq<ContentView>) -> Seq<JsonView> {
    attachments.map_values(
        |attachment: ContentView|
            summary_of(attachment.mime_type, attachment.filename, attachment.bytes.len()),
    )
}

impl ResolvedAttachment {
    /// Build a resolved attachment directly from stored content.
    pub fn from_content(content: AttachmentContent) -> (r: ResolvedAttachment)
        ensures
            r@ == content@,
    {
        ResolvedAttachment {
            mime_type: content.mime_type,
            filename: content.filename,
            bytes: content.bytes,
        }
    }

    /// Content-free audit summary for this attachment: MIME type, filename, and byte count.
    pub fn audit_summary(&self) -> (r: Json)
        ensures
            r@ == summary_of(self@.mime_type, self@.filename, self@.bytes.len()),
    {
        let mut members: Vec<(String, Json)> = Vec::new();
        members.push(member("byte_count", json_number(self.bytes.len() as u64)));
        members.push(member("filename", json_opt_text(&self.filename)));
        members.push(member("mime_type", json_text(self.mime_type.as_str())));
        proof {
            assert(member_views(members@) =~= summary_of(
                self@.mime_type,
                self@.filename,
                self@.bytes.len(),
            )->Object_0);
        }
        json_object(members)
    }
}

/// Content-free audit summaries for a list of resolved attachments.
pub fn audit_summaries(attachments: &Vec<ResolvedAttachment>) -> (r: Vec<Json>)
    ensures
        views(r@) == summaries_of(views(attachments@)),
{
    let mut out: Vec<Json> = Vec::new();
    let mut i: usize = 0;
    while i < attachments.len()
        invariant
            i <= attachments@.len(),
            out@.len() == i,
            forall|j: int|
                0 <= j < i ==> (#[trigger] out@[j])@ == summary_of(
                    attachments@[j]@.mime_type,
                    attachments@[j]@.filename,
                    attachments@[j]@.bytes.len(),
                ),
        decreases attachments@.len() - i,
    {
        out.push(attachments[i].audit_summary());
        i += 1;
    }
    assert(views(out@) =~= summaries_of(views(attachments@)));
    out
}

/// What a store answers: content, or why there is none.
pub type StoreAnswer = Result<ContentView, IrisErrorView>;

/// What becomes of one attachment.
///
/// `store` tells what the store answers to an ID; there is none where no store is configured.
pub open spec fn resolved_one(
    attachment: OutboundAttachmentView,
    store: Option<spec_fn(Uuid) -> StoreAnswer>,
) -> Result<ContentView, IrisErrorView> {
    match attachment {
        OutboundAttachmentView::Bytes { mime_type, filename, bytes } => if blank(mime_type) {
            Err(IrisErrorView::Config("outbound attachment requires a non-empty MIME type"@))
        } else if bytes.len() == 0 {
            Err(IrisErrorView::Config("outbound attachment requires non-empty bytes"@))
        } else {
            Ok(ContentView { mime_type, filename, bytes })
        },
        OutboundAttachmentView::Stored(id) => match store {
            Some(answer) => match answer(id) {
                Ok(content) => Ok(content),
                Err(error) => Err(unresolved(id, error)),
            },
            None => Err(no_store(id)),
        },
    }
}

/// The error for a stored reference that the store could not answer.
pub open spec fn unresolved(id: Uuid, error: IrisErrorView) -> IrisErrorView {
    IrisErrorView::Config(
        "stored attachment "@ + uuid_text(id.value) + " could not be resolved: "@
            + error.message(),
    )
}

/// The error for a stored reference where no store is configured.
pub open spec fn no_store(id: Uuid) -> IrisErrorView {
    IrisErrorView::Config(
        "stored attachment "@ + uuid_text(id.value)
            + " cannot be resolved: no attachment store configured"@,
    )
}

/// What becomes of all attachments: every one in order, or the first error.
pub open spec fn resolved_all(
    attachments: Seq<OutboundAttachmentView>,
    store: Option<spec_fn(Uuid) -> StoreAnswer>,
) -> Result<Seq<ContentView>, IrisErrorView>
    decreases attachments.len(),
{
    if attachments.len() == 0 {
        Ok(seq![])
    } else {
        match resolved_all(attachments.drop_last(), store) {
            Ok(done) => match resolved_one(attachments.last(), store) {
                Ok(next) => Ok(done.push(next)),
                Err(error) => Err(error),
            },
            Err(error) => Err(error),
        }
    }
}

/// What resolving one attachment takes.
pub enum ResolveStep {
    /// The attachment is resolved.
    Ready(ResolvedAttachment),
    /// The store must be asked for this ID.
    Fetch(Uuid),
    /// Resolution fails.
    Failed(IrisError),
}

/// Starts on one attachment: an inline one is validated, a stored one must be fetched.
pub fn begin_resolve(attachment: &OutboundAttachment, has_store: bool) -> (r: ResolveStep)
    ensures
        match r {
            ResolveStep::Ready(resolved) => attachment is Bytes && forall|
                store: Option<spec_fn(Uuid) -> StoreAnswer>,
            |
                #[trigger] resolved_one(attachment@, store) == Ok::<ContentView, IrisErrorView>(
                    resolved@,
                ),
            ResolveStep::Fetch(id) => attachment@ == OutboundAttachmentView::Stored(id)
                && has_store,
            ResolveStep::Failed(error) => forall|store: Option<spec_fn(Uuid) -> StoreAnswer>|
                store is Some == has_store ==> #[trigger] resolved_one(attachment@, store) == Err::<
                    ContentView,
                    IrisErrorView,
                >(error@),
        },
        attachment is Stored && has_store ==> r is Fetch,
{
    match attachment {
        OutboundAttachment::Bytes { mime_type, filename, bytes } => {
            if is_blank(mime_type.as_str()) {
                return ResolveStep::Failed(
                    config_error("outbound attachment requires a non-empty MIME type"),
                );
            }
            if bytes.len() == 0 {
                return ResolveStep::Failed(
                    config_error("outbound attachment requires non-empty bytes"),
                );
            }
            ResolveStep::Ready(
                ResolvedAttachment {
                    mime_type: mime_type.clone(),
                    filename: copy_opt(filename),
                    bytes: copy_bytes(bytes),
                },
            )
        },
        OutboundAttachment::Stored(id) => if has_store {
            ResolveStep::Fetch(*id)
        } else {
            let mut message = prefixed("stored attachment ", id.text().as_str());
            message.append(" cannot be resolved: no attachment store configured");
            ResolveStep::Failed(IrisError::Config(message))
        },
    }
}

/// Finishes a stored attachment with what the store answered.
pub fn finish_resolve(id: Uuid, answer: Result<AttachmentContent, IrisError>) -> (r: Result<
    ResolvedAttachment,
    IrisError,
>)
    ensures
        view_result(r) == (match view_result(answer) {
            Ok(content) => Ok::<ContentView, IrisErrorView>(content),
            Err(error) => Err(unresolved(id, error)),
        }),
{
    match answer {
        Ok(content) => Ok(ResolvedAttachment::from_content(content)),
        Err(error) => {
            let mut message = prefixed("stored attachment ", id.text().as_str());
            message.append(" could not be resolved: ");
            message.append(error.describe().as_str());
            Err(IrisError::Config(message))
        },
    }
}

/// The content of an attachment store.
pub struct StoredContents {
    pub entries: Vec<(Uuid, AttachmentContent)>,
}

/// The first content kept under an ID.
pub open spec fn first_content(entries: Seq<(Uuid, AttachmentContent)>, id: Uuid) -> Option<ContentView>
    decreases entries.len(),
{
    if entries.len() == 0 {
        None
    } else if entries[0].0 == id {
        Some(entries[0].1@)
    } else {
        first_content(entries.drop_first(), id)
    }
}

impl StoredContents {
    /// What the store answers to an ID.
    pub open spec fn answer(self) -> spec_fn(Uuid) -> StoreAnswer {
        |id: Uuid|
            match first_content(self.entries@, id) {
                Some(content) => Ok::<ContentView, IrisErrorView>(content),
                None => Err(
                    IrisErrorView::NotFound(
                        "attachment "@ + uuid_text(id.value) + " not found"@,
                    ),
                ),
            }
    }

    /// Retrieves attachment content by ID.
    pub fn get(&self, id: Uuid) -> (r: Result<AttachmentContent, IrisError>)
        ensures
            view_result(r) == (self.answer())(id),
    {
        let ghost all = self.entries@;
        let mut i: usize = 0;
        assert(all.skip(0) == all);
        while i < self.entries.len()
            invariant
                i <= self.entries@.len(),
                all == self.entries@,
                first_content(all, id) == first_content(all.skip(i as int), id),
            decreases self.entries@.len() - i,
        {
            assert(all.skip(i as int)[0] == all[i as int]);
            if self.entries[i].0 == id {
                return Ok(self.entries[i].1.clone());
            }
            assert(all.skip(i as int).drop_first() == all.skip(i + 1));
            i += 1;
        }
        let mut message = prefixed("attachment ", id.text().as_str());
        message.append(" not found");
        Err(IrisError::NotFound(message))
    }
}

/// What a store of the given content answers, nothing where there is no store.
pub open spec fn store_answers(store: Option<&StoredContents>) -> Option<
    spec_fn(Uuid) -> StoreAnswer,
> {
    match store {
        Some(store) => Some(store.answer()),
        None => None,
    }
}

/// Resolve the attachments of `message` against an optional `store`.
///
/// Inline attachments are validated in place and never require a store. A missing store or a
/// missing stored ID fails the whole resolution so the provider never dispatches a partial send.
/// The returned list preserves user-provided order exactly.
pub fn resolve_attachments(message: &OutboundMessage, store: Option<&StoredContents>) -> (r: Result<
    Vec<ResolvedAttachment>,
    IrisError,
>)
    ensures
        view_list(r) == resolved_all(views(message.attachments@), store_answers(store)),
{
    let ghost all = views(message.attachments@);
    let ghost answers = store_answers(store);
    let mut out: Vec<ResolvedAttachment> = Vec::new();
    let mut i: usize = 0;
    assert(all.take(0) =~= seq![]);
    assert(views(out@) =~= seq![]);
    while i < message.attachments.len()
        invariant
            i <= message.attachments@.len(),
            all == views(message.attachments@),
            answers == store_answers(store),
            resolved_all(all.take(i as int), answers) == Ok::<Seq<ContentView>, IrisErrorView>(
                views(out@),
            ),
        decreases message.attachments@.len() - i,
    {
        let ghost before = out@;
        let ghost next = all.take(i + 1);
        proof {
            assert(next.drop_last() =~= all.take(i as int));
            assert(next.last() == message.attachments@[i as int]@);
            lemma_resolved_prefix(all, answers, i + 1);
        }
        let step = begin_resolve(&message.attachments[i], store.is_some());
        match step {
            ResolveStep::Ready(resolved) => {
                assert(resolved_one(next.last(), answers) == Ok::<ContentView, IrisErrorView>(
                    resolved@,
                ));
                out.push(resolved);
                assert(views(out@) =~= views(before).push(resolved@));
            },
            ResolveStep::Failed(error) => {
                assert(resolved_one(next.last(), answers) == Err::<ContentView, IrisErrorView>(
                    error@,
                ));
                return Err(error);
            },
            ResolveStep::Fetch(id) => match store {
                Some(store) => match finish_resolve(id, store.get(id)) {
                    Ok(resolved) => {
                        out.push(resolved);
                        assert(views(out@) =~= views(before).push(resolved@));
                    },
                    Err(error) => {
                        return Err(error);
                    },
                },
                None => {},
            },
        }
        i += 1;
    }
    assert(all.take(all.len() as int) =~= all);
    Ok(out)
}

/// An error among the first attachments is the error of them all.
pub proof fn lemma_resolved_prefix(
    attachments: Seq<OutboundAttachmentView>,
    store: Option<spec_fn(Uuid) -> StoreAnswer>,
    n: int,
)
    requires
        0 <= n <= attachments.len(),
    ensures
        resolved_all(attachments.take(n), store) is Err ==> resolved_all(attachments, store)
            == resolved_all(attachments.take(n), store),
    decreases attachments.len() - n,
{
    if n < attachments.len() {
        lemma_resolved_prefix(attachments, store, n + 1);
        assert(attachments.take(n + 1).drop_last() =~= attachments.take(n));
    } else {
        assert(attachments.take(n) =~= attachments);
    }
}

/// Resolution preserves the user's order: attachment for attachment, all or none.
pub proof fn law_resolution_keeps_order(
    attachments: Seq<OutboundAttachmentView>,
    store: Option<spec_fn(Uuid) -> StoreAnswer>,
)
    ensures
        resolved_all(attachments, store) is Ok <==> forall|i: int|
            0 <= i < attachments.len() ==> resolved_one(#[trigger] attachments[i], store) is Ok,
        resolved_all(attachments, store) matches Ok(done) ==> done.len() == attachments.len()
            && forall|i: int|
            0 <= i < done.len() ==> resolved_one(attachments[i], store) == Ok::<
                ContentView,
                IrisErrorView,
            >(#[trigger] done[i]),
    decreases attachments.len(),
{
    if attachments.len() > 0 {
        let front = attachments.drop_last();
        law_resolution_keeps_order(front, store);
        if forall|i: int|
            0 <= i < attachments.len() ==> resolved_one(#[trigger] attachments[i], store) is Ok {
            assert forall|i: int| 0 <= i < front.len() implies resolved_one(
                #[trigger] front[i],
                store,
            ) is Ok by {
                assert(front[i] == attachments[i]);
            }
            assert(resolved_one(attachments[attachments.len() - 1], store) is Ok);
        }
        if resolved_all(attachments, store) is Ok {
            assert forall|i: int| 0 <= i < attachments.len() implies resolved_one(
                #[trigger] attachments[i],
                store,
            ) is Ok by {
                if i < front.len() {
                    assert(front[i] == attachments[i]);
                }
            }
        }
    }
}

/// An audit summary tells nothing of the bytes but how many they are.
pub proof fn law_summary_is_content_free(a: ContentView, b: ContentView)
    requires
        a.mime_type == b.mime_type,
        a.filename == b.filename,
        a.bytes.len() == b.bytes.len(),
    ensures
        summaries_of(seq![a]) == summaries_of(seq![b]),
{
    assert(summaries_of(seq![a]) =~= summaries_of(seq![b]));
}

/// Whether capability gating lets a message pass.
pub open spec fn gate(attachments: nat, provider_id: Seq<char>, supported: bool) -> Result<
    (),
    IrisErrorView,
> {
    if attachments > 0 && !supported {
        Err(
            IrisErrorView::UnsupportedCapability {
                provider: provider_id,
                capability: "SendAttachments"@,
            },
        )
    } else {
        Ok(())
    }
}

/// Enforce attachment capability gating for a send.
///
/// Providers call this before any external request: when `message` carries attachments but the
/// provider does not advertise `SendAttachments`, the send fails before dispatch.
pub fn enforce_capability(
    message: &OutboundMessage,
    provider_id: &str,
    supports_attachments: bool,
) -> (r: Result<(), IrisError>)
    ensures
        view_unit(r) == gate(message.attachments@.len(), provider_id@, supports_attachments),
{
    if !message.is_text_only() && !supports_attachments {
        return Err(
            IrisError::UnsupportedCapability {
                provider: provider_id.to_owned(),
                capability: "SendAttachments".to_owned(),
            },
        );
    }
    Ok(())
}

/// Attachments are refused where the provider cannot send them, and nothing else is.
pub proof fn law_only_attachments_need_the_capability(
    attachments: nat,
    provider_id: Seq<char>,
    supported: bool,
)
    ensures
        gate(attachments, provider_id, supported) is Ok <==> attachments == 0 || supported,
        gate(attachments, provider_id, supported) matches Err(error) ==> error
            == (IrisErrorView::UnsupportedCapability {
            provider: provider_id,
            capability: "SendAttachments"@,
        }),
{
}

/// Given bytes are sent as they are, but for a blank type or no bytes at all; a stored attachment
/// is what the store holds under its ID, and fails where there is no store or it has none.
pub proof fn law_resolution_keeps_the_content(
    attachment: OutboundAttachmentView,
    store: Option<spec_fn(Uuid) -> StoreAnswer>,
)
    ensures
        attachment matches OutboundAttachmentView::Bytes { mime_type, filename, bytes } ==> {
            &&& resolved_one(attachment, store) is Ok <==> !blank(mime_type) && bytes.len() > 0
            &&& resolved_one(attachment, store) matches Ok(content) ==> content.mime_type
                == mime_type && content.filename == filename && content.bytes == bytes
        },
        attachment matches OutboundAttachmentView::Stored(id) ==> {
            &&& resolved_one(attachment, store) is Ok <==> (store matches Some(answer) && answer(
                id,
            ) is Ok)
            &&& store matches Some(answer) ==> (answer(id) matches Ok(content) ==> resolved_one(
                attachment,
                store,
            ) == Ok::<ContentView, IrisErrorView>(content))
        },
{
}

/// A store answers an ID with the first content it holds under it.
pub proof fn law_a_store_answers_with_what_it_holds(
    entries: Seq<(Uuid, AttachmentContent)>,
    id: Uuid,
    k: int,
)
    ensures
        0 <= k < entries.len() && entries[k].0 == id && (forall|j: int|
            0 <= j < k ==> (#[trigger] entries[j]).0 != id) ==> first_content(entries, id) == Some(
            entries[k].1@,
        ),
        (forall|j: int| 0 <= j < entries.len() ==> (#[trigger] entries[j]).0 != id)
            ==> first_content(entries, id) is None,
    decreases entries.len(),
{
    if entries.len() > 0 {
        let rest = entries.drop_first();
        law_a_store_answers_with_what_it_holds(rest, id, k - 1);
        assert forall|j: int| 0 <= j < rest.len() implies #[trigger] rest[j] == entries[j + 1] by {}
    }
}

/// A summary tells the number of bytes, the name and the type of each attachment, in their order.
pub proof fn law_summaries_tell_size_name_and_type(attachments: Seq<ContentView>, i: int)
    requires
        0 <= i < attachments.len(),
    ensures
        summaries_of(attachments).len() == attachments.len(),
        ({
            let members = summaries_of(attachments)[i]->Object_0;
            let content = attachments[i];
            &&& summaries_of(attachments)[i] is Object && members.len() == 3
            &&& members[0] == (
                "byte_count"@,
                JsonView::Number(JsonNumberView::Unsigned(content.bytes.len() as u64)),
            )
            &&& members[1].0 == "filename"@
            &&& content.filename matches Some(name) ==> members[1].1 == JsonView::Text(name)
            &&& content.filename is None ==> members[1].1 == JsonView::Null
            &&& members[2] == ("mime_type"@, JsonView::Text(content.mime_type))
        }),
{
}

} // verus!
