//! Fetching Telegram files into the attachment store.
//!
//! Two requests fetch a file: `getFile` tells its path, and the bytes lie under that path. The
//! bytes are then stored, so that callers receive stable Iris URLs instead of transient file ids.

use vstd::prelude::*;
use crate::error::{prefixed, IrisError, IrisErrorView};
use crate::ids::Uuid;
use crate::ingest::opt_number_view;
use crate::json::{
    json_number, json_object, json_opt_text, json_text, member, member_views, opt_text_view, Json,
    JsonView,
};
use crate::model::{attachment_ids, Attachment, AttachmentView, Message, MessageView};
use crate::storage::{AttachmentContent, AttachmentRef, ContentView};
use crate::telegram::{TelegramFile, TelegramProvider, TelegramResponse};
use crate::text::{begins, strip_prefix, view_opt, view_unit, views};

verus! {

/// How a request was answered.
pub enum HttpReply<T> {
    /// It was not: the transport failed.
    Unreachable(String),
    /// With a status that is no success.
    Refused(String),
    /// With a success whose content could not be read.
    Unreadable(String),
    /// With content.
    Content(T),
}

/// What is to be done next for a file.
pub enum DownloadStep {
    /// Ask under this URL for the bytes at this path.
    Fetch { url: String, file_path: String },
    /// Store this content.
    Store(AttachmentContent),
    /// Give up.
    Failed(IrisError),
}

/// The mathematical value of a step.
#[verifier::ext_equal]
pub enum DownloadStepView {
    Fetch { url: Seq<char>, file_path: Seq<char> },
    Store(ContentView),
    Failed(IrisErrorView),
}

impl View for DownloadStep {
    type V = DownloadStepView;

    open spec fn view(&self) -> DownloadStepView {
        match *self {
            DownloadStep::Fetch { url, file_path } => DownloadStepView::Fetch {
                url: url@,
                file_path: file_path@,
            },
            DownloadStep::Store(content) => DownloadStepView::Store(content@),
            DownloadStep::Failed(error) => DownloadStepView::Failed(error@),
        }
    }
}

/// The step behind the answer to `getFile`.
pub open spec fn step_after_file(
    provider: TelegramProvider,
    reply: HttpReply<TelegramResponse<TelegramFile>>,
) -> DownloadStepView {
    match reply {
        HttpReply::Unreachable(error) => DownloadStepView::Failed(
            IrisErrorView::Transport(error@),
        ),
        HttpReply::Refused(status) => DownloadStepView::Failed(
            IrisErrorView::Transport("telegram getFile returned HTTP "@ + status@),
        ),
        HttpReply::Unreadable(error) => DownloadStepView::Failed(
            IrisErrorView::Serialization(error@),
        ),
        HttpReply::Content(envelope) => match envelope.result {
            Some(file) if envelope.ok => DownloadStepView::Fetch {
                url: provider.base_url@ + "/file/bot"@ + provider.bot_token@ + "/"@
                    + file.file_path@,
                file_path: file.file_path@,
            },
            _ => DownloadStepView::Failed(envelope.failure()),
        },
    }
}

/// Decides what follows the answer to `getFile`.
pub fn after_file(
    provider: &TelegramProvider,
    reply: HttpReply<TelegramResponse<TelegramFile>>,
) -> (r: DownloadStep)
    ensures
        r@ == step_after_file(*provider, reply),
{
    match reply {
        HttpReply::Unreachable(error) => DownloadStep::Failed(IrisError::Transport(error)),
        HttpReply::Refused(status) => DownloadStep::Failed(
            IrisError::Transport(
                prefixed("telegram getFile returned HTTP ", status.as_str()),
            ),
        ),
        HttpReply::Unreadable(error) => DownloadStep::Failed(IrisError::Serialization(error)),
        HttpReply::Content(envelope) => match envelope.into_result() {
            Ok(file) => DownloadStep::Fetch {
                url: provider.file_download_url(file.file_path.as_str()),
                file_path: file.file_path,
            },
            Err(error) => DownloadStep::Failed(error),
        },
    }
}

/// The step behind the answer to the request for the bytes.
pub open spec fn step_after_bytes(
    file_path: Seq<char>,
    mime_type: Seq<char>,
    filename: Option<Seq<char>>,
    reply: HttpReply<Vec<u8>>,
) -> DownloadStepView {
    match reply {
        HttpReply::Unreachable(error) => DownloadStepView::Failed(
            IrisErrorView::Transport(error@),
        ),
        HttpReply::Refused(status) => DownloadStepView::Failed(
            IrisErrorView::Transport(
                "telegram file download returned HTTP "@ + status@ + " for path "@ + file_path,
            ),
        ),
        HttpReply::Unreadable(error) => DownloadStepView::Failed(
            IrisErrorView::Transport(error@),
        ),
        HttpReply::Content(bytes) => DownloadStepView::Store(
            ContentView { mime_type, filename, bytes: bytes@ },
        ),
    }
}

/// Decides what follows the answer to the request for the bytes.
pub fn after_bytes(
    file_path: &str,
    mime_type: &str,
    filename: Option<&str>,
    reply: HttpReply<Vec<u8>>,
) -> (r: DownloadStep)
    ensures
        r@ == step_after_bytes(
            file_path@,
            mime_type@,
            match filename {
                Some(name) => Some(name@),
                None => None,
            },
            reply,
        ),
{
    match reply {
        HttpReply::Unreachable(error) => DownloadStep::Failed(IrisError::Transport(error)),
        HttpReply::Refused(status) => {
            let mut message = prefixed(
                "telegram file download returned HTTP ",
                status.as_str(),
            );
            message.append(" for path ");
            message.append(file_path);
            DownloadStep::Failed(IrisError::Transport(message))
        },
        HttpReply::Unreadable(error) => DownloadStep::Failed(IrisError::Transport(error)),
        HttpReply::Content(bytes) => DownloadStep::Store(
            AttachmentContent {
                mime_type: mime_type.to_owned(),
                filename: match filename {
                    Some(name) => Some(name.to_owned()),
                    None => None,
                },
                bytes,
            },
        ),
    }
}

/// The attachment of a file that was stored, with the number of bytes that were fetched.
pub fn stored_attachment(reference: AttachmentRef, size: u64) -> (r: Attachment)
    ensures
        r@ == (AttachmentView {
            mime_type: reference.mime_type@,
            url: reference.url@,
            filename: view_opt(reference.filename),
            size: Some(size),
        }),
        r.id == reference.id,
{
    Attachment {
        id: reference.id,
        mime_type: reference.mime_type,
        url: reference.url,
        filename: reference.filename,
        size: Some(size),
    }
}

/// The file id of an attachment that is still to be fetched.
pub open spec fn pending(attachment: AttachmentView) -> Option<Seq<char>> {
    let prefix = "telegram:file_id:"@;
    if begins(attachment.url, prefix) {
        Some(attachment.url.skip(prefix.len() as int))
    } else {
        None
    }
}

/// The file id of an attachment that is still to be fetched.
pub fn pending_file_id(attachment: &Attachment) -> (r: Option<String>)
    ensures
        view_opt(r) == pending(attachment@),
{
    match strip_prefix(attachment.url.as_str(), "telegram:file_id:") {
        Some(file_id) => Some(file_id.to_owned()),
        None => None,
    }
}

/// The audit metadata of a fetched attachment.
pub open spec fn fetch_view(stored: AttachmentView) -> JsonView {
    JsonView::Object(
        seq![
            ("filename"@, opt_text_view(stored.filename)),
            ("mime_type"@, JsonView::Text(stored.mime_type)),
            ("operation"@, JsonView::Text("fetch_attachment"@)),
            ("size"@, opt_number_view(stored.size)),
        ],
    )
}

/// The audit metadata of a fetched attachment.
pub fn fetch_metadata(stored: &Attachment) -> (r: Json)
    ensures
        r@ == fetch_view(stored@),
{
    let mut members: Vec<(String, Json)> = Vec::new();
    members.push(member("filename", json_opt_text(&stored.filename)));
    members.push(member("mime_type", json_text(stored.mime_type.as_str())));
    members.push(member("operation", json_text("fetch_attachment")));
    members.push(
        member(
            "size",
            match stored.size {
                Some(n) => json_number(n),
                None => Json::Null,
            },
        ),
    );
    assert(member_views(members@) =~= fetch_view(stored@)->Object_0);
    json_object(members)
}

/// What a run that stores the attachments of a message asks for.
pub enum StoreAction {
    /// Ask `getFile` for the path of the file.
    GetFile { file_id: String },
    /// Ask under this URL for the bytes.
    GetBytes { url: String },
    /// Store the content.
    Store(AttachmentContent),
    /// Record the fetch of an attachment with this metadata.
    Record(Json),
    /// Nothing more.
    Finish,
}

/// The mathematical value of an action.
#[verifier::ext_equal]
pub enum StoreActionView {
    GetFile { file_id: Seq<char> },
    GetBytes { url: Seq<char> },
    Store(ContentView),
    Record(JsonView),
    Finish,
}

impl View for StoreAction {
    type V = StoreActionView;

    open spec fn view(&self) -> StoreActionView {
        match *self {
            StoreAction::GetFile { file_id } => StoreActionView::GetFile { file_id: file_id@ },
            StoreAction::GetBytes { url } => StoreActionView::GetBytes { url: url@ },
            StoreAction::Store(content) => StoreActionView::Store(content@),
            StoreAction::Record(metadata) => StoreActionView::Record(metadata@),
            StoreAction::Finish => StoreActionView::Finish,
        }
    }
}

/// What a run learns.
pub enum StoreEvent {
    /// The answer to `getFile`.
    File(HttpReply<TelegramResponse<TelegramFile>>),
    /// The answer to the request for the bytes.
    Bytes(HttpReply<Vec<u8>>),
    /// What the store answered.
    Stored(Result<AttachmentRef, IrisError>),
    /// What the audit trail answered.
    Recorded(Result<(), IrisError>),
}

/// What a run waits for.
#[verifier::ext_equal]
pub enum StoreStage {
    Locating,
    Fetching { file_path: Seq<char> },
    Storing { size: u64 },
    Recording { stored: AttachmentView, id: Uuid },
    Finished(Result<(), IrisErrorView>),
}

/// The mathematical value of a run: the message as far as its attachments are stored, the
/// attachment that is at hand, and what the run waits for.
#[verifier::ext_equal]
pub struct StoreView {
    pub message: MessageView,
    pub ids: Seq<Uuid>,
    pub index: int,
    pub realtime: bool,
    pub stage: StoreStage,
}

#[verifier::ext_equal]
pub struct StoreStepView {
    pub run: StoreView,
    pub action: StoreActionView,
}

/// The run at the next attachment that is still to be fetched, or at its end.
pub open spec fn sought(message: MessageView, ids: Seq<Uuid>, index: int, realtime: bool) -> StoreStepView
    decreases message.attachments.len() - index,
{
    if index >= message.attachments.len() {
        StoreStepView {
            run: StoreView { message, ids, index, realtime, stage: StoreStage::Finished(Ok(())) },
            action: StoreActionView::Finish,
        }
    } else {
        match pending(message.attachments[index]) {
            Some(file_id) => StoreStepView {
                run: StoreView { message, ids, index, realtime, stage: StoreStage::Locating },
                action: StoreActionView::GetFile { file_id },
            },
            None => sought(message, ids, index + 1, realtime),
        }
    }
}

/// The run that an error ends.
pub open spec fn ended_by(run: StoreView, error: IrisErrorView) -> StoreStepView {
    StoreStepView {
        run: StoreView { stage: StoreStage::Finished(Err(error)), ..run },
        action: StoreActionView::Finish,
    }
}

/// The run whose attachment could not be fetched or stored. In the realtime pipeline a failure of
/// the storage backend ends the run; any other failure leaves the attachment as it is, so that one
/// expired file does not block a listing.
pub open spec fn left(run: StoreView, error: IrisErrorView) -> StoreStepView {
    if run.realtime && error is Storage {
        ended_by(run, error)
    } else {
        sought(run.message, run.ids, run.index + 1, run.realtime)
    }
}

/// The run behind a step of a download.
pub open spec fn downloaded(run: StoreView, step: DownloadStepView) -> StoreStepView {
    match step {
        DownloadStepView::Fetch { url, file_path } => StoreStepView {
            run: StoreView { stage: StoreStage::Fetching { file_path }, ..run },
            action: StoreActionView::GetBytes { url },
        },
        DownloadStepView::Store(content) => StoreStepView {
            run: StoreView {
                stage: StoreStage::Storing { size: content.bytes.len() as u64 },
                ..run
            },
            action: StoreActionView::Store(content),
        },
        DownloadStepView::Failed(error) => left(run, error),
    }
}

/// A message whose attachment at an index was replaced.
pub open spec fn with_attachment(message: MessageView, index: int, stored: AttachmentView) -> MessageView {
    MessageView { attachments: message.attachments.update(index, stored), ..message }
}

/// The attachment of a file that was stored, with the number of bytes that were fetched.
pub open spec fn stored_view(reference: AttachmentRef, size: u64) -> AttachmentView {
    AttachmentView {
        mime_type: reference.mime_type@,
        url: reference.url@,
        filename: view_opt(reference.filename),
        size: Some(size),
    }
}

/// Whether the event answers what the run waits for.
pub open spec fn expects(stage: StoreStage, event: StoreEvent) -> bool {
    match event {
        StoreEvent::File(_) => stage is Locating,
        StoreEvent::Bytes(_) => stage is Fetching,
        StoreEvent::Stored(_) => stage is Storing,
        StoreEvent::Recorded(_) => stage is Recording,
    }
}

/// The run after an event.
pub open spec fn store_stepped(provider: TelegramProvider, run: StoreView, event: StoreEvent) -> StoreStepView {
    match (run.stage, event) {
        (StoreStage::Locating, StoreEvent::File(reply)) => downloaded(
            run,
            step_after_file(provider, reply),
        ),
        (StoreStage::Fetching { file_path }, StoreEvent::Bytes(reply)) => downloaded(
            run,
            step_after_bytes(
                file_path,
                run.message.attachments[run.index].mime_type,
                run.message.attachments[run.index].filename,
                reply,
            ),
        ),
        (StoreStage::Storing { size }, StoreEvent::Stored(Ok(reference))) => StoreStepView {
            run: StoreView {
                stage: StoreStage::Recording {
                    stored: stored_view(reference, size),
                    id: reference.id,
                },
                ..run
            },
            action: StoreActionView::Record(fetch_view(stored_view(reference, size))),
        },
        (StoreStage::Storing { .. }, StoreEvent::Stored(Err(error))) => left(run, error@),
        (StoreStage::Recording { stored, id }, StoreEvent::Recorded(Ok(_))) => sought(
            with_attachment(run.message, run.index, stored),
            run.ids.update(run.index, id),
            run.index + 1,
            run.realtime,
        ),
        (StoreStage::Recording { .. }, StoreEvent::Recorded(Err(error))) => ended_by(run, error@),
        _ => StoreStepView { run, action: StoreActionView::Finish },
    }
}

enum Stage {
    Locating,
    Fetching { file_path: String },
    Storing { size: u64 },
    Recording { stored: Attachment },
    Finished(Result<(), IrisError>),
}

spec fn stage_view(stage: Stage) -> StoreStage {
    match stage {
        Stage::Locating => StoreStage::Locating,
        Stage::Fetching { file_path } => StoreStage::Fetching { file_path: file_path@ },
        Stage::Storing { size } => StoreStage::Storing { size },
        Stage::Recording { stored } => StoreStage::Recording { stored: stored@, id: stored.id },
        Stage::Finished(result) => StoreStage::Finished(view_unit(result)),
    }
}

/// The attachments of a message on their way into the store.
pub struct StoreRun {
    message: Message,
    index: usize,
    realtime: bool,
    stage: Stage,
}

impl View for StoreRun {
    type V = StoreView;

    closed spec fn view(&self) -> StoreView {
        StoreView {
            message: self.message@,
            ids: attachment_ids(self.message.attachments@),
            index: self.index as int,
            realtime: self.realtime,
            stage: stage_view(self.stage),
        }
    }
}

/// Begins to store the attachments of a listed message.
pub fn store_message_attachments(message: Message) -> (r: (StoreRun, StoreAction))
    ensures
        ({
            let after = sought(message@, attachment_ids(message.attachments@), 0, false);
            &&& r.0@ == after.run
            &&& r.1@ == after.action
        }),
{
    StoreRun::seek(message, 0, false)
}

/// Begins to store the attachments of a message of the realtime pipeline.
pub fn store_realtime_attachments(message: Message) -> (r: (StoreRun, StoreAction))
    ensures
        ({
            let after = sought(message@, attachment_ids(message.attachments@), 0, true);
            &&& r.0@ == after.run
            &&& r.1@ == after.action
        }),
{
    StoreRun::seek(message, 0, true)
}

impl StoreRun {
    #[verifier::type_invariant]
    spec fn at_hand(self) -> bool {
        &&& self.index <= self.message.attachments@.len()
        &&& self.stage !is Finished ==> self.index < self.message.attachments@.len()
    }

    fn seek(message: Message, from: usize, realtime: bool) -> (r: (StoreRun, StoreAction))
        requires
            from <= message.attachments@.len(),
        ensures
            ({
                let after = sought(
                    message@,
                    attachment_ids(message.attachments@),
                    from as int,
                    realtime,
                );
                &&& r.0@ == after.run
                &&& r.1@ == after.action
            }),
    {
        let ghost ids = attachment_ids(message.attachments@);
        let mut index: usize = from;
        while index < message.attachments.len()
            invariant
                index <= message.attachments@.len(),
                ids == attachment_ids(message.attachments@),
                sought(message@, ids, from as int, realtime) == sought(
                    message@,
                    ids,
                    index as int,
                    realtime,
                ),
            decreases message.attachments@.len() - index,
        {
            assert(message@.attachments[index as int] == message.attachments@[index as int]@);
            if let Some(file_id) = pending_file_id(&message.attachments[index]) {
                let run = StoreRun { message, index, realtime, stage: Stage::Locating };
                return (run, StoreAction::GetFile { file_id });
            }
            index += 1;
        }
        (StoreRun { message, index, realtime, stage: Stage::Finished(Ok(())) }, StoreAction::Finish)
    }

    fn leave(message: Message, index: usize, realtime: bool, error: IrisError) -> (r: (
        StoreRun,
        StoreAction,
    ))
        requires
            index < message.attachments@.len(),
        ensures
            forall|stage: StoreStage|
                ({
                    let after = left(
                        #[trigger] at_stage(message, index, realtime, stage),
                        error@,
                    );
                    &&& r.0@ == after.run
                    &&& r.1@ == after.action
                }),
    {
        if realtime {
            if let IrisError::Storage(detail) = error {
                let stage = Stage::Finished(Err(IrisError::Storage(detail)));
                return (StoreRun { message, index, realtime, stage }, StoreAction::Finish);
            }
        }
        assert(index < message.attachments.len());
        StoreRun::seek(message, index + 1, realtime)
    }

    fn download(message: Message, index: usize, realtime: bool, step: DownloadStep) -> (r: (
        StoreRun,
        StoreAction,
    ))
        requires
            index < message.attachments@.len(),
        ensures
            forall|stage: StoreStage|
                ({
                    let after = downloaded(
                        #[trigger] at_stage(message, index, realtime, stage),
                        step@,
                    );
                    &&& r.0@ == after.run
                    &&& r.1@ == after.action
                }),
    {
        match step {
            DownloadStep::Fetch { url, file_path } => {
                let stage = Stage::Fetching { file_path };
                (StoreRun { message, index, realtime, stage }, StoreAction::GetBytes { url })
            },
            DownloadStep::Store(content) => {
                let stage = Stage::Storing { size: content.bytes.len() as u64 };
                (StoreRun { message, index, realtime, stage }, StoreAction::Store(content))
            },
            DownloadStep::Failed(error) => StoreRun::leave(message, index, realtime, error),
        }
    }

    /// Goes on after an event.
    pub fn step(self, provider: &TelegramProvider, event: StoreEvent) -> (r: (StoreRun, StoreAction))
        requires
            expects(self@.stage, event),
        ensures
            ({
                let after = store_stepped(*provider, self@, event);
                &&& r.0@ == after.run
                &&& r.1@ == after.action
            }),
    {
        proof {
            use_type_invariant(&self);
        }
        let ghost before = self@;
        let mut message = self.message;
        let index: usize = self.index;
        let realtime = self.realtime;
        assert(before == at_stage(message, index, realtime, before.stage));
        match (self.stage, event) {
            (Stage::Locating, StoreEvent::File(reply)) => StoreRun::download(
                message,
                index,
                realtime,
                after_file(provider, reply),
            ),
            (Stage::Fetching { file_path }, StoreEvent::Bytes(reply)) => {
                let attachment = &message.attachments[index];
                assert(message@.attachments[index as int] == attachment@);
                let step = after_bytes(
                    file_path.as_str(),
                    attachment.mime_type.as_str(),
                    match &attachment.filename {
                        Some(name) => Some(name.as_str()),
                        None => None,
                    },
                    reply,
                );
                StoreRun::download(message, index, realtime, step)
            },
            (Stage::Storing { size }, StoreEvent::Stored(Ok(reference))) => {
                let stored = stored_attachment(reference, size);
                let metadata = fetch_metadata(&stored);
                let stage = Stage::Recording { stored };
                (StoreRun { message, index, realtime, stage }, StoreAction::Record(metadata))
            },
            (Stage::Storing { size: _ }, StoreEvent::Stored(Err(error))) => StoreRun::leave(
                message,
                index,
                realtime,
                error,
            ),
            (Stage::Recording { stored }, StoreEvent::Recorded(Ok(_))) => {
                let ghost id = stored.id;
                let ghost view = stored@;
                let ghost attachments = message.attachments@;
                message.attachments.set(index, stored);
                assert(views(message.attachments@) =~= views(attachments).update(
                    index as int,
                    view,
                ));
                assert(attachment_ids(message.attachments@) =~= attachment_ids(attachments).update(
                    index as int,
                    id,
                ));
                assert(index < message.attachments.len());
                StoreRun::seek(message, index + 1, realtime)
            },
            (Stage::Recording { stored: _ }, StoreEvent::Recorded(Err(error))) => {
                let stage = Stage::Finished(Err(error));
                (StoreRun { message, index, realtime, stage }, StoreAction::Finish)
            },
            (stage, _) => (StoreRun { message, index, realtime, stage }, StoreAction::Finish),
        }
    }

    /// The message with its attachments, once the run is finished.
    pub fn finish(self) -> (r: Result<Message, IrisError>)
        requires
            self@.stage is Finished,
        ensures
            match self@.stage->Finished_0 {
                Ok(_) => r is Ok && r->Ok_0@ == self@.message && attachment_ids(
                    r->Ok_0.attachments@,
                ) == self@.ids,
                Err(error) => r is Err && r->Err_0@ == error,
            },
    {
        match self.stage {
            Stage::Finished(Err(error)) => Err(error),
            _ => Ok(self.message),
        }
    }
}

spec fn at_stage(message: Message, index: usize, realtime: bool, stage: StoreStage) -> StoreView {
    StoreView {
        message: message@,
        ids: attachment_ids(message.attachments@),
        index: index as int,
        realtime,
        stage,
    }
}

proof fn lemma_seeking_changes_nothing(
    message: MessageView,
    ids: Seq<Uuid>,
    index: int,
    realtime: bool,
)
    ensures
        sought(message, ids, index, realtime).run.message == message,
        sought(message, ids, index, realtime).run.ids == ids,
        sought(message, ids, index, realtime).run.stage is Locating || sought(
            message,
            ids,
            index,
            realtime,
        ).run.stage == StoreStage::Finished(Ok(())),
    decreases message.attachments.len() - index,
{
    if index < message.attachments.len() && pending(message.attachments[index]) is None {
        lemma_seeking_changes_nothing(message, ids, index + 1, realtime);
    }
}

/// An attachment changes only once its fetch was recorded, and then it alone: any other event
/// leaves the message as it was.
pub proof fn law_fetches_are_recorded_before_they_show(
    provider: TelegramProvider,
    run: StoreView,
    event: StoreEvent,
)
    requires
        expects(run.stage, event),
    ensures
        ({
            let after = store_stepped(provider, run, event).run;
            if event is Recorded && event->Recorded_0 is Ok {
                &&& after.message == with_attachment(
                    run.message,
                    run.index,
                    run.stage->Recording_stored,
                )
                &&& after.ids == run.ids.update(run.index, run.stage->id)
            } else {
                &&& after.message == run.message
                &&& after.ids == run.ids
            }
        }),
{
    lemma_seeking_changes_nothing(run.message, run.ids, run.index + 1, run.realtime);
    if let StoreStage::Recording { stored, id } = run.stage {
        lemma_seeking_changes_nothing(
            with_attachment(run.message, run.index, stored),
            run.ids.update(run.index, id),
            run.index + 1,
            run.realtime,
        );
    }
}

/// A file that cannot be fetched never ends a run, and neither does a store that fails outside the
/// realtime pipeline: only the audit trail, and there the store, can.
pub proof fn law_failed_fetches_end_nothing(
    provider: TelegramProvider,
    run: StoreView,
    event: StoreEvent,
)
    requires
        expects(run.stage, event),
    ensures
        ({
            let after = store_stepped(provider, run, event).run;
            after.stage is Finished && after.stage->Finished_0 is Err ==> {
                ||| event is Recorded && event->Recorded_0 is Err
                ||| run.realtime && after.stage->Finished_0->Err_0 is Storage
            }
        }),
{
    lemma_seeking_changes_nothing(run.message, run.ids, run.index + 1, run.realtime);
    if let StoreStage::Recording { stored, id } = run.stage {
        lemma_seeking_changes_nothing(
            with_attachment(run.message, run.index, stored),
            run.ids.update(run.index, id),
            run.index + 1,
            run.realtime,
        );
    }
}

/// An attachment that has an Iris URL is not fetched again.
pub proof fn law_stored_attachments_stay(attachment: AttachmentView)
    requires
        begins(attachment.url, "iris://"@),
    ensures
        pending(attachment) is None,
{
    reveal_strlit("iris://");
    reveal_strlit("telegram:file_id:");
    if begins(attachment.url, "telegram:file_id:"@) {
        assert(attachment.url.take("telegram:file_id:"@.len() as int)[0] == 't');
        assert(attachment.url.take("iris://"@.len() as int)[0] == 'i');
    }
}

/// The bytes of a file lie under the path that the service tells, below the token of the bot; an
/// answer without a file, or of a request that failed, fails the fetch.
pub proof fn law_bytes_lie_under_the_path_that_is_told(
    provider: TelegramProvider,
    reply: HttpReply<TelegramResponse<TelegramFile>>,
)
    ensures
        reply matches HttpReply::Content(envelope) ==> (envelope.result matches Some(file)
            ==> envelope.ok ==> step_after_file(provider, reply) == (DownloadStepView::Fetch {
            url: provider.base_url@ + "/file/bot"@ + provider.bot_token@ + "/"@ + file.file_path@,
            file_path: file.file_path@,
        })),
        step_after_file(provider, reply) is Fetch <==> (reply matches HttpReply::Content(envelope)
            && envelope.ok && envelope.result is Some),
        !(step_after_file(provider, reply) is Store),
        reply matches HttpReply::Unreachable(error) ==> step_after_file(provider, reply)
            == DownloadStepView::Failed(IrisErrorView::Transport(error@)),
        reply matches HttpReply::Refused(status) ==> step_after_file(provider, reply)
            == DownloadStepView::Failed(
            IrisErrorView::Transport("telegram getFile returned HTTP "@ + status@),
        ),
        reply matches HttpReply::Unreadable(error) ==> step_after_file(provider, reply)
            == DownloadStepView::Failed(IrisErrorView::Serialization(error@)),
{
}

/// What is stored is the bytes that came, under the type and the name of the attachment.
pub proof fn law_the_bytes_that_came_are_stored(
    file_path: Seq<char>,
    mime_type: Seq<char>,
    filename: Option<Seq<char>>,
    reply: HttpReply<Vec<u8>>,
)
    ensures
        reply matches HttpReply::Content(bytes) ==> step_after_bytes(
            file_path,
            mime_type,
            filename,
            reply,
        ) == DownloadStepView::Store(ContentView { mime_type, filename, bytes: bytes@ }),
        !(reply is Content) ==> step_after_bytes(file_path, mime_type, filename, reply) is Failed,
        reply matches HttpReply::Refused(status) ==> step_after_bytes(
            file_path,
            mime_type,
            filename,
            reply,
        ) == DownloadStepView::Failed(
            IrisErrorView::Transport(
                "telegram file download returned HTTP "@ + status@ + " for path "@ + file_path,
            ),
        ),
{
}

/// An attachment is to be fetched where its URL is the prefix of file IDs and an ID behind it.
pub proof fn law_only_file_ids_are_fetched(attachment: AttachmentView, file_id: Seq<char>)
    ensures
        pending(attachment) == Some(file_id) <==> attachment.url == "telegram:file_id:"@ + file_id,
{
    let prefix = "telegram:file_id:"@;
    if pending(attachment) == Some(file_id) {
        assert(attachment.url =~= prefix + file_id);
    }
    if attachment.url == prefix + file_id {
        assert(attachment.url.take(prefix.len() as int) =~= prefix);
        assert(attachment.url.skip(prefix.len() as int) =~= file_id);
    }
}

/// The attachments are fetched one by one in their order, those that need no fetching passed over,
/// until none is left.
pub proof fn law_attachments_are_fetched_in_their_order(
    message: MessageView,
    ids: Seq<Uuid>,
    index: int,
    realtime: bool,
    k: int,
)
    requires
        0 <= index,
    ensures
        index <= k < message.attachments.len() && pending(message.attachments[k]) is Some && (forall|
            j: int,
        |
            index <= j < k ==> pending(#[trigger] message.attachments[j]) is None) ==> {
            let step = sought(message, ids, index, realtime);
            &&& step.action == (StoreActionView::GetFile {
                file_id: pending(message.attachments[k])->0,
            })
            &&& step.run.index == k
            &&& step.run.stage is Locating
        },
        (forall|j: int|
            index <= j < message.attachments.len() ==> pending(
                #[trigger] message.attachments[j],
            ) is None) ==> {
            let step = sought(message, ids, index, realtime);
            &&& step.action is Finish
            &&& step.run.stage == StoreStage::Finished(Ok(()))
        },
    decreases message.attachments.len() - index,
{
    if index < message.attachments.len() && pending(message.attachments[index]) is None {
        law_attachments_are_fetched_in_their_order(message, ids, index + 1, realtime, k);
    }
}

/// What was fetched is stored, what was stored is recorded with its name, type and size, and where
/// the recording fails everything ends with its error.
pub proof fn law_fetched_files_are_stored_and_recorded(
    provider: TelegramProvider,
    run: StoreView,
    reference: AttachmentRef,
    size: u64,
    error: IrisError,
)
    ensures
        run.stage == (StoreStage::Storing { size }) ==> {
            let step = store_stepped(provider, run, StoreEvent::Stored(Ok(reference)));
            &&& step.run.stage matches StoreStage::Recording { stored, id } && id == reference.id
                && stored.url == reference.url@ && stored.mime_type == reference.mime_type@
                && stored.filename == view_opt(reference.filename) && stored.size == Some(size)
            &&& step.action matches StoreActionView::Record(JsonView::Object(members))
                && members.len() == 4 && members[0] == (
                "filename"@,
                opt_text_view(view_opt(reference.filename)),
            ) && members[1] == ("mime_type"@, JsonView::Text(reference.mime_type@)) && members[2]
                == ("operation"@, JsonView::Text("fetch_attachment"@)) && members[3] == (
                "size"@,
                opt_number_view(Some(size)),
            )
            &&& step.run.index == run.index
        },
        run.stage is Recording ==> store_stepped(
            provider,
            run,
            StoreEvent::Recorded(Err(error)),
        ).run.stage == StoreStage::Finished(Err(error@)),
{
}

/// A fetch that fails is passed over, and the next attachment is sought; but where a realtime
/// message cannot be stored, everything ends.
pub proof fn law_failed_fetches_are_passed_over(run: StoreView, error: IrisErrorView)
    ensures
        !(run.realtime && error is Storage) ==> downloaded(run, DownloadStepView::Failed(error))
            == sought(run.message, run.ids, run.index + 1, run.realtime),
        run.realtime && error is Storage ==> downloaded(
            run,
            DownloadStepView::Failed(error),
        ).run.stage == StoreStage::Finished(Err(error)),
{
}

} // verus!
