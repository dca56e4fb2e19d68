//! The poller of the realtime hub: what it asks for next, whatever it was answered.
//!
//! The poller long-polls for updates and works a batch off in order. Of each update it normalizes
//! the message, records the update in the audit trail, and only then hands the message on and moves
//! the cursor. What needs the network, the store or the trail it asks for by an action, and learns
//! of it by an event.

use vstd::prelude::*;
use crate::audit::{AuditEvent, AuditEventView, RecordOutcome};
use crate::decimal::decimal;
use crate::error::{IrisError, IrisErrorView};
use crate::json::{Json, JsonView};
use crate::model::{whole, Message, WholeMessage};
use crate::realtime::RealtimeAuditView;
use crate::telegram::realtime::{
    accepted, classified, classify_update, must_stop, poll_failed, polling, pruned,
    registered_ids, required_update_id, retried, still_connected, terminated_all, update_event,
    update_event_of, update_id_of, Classified, ClassifiedView, HubView, MailboxView, PollerNext,
    PollerView, RealtimeHub,
};
use crate::telegram::TelegramMessage;
use crate::text::{view_opt, views};
use crate::time::Timestamp;

verus! {

/// What the poller asks for.
pub enum PollerAction {
    /// A long poll from the offset on.
    Poll { offset: i64, timeout_seconds: u32 },
    /// The message of the update, decoded, normalized, and with its attachments stored.
    Normalize(Json),
    /// An entry in the audit trail under the key of the update, unless there is one already.
    Record { update_id: i64, event: AuditEvent },
    /// A pause of so many milliseconds.
    Sleep(u64),
    /// Nothing more.
    Stop,
}

pub enum ActionView {
    Poll { offset: i64, timeout_seconds: u32 },
    Normalize(JsonView),
    Record { update_id: i64, event: AuditEventView },
    Sleep(u64),
    Stop,
}

impl View for PollerAction {
    type V = ActionView;

    open spec fn view(&self) -> ActionView {
        match *self {
            PollerAction::Poll { offset, timeout_seconds } => ActionView::Poll {
                offset,
                timeout_seconds,
            },
            PollerAction::Normalize(update) => ActionView::Normalize(update@),
            PollerAction::Record { update_id, event } => ActionView::Record {
                update_id,
                event: event@,
            },
            PollerAction::Sleep(millis) => ActionView::Sleep(millis),
            PollerAction::Stop => ActionView::Stop,
        }
    }
}

/// A message as it was decoded, and in normalized form.
pub struct Normalized {
    pub decoded: TelegramMessage,
    pub message: Message,
}

pub struct NormalizedView {
    pub decoded: TelegramMessage,
    pub message: WholeMessage,
}

impl View for Normalized {
    type V = NormalizedView;

    open spec fn view(&self) -> NormalizedView {
        NormalizedView { decoded: self.decoded, message: whole(self.message) }
    }
}

/// What became of the update that was to be normalized: no message where it could not be decoded,
/// an error where the attachments could not be stored.
pub struct Normalization {
    pub outcome: Result<Option<Normalized>, IrisError>,
    /// When the work on the update began.
    pub received_at: Timestamp,
    /// When it was done.
    pub finished_at: Timestamp,
}

pub struct NormalizationView {
    pub outcome: Result<Option<NormalizedView>, IrisErrorView>,
    pub received_at: Timestamp,
    pub finished_at: Timestamp,
}

impl View for Normalization {
    type V = NormalizationView;

    open spec fn view(&self) -> NormalizationView {
        NormalizationView {
            outcome: match self.outcome {
                Ok(normalized) => Ok(view_opt(normalized)),
                Err(error) => Err(error@),
            },
            received_at: self.received_at,
            finished_at: self.finished_at,
        }
    }
}

/// What the poller learns.
pub enum PollerEvent {
    /// The answer to a long poll.
    Polled(Result<Vec<Json>, IrisError>),
    /// What became of the update that was to be normalized.
    Normalized(Normalization),
    /// What became of the entry in the audit trail.
    Recorded(Result<RecordOutcome, IrisError>),
    /// The pause is over.
    Slept,
    /// A poll or a pause was given up, since the hub was cancelled.
    Cancelled,
}

pub enum EventView {
    Polled(Result<Seq<JsonView>, IrisErrorView>),
    Normalized(NormalizationView),
    Recorded(Result<RecordOutcome, IrisErrorView>),
    Slept,
    Cancelled,
}

impl View for PollerEvent {
    type V = EventView;

    open spec fn view(&self) -> EventView {
        match *self {
            PollerEvent::Polled(Ok(updates)) => EventView::Polled(Ok(views(updates@))),
            PollerEvent::Polled(Err(error)) => EventView::Polled(Err(error@)),
            PollerEvent::Normalized(normalization) => EventView::Normalized(normalization@),
            PollerEvent::Recorded(Ok(outcome)) => EventView::Recorded(Ok(outcome)),
            PollerEvent::Recorded(Err(error)) => EventView::Recorded(Err(error@)),
            PollerEvent::Slept => EventView::Slept,
            PollerEvent::Cancelled => EventView::Cancelled,
        }
    }
}

/// What the poller waits for.
pub enum StageView {
    /// The answer to a long poll.
    Polling,
    /// The normalization of the first of the updates.
    Normalizing { updates: Seq<JsonView>, update_id: i64, snapshot: Seq<u64> },
    /// The entry of the first of the updates in the audit trail.
    Recording {
        updates: Seq<JsonView>,
        update_id: i64,
        snapshot: Seq<u64>,
        normalized: Option<NormalizedView>,
    },
    /// The end of a pause.
    Sleeping,
    /// Nothing.
    Stopped,
}

pub struct StepView {
    pub hub: HubView,
    pub stage: StageView,
    pub attempt: u32,
    pub action: ActionView,
}

/// Whether the offset behind each update is a 64-bit integer.
pub open spec fn offsets_fit(updates: Seq<JsonView>) -> bool {
    forall|i: int| 0 <= i < updates.len() ==> update_id_of(#[trigger] updates[i]) != Some(i64::MAX)
}

/// Whether the updates at hand are those that the stage speaks of.
pub open spec fn sound(stage: StageView) -> bool {
    match stage {
        StageView::Normalizing { updates, update_id, .. } => updates.len() > 0 && update_id_of(
            updates[0],
        ) == Some(update_id) && offsets_fit(updates),
        StageView::Recording { updates, update_id, .. } => updates.len() > 0 && update_id_of(
            updates[0],
        ) == Some(update_id) && offsets_fit(updates),
        _ => true,
    }
}

/// Whether the event answers what the poller waits for.
pub open spec fn awaits(stage: StageView, event: EventView) -> bool {
    match event {
        EventView::Polled(Ok(updates)) => stage is Polling && offsets_fit(updates),
        EventView::Polled(Err(_)) => stage is Polling,
        EventView::Normalized(_) => stage is Normalizing,
        EventView::Recorded(_) => stage is Recording,
        EventView::Slept => stage is Sleeping,
        EventView::Cancelled => stage is Polling || stage is Sleeping,
    }
}

/// The poller at the beginning of a round: it stops where nobody is left to poll for.
pub open spec fn begun(hub: HubView, attempt: u32) -> StepView {
    if must_stop(pruned(hub)) {
        StepView { hub: polling(hub), stage: StageView::Stopped, attempt, action: ActionView::Stop }
    } else {
        StepView {
            hub: polling(hub),
            stage: StageView::Polling,
            attempt,
            action: ActionView::Poll {
                offset: hub.cursor,
                timeout_seconds: hub.settings.long_poll_timeout_seconds,
            },
        }
    }
}

/// The poller after a round, as the hub decided.
pub open spec fn told(after: PollerView) -> StepView {
    match after.next {
        PollerNext::Poll => begun(after.hub, after.attempt),
        PollerNext::Sleep(millis) => StepView {
            hub: after.hub,
            stage: StageView::Sleeping,
            attempt: after.attempt,
            action: ActionView::Sleep(millis),
        },
        PollerNext::Stop => StepView {
            hub: after.hub,
            stage: StageView::Stopped,
            attempt: after.attempt,
            action: ActionView::Stop,
        },
    }
}

/// The poller before the first of the updates. An update without an identity ends the round with a
/// transient error; after the last update the retries start anew.
pub open spec fn advanced(hub: HubView, attempt: u32, updates: Seq<JsonView>) -> StepView {
    if updates.len() == 0 {
        told(PollerView { hub, attempt: 0, next: PollerNext::Poll })
    } else {
        match update_id_of(updates[0]) {
            None => told(
                retried(
                    hub,
                    attempt,
                    IrisErrorView::Serialization("telegram update missing update_id"@).message(),
                ),
            ),
            Some(update_id) => StepView {
                hub,
                stage: StageView::Normalizing {
                    updates,
                    update_id,
                    snapshot: registered_ids(hub.mailboxes),
                },
                attempt,
                action: ActionView::Normalize(updates[0]),
            },
        }
    }
}

/// The poller that an error ends for every subscriber.
pub open spec fn failed(hub: HubView, attempt: u32, error: IrisErrorView) -> StepView {
    StepView {
        hub: terminated_all(hub, error),
        stage: StageView::Stopped,
        attempt,
        action: ActionView::Stop,
    }
}

/// The normalized form of a message, if there is one.
pub open spec fn message_in(normalized: Option<NormalizedView>) -> Option<WholeMessage> {
    match normalized {
        Some(normalized) => Some(normalized.message),
        None => None,
    }
}

/// The decoded form of a message, if there is one.
pub open spec fn decoded_in(normalized: Option<NormalizedView>) -> Option<TelegramMessage> {
    match normalized {
        Some(normalized) => Some(normalized.decoded),
        None => None,
    }
}

/// What an update hands on: its message, unless it has no member for one.
pub open spec fn handed_on(update: JsonView, normalized: Option<NormalizedView>) -> Option<
    NormalizedView,
> {
    if update.member("message"@) is None {
        None
    } else {
        normalized
    }
}

/// The audit metadata of an update.
pub open spec fn metadata_of(classified: ClassifiedView) -> RealtimeAuditView {
    match classified {
        ClassifiedView::Message(_, metadata) => metadata,
        ClassifiedView::Ignored(metadata) => metadata,
        ClassifiedView::Invalid(metadata) => metadata,
    }
}

/// The poller after an event.
pub open spec fn stepped(hub: HubView, stage: StageView, attempt: u32, event: EventView) -> StepView {
    match (stage, event) {
        (StageView::Polling, EventView::Polled(Ok(updates))) => advanced(hub, attempt, updates),
        (StageView::Polling, EventView::Polled(Err(error))) => told(
            poll_failed(hub, attempt, error),
        ),
        (
            StageView::Normalizing { updates, update_id, snapshot },
            EventView::Normalized(normalization),
        ) => match normalization.outcome {
            Err(error) => failed(hub, attempt, error),
            Ok(normalized) => StepView {
                hub,
                stage: StageView::Recording {
                    updates,
                    update_id,
                    snapshot,
                    normalized: handed_on(updates[0], normalized),
                },
                attempt,
                action: ActionView::Record {
                    update_id,
                    event: update_event_of(
                        update_id,
                        metadata_of(
                            classified(
                                updates[0],
                                message_in(normalized),
                                normalization.received_at,
                            ),
                        ),
                        normalization.finished_at,
                    ),
                },
            },
        },
        (
            StageView::Recording { updates, update_id, snapshot, normalized },
            EventView::Recorded(Ok(_)),
        ) => advanced(
            accepted(hub, snapshot, update_id, message_in(normalized), decoded_in(normalized)),
            attempt,
            updates.drop_first(),
        ),
        (StageView::Recording { .. }, EventView::Recorded(Err(error))) => failed(
            hub,
            attempt,
            error,
        ),
        (StageView::Sleeping, EventView::Slept) => begun(hub, attempt),
        _ => StepView { hub, stage: StageView::Stopped, attempt, action: ActionView::Stop },
    }
}

enum Stage {
    Polling,
    Normalizing { updates: Vec<Json>, update_id: i64, snapshot: Vec<u64> },
    Recording {
        updates: Vec<Json>,
        update_id: i64,
        snapshot: Vec<u64>,
        normalized: Option<Normalized>,
    },
    Sleeping,
    Stopped,
}

spec fn stage_view(stage: Stage) -> StageView {
    match stage {
        Stage::Polling => StageView::Polling,
        Stage::Normalizing { updates, update_id, snapshot } => StageView::Normalizing {
            updates: views(updates@),
            update_id,
            snapshot: snapshot@,
        },
        Stage::Recording { updates, update_id, snapshot, normalized } => StageView::Recording {
            updates: views(updates@),
            update_id,
            snapshot: snapshot@,
            normalized: view_opt(normalized),
        },
        Stage::Sleeping => StageView::Sleeping,
        Stage::Stopped => StageView::Stopped,
    }
}

/// The poller between two events.
pub struct Poller {
    stage: Stage,
    attempt: u32,
}

impl Poller {
    #[verifier::type_invariant]
    spec fn at_hand(self) -> bool {
        sound(stage_view(self.stage))
    }

    /// What the poller waits for.
    pub closed spec fn stage(self) -> StageView {
        stage_view(self.stage)
    }

    /// How many transient errors came since the last batch that was worked off.
    pub closed spec fn attempt(self) -> u32 {
        self.attempt
    }

    /// Starts polling for a hub.
    pub fn begin(hub: &mut RealtimeHub) -> (r: (Poller, PollerAction))
        ensures
            ({
                let after = begun(old(hub)@, 0);
                &&& final(hub)@ == after.hub
                &&& r.0.stage() == after.stage
                &&& r.0.attempt() == after.attempt
                &&& r.1@ == after.action
            }),
    {
        Poller::round(hub, 0)
    }

    fn round(hub: &mut RealtimeHub, attempt: u32) -> (r: (Poller, PollerAction))
        ensures
            ({
                let after = begun(old(hub)@, attempt);
                &&& final(hub)@ == after.hub
                &&& r.0.stage() == after.stage
                &&& r.0.attempt() == after.attempt
                &&& r.1@ == after.action
            }),
    {
        if hub.begin_poll() {
            let action = PollerAction::Poll {
                offset: hub.cursor(),
                timeout_seconds: hub.settings().long_poll_timeout_seconds,
            };
            (Poller { stage: Stage::Polling, attempt }, action)
        } else {
            (Poller { stage: Stage::Stopped, attempt }, PollerAction::Stop)
        }
    }

    fn follow(hub: &mut RealtimeHub, attempt: u32, next: PollerNext) -> (r: (Poller, PollerAction))
        ensures
            ({
                let after = told(PollerView { hub: old(hub)@, attempt, next });
                &&& final(hub)@ == after.hub
                &&& r.0.stage() == after.stage
                &&& r.0.attempt() == after.attempt
                &&& r.1@ == after.action
            }),
    {
        match next {
            PollerNext::Poll => Poller::round(hub, attempt),
            PollerNext::Sleep(millis) => (
                Poller { stage: Stage::Sleeping, attempt },
                PollerAction::Sleep(millis),
            ),
            PollerNext::Stop => (Poller { stage: Stage::Stopped, attempt }, PollerAction::Stop),
        }
    }

    fn advance(hub: &mut RealtimeHub, attempt: u32, updates: Vec<Json>) -> (r: (
        Poller,
        PollerAction,
    ))
        requires
            offsets_fit(views(updates@)),
        ensures
            ({
                let after = advanced(old(hub)@, attempt, views(updates@));
                &&& final(hub)@ == after.hub
                &&& r.0.stage() == after.stage
                &&& r.0.attempt() == after.attempt
                &&& r.1@ == after.action
            }),
    {
        let mut attempt: u32 = attempt;
        if updates.len() == 0 {
            let next = hub.handle_processed(Ok(()), &mut attempt);
            return Poller::follow(hub, attempt, next);
        }
        assert(views(updates@)[0] == updates@[0]@);
        match required_update_id(&updates[0]) {
            Err(error) => {
                let next = hub.handle_processed(Err(error), &mut attempt);
                Poller::follow(hub, attempt, next)
            },
            Ok(update_id) => {
                let snapshot = hub.subscriber_snapshot();
                let action = PollerAction::Normalize(updates[0].clone());
                (Poller { stage: Stage::Normalizing { updates, update_id, snapshot }, attempt }, action)
            },
        }
    }

    fn fail(hub: &mut RealtimeHub, attempt: u32, error: IrisError) -> (r: (Poller, PollerAction))
        ensures
            ({
                let after = failed(old(hub)@, attempt, error@);
                &&& final(hub)@ == after.hub
                &&& r.0.stage() == after.stage
                &&& r.0.attempt() == after.attempt
                &&& r.1@ == after.action
            }),
    {
        hub.terminate_all(error);
        (Poller { stage: Stage::Stopped, attempt }, PollerAction::Stop)
    }

    /// Goes on after an event.
    pub fn step(self, hub: &mut RealtimeHub, event: PollerEvent) -> (r: (Poller, PollerAction))
        requires
            awaits(self.stage(), event@),
        ensures
            ({
                let after = stepped(old(hub)@, self.stage(), self.attempt(), event@);
                &&& final(hub)@ == after.hub
                &&& r.0.stage() == after.stage
                &&& r.0.attempt() == after.attempt
                &&& r.1@ == after.action
            }),
    {
        proof {
            use_type_invariant(&self);
        }
        let mut attempt: u32 = self.attempt;
        match (self.stage, event) {
            (Stage::Polling, PollerEvent::Polled(Ok(updates))) => Poller::advance(
                hub,
                attempt,
                updates,
            ),
            (Stage::Polling, PollerEvent::Polled(Err(error))) => {
                let next = hub.handle_poll_error(error, &mut attempt);
                Poller::follow(hub, attempt, next)
            },
            (
                Stage::Normalizing { updates, update_id, snapshot },
                PollerEvent::Normalized(normalization),
            ) => {
                assert(views(updates@)[0] == updates@[0]@);
                match normalization.outcome {
                    Err(error) => Poller::fail(hub, attempt, error),
                    Ok(normalized) => {
                        let (normalized, event) = classify(
                            &updates[0],
                            update_id,
                            normalized,
                            normalization.received_at,
                            normalization.finished_at,
                        );
                        let stage = Stage::Recording { updates, update_id, snapshot, normalized };
                        (Poller { stage, attempt }, PollerAction::Record { update_id, event })
                    },
                }
            },
            (
                Stage::Recording { updates, update_id, snapshot, normalized },
                PollerEvent::Recorded(recorded),
            ) => match recorded {
                Err(error) => Poller::fail(hub, attempt, error),
                Ok(outcome) => {
                    let ghost all = updates@;
                    assert(views(all)[0] == all[0]@);
                    let mut updates = updates;
                    let _ = updates.remove(0);
                    assert(views(updates@) =~= views(all).drop_first());
                    assert forall|i: int| 0 <= i < updates@.len() implies update_id_of(
                        #[trigger] views(updates@)[i],
                    ) != Some(i64::MAX) by {
                        assert(views(updates@)[i] == views(all)[i + 1]);
                    }
                    match normalized {
                        None => {
                            let _ = hub.commit(&snapshot, update_id, None, None, Ok(outcome));
                        },
                        Some(normalized) => {
                            let _ = hub.commit(
                                &snapshot,
                                update_id,
                                Some(&normalized.message),
                                Some(normalized.decoded),
                                Ok(outcome),
                            );
                        },
                    }
                    Poller::advance(hub, attempt, updates)
                },
            },
            (Stage::Sleeping, PollerEvent::Slept) => Poller::round(hub, attempt),
            _ => (Poller { stage: Stage::Stopped, attempt }, PollerAction::Stop),
        }
    }
}

/// What an update hands on, and the event by which it is recorded.
fn classify(
    update: &Json,
    update_id: i64,
    normalized: Option<Normalized>,
    received_at: Timestamp,
    finished_at: Timestamp,
) -> (r: (Option<Normalized>, AuditEvent))
    ensures
        view_opt(r.0) == handed_on(update@, view_opt(normalized)),
        r.1@ == update_event_of(
            update_id,
            metadata_of(classified(update@, message_in(view_opt(normalized)), received_at)),
            finished_at,
        ),
{
    match normalized {
        None => {
            let metadata = match classify_update(update, None, received_at) {
                Classified::Message(_, metadata) => metadata,
                Classified::Ignored(metadata) => metadata,
                Classified::Invalid(metadata) => metadata,
            };
            (None, update_event(update_id, &metadata, finished_at))
        },
        Some(normalized) => {
            let decoded = normalized.decoded;
            match classify_update(update, Some(normalized.message), received_at) {
                Classified::Message(message, metadata) => (
                    Some(Normalized { decoded, message }),
                    update_event(update_id, &metadata, finished_at),
                ),
                Classified::Ignored(metadata) => (
                    None,
                    update_event(update_id, &metadata, finished_at),
                ),
                Classified::Invalid(metadata) => (
                    None,
                    update_event(update_id, &metadata, finished_at),
                ),
            }
        },
    }
}

proof fn lemma_still_connected(mailboxes: Seq<MailboxView>, i: int)
    requires
        0 <= i < still_connected(mailboxes).len(),
    ensures
        mailboxes.contains(still_connected(mailboxes)[i]),
    decreases mailboxes.len(),
{
    if mailboxes.len() > 0 {
        let front = mailboxes.drop_last();
        if i < still_connected(front).len() {
            lemma_still_connected(front, i);
            let j = choose|j: int| 0 <= j < front.len() && front[j] == still_connected(front)[i];
            assert(mailboxes[j] == still_connected(mailboxes)[i]);
        } else {
            assert(mailboxes[mailboxes.len() - 1] == still_connected(mailboxes)[i]);
        }
    }
}

/// Whether a mailbox holds what it held before.
pub open spec fn held_before(before: Seq<MailboxView>, mailbox: MailboxView) -> bool {
    exists|i: int|
        0 <= i < before.len() && (#[trigger] before[i]).id == mailbox.id && before[i].queue
            == mailbox.queue
}

proof fn lemma_begun_hands_nothing_on(hub: HubView, attempt: u32)
    ensures
        begun(hub, attempt).hub.cursor == hub.cursor,
        begun(hub, attempt).hub.history == hub.history,
        forall|i: int|
            0 <= i < begun(hub, attempt).hub.mailboxes.len() ==> held_before(
                hub.mailboxes,
                #[trigger] begun(hub, attempt).hub.mailboxes[i],
            ),
{
    let after = begun(hub, attempt).hub.mailboxes;
    assert forall|i: int| 0 <= i < after.len() implies held_before(
        hub.mailboxes,
        #[trigger] after[i],
    ) by {
        lemma_still_connected(hub.mailboxes, i);
        let j = choose|j: int| 0 <= j < hub.mailboxes.len() && hub.mailboxes[j] == after[i];
        assert(hub.mailboxes[j].queue == after[i].queue);
    }
}

proof fn lemma_told_hands_nothing_on(before: HubView, after: PollerView)
    requires
        after.hub == before || exists|error: IrisErrorView| after.hub == terminated_all(before, error),
    ensures
        told(after).hub.cursor == before.cursor,
        told(after).hub.history == before.history,
        forall|i: int|
            0 <= i < told(after).hub.mailboxes.len() ==> held_before(
                before.mailboxes,
                #[trigger] told(after).hub.mailboxes[i],
            ),
{
    lemma_begun_hands_nothing_on(after.hub, after.attempt);
    let boxes = told(after).hub.mailboxes;
    assert forall|i: int| 0 <= i < boxes.len() implies held_before(
        before.mailboxes,
        #[trigger] boxes[i],
    ) by {
        if after.next is Poll {
            assert(held_before(after.hub.mailboxes, begun(after.hub, after.attempt).hub.mailboxes[i]));
            let j = choose|j: int|
                0 <= j < after.hub.mailboxes.len() && (#[trigger] after.hub.mailboxes[j]).id
                    == boxes[i].id && after.hub.mailboxes[j].queue == boxes[i].queue;
            assert(before.mailboxes[j].queue == after.hub.mailboxes[j].queue);
        } else {
            assert(before.mailboxes[i].queue == after.hub.mailboxes[i].queue);
        }
    }
}

/// Nothing is handed on, retained or acknowledged but by a successful entry in the audit trail: any
/// other event leaves the cursor, the history and what the mailboxes hold as they were.
pub proof fn law_updates_are_recorded_before_they_are_handed_on(
    hub: HubView,
    stage: StageView,
    attempt: u32,
    event: EventView,
)
    requires
        !(event is Recorded && event->Recorded_0 is Ok),
    ensures
        ({
            let after = stepped(hub, stage, attempt, event).hub;
            &&& after.cursor == hub.cursor
            &&& after.history == hub.history
            &&& forall|i: int|
                0 <= i < after.mailboxes.len() ==> held_before(
                    hub.mailboxes,
                    #[trigger] after.mailboxes[i],
                )
        }),
{
    let after = stepped(hub, stage, attempt, event).hub;
    assert forall|i: int| 0 <= i < hub.mailboxes.len() implies held_before(
        hub.mailboxes,
        #[trigger] hub.mailboxes[i],
    ) by {}
    match (stage, event) {
        (StageView::Polling, EventView::Polled(Ok(updates))) => {
            if updates.len() == 0 {
                lemma_told_hands_nothing_on(
                    hub,
                    PollerView { hub, attempt: 0, next: PollerNext::Poll },
                );
            } else {
                lemma_told_hands_nothing_on(
                    hub,
                    retried(
                        hub,
                        attempt,
                        IrisErrorView::Serialization("telegram update missing update_id"@).message(),
                    ),
                );
            }
        },
        (StageView::Polling, EventView::Polled(Err(error))) => {
            lemma_told_hands_nothing_on(hub, poll_failed(hub, attempt, error));
        },
        (StageView::Sleeping, EventView::Slept) => {
            lemma_begun_hands_nothing_on(hub, attempt);
        },
        _ => {
            assert forall|i: int| 0 <= i < after.mailboxes.len() implies held_before(
                hub.mailboxes,
                #[trigger] after.mailboxes[i],
            ) by {
                assert(hub.mailboxes[i].queue == after.mailboxes[i].queue);
            }
        },
    }
}

/// An update that was recorded is acknowledged: the next poll starts behind it.
pub proof fn law_recorded_updates_are_acknowledged(
    hub: HubView,
    stage: StageView,
    attempt: u32,
    outcome: RecordOutcome,
)
    requires
        stage is Recording,
        sound(stage),
    ensures
        stepped(hub, stage, attempt, EventView::Recorded(Ok(outcome))).hub.cursor
            == stage->Recording_update_id + 1,
{
}

/// What the audit trail and the normalization answer for one update.
pub struct Answer {
    pub normalization: NormalizationView,
    pub outcome: RecordOutcome,
}

/// The poller after the updates at hand were answered one by one.
pub open spec fn worked_off(at: StepView, answers: Seq<Answer>) -> StepView
    decreases answers.len(),
{
    if answers.len() == 0 {
        at
    } else {
        let asked = stepped(
            at.hub,
            at.stage,
            at.attempt,
            EventView::Normalized(answers[0].normalization),
        );
        let done = stepped(
            asked.hub,
            asked.stage,
            asked.attempt,
            EventView::Recorded(Ok(answers[0].outcome)),
        );
        worked_off(done, answers.drop_first())
    }
}

/// The hub after every update was accepted in turn, each by those who were subscribed when its turn
/// came.
pub open spec fn all_accepted(hub: HubView, updates: Seq<JsonView>, answers: Seq<Answer>) -> HubView
    decreases updates.len(),
{
    if updates.len() == 0 {
        hub
    } else {
        let normalized = handed_on(updates[0], answers[0].normalization.outcome->Ok_0);
        all_accepted(
            accepted(
                hub,
                registered_ids(hub.mailboxes),
                update_id_of(updates[0])->0,
                message_in(normalized),
                decoded_in(normalized),
            ),
            updates.drop_first(),
            answers.drop_first(),
        )
    }
}

/// A batch whose updates have identities, can be stored and are recorded is worked off whole and in
/// order, recorded before or not; then the retries start anew and the next poll begins behind the
/// last update.
pub proof fn law_a_recorded_batch_is_worked_off(
    hub: HubView,
    attempt: u32,
    updates: Seq<JsonView>,
    answers: Seq<Answer>,
)
    requires
        answers.len() == updates.len(),
        offsets_fit(updates),
        forall|i: int| 0 <= i < updates.len() ==> update_id_of(#[trigger] updates[i]) is Some,
        forall|i: int|
            0 <= i < answers.len() ==> (#[trigger] answers[i]).normalization.outcome is Ok,
    ensures
        worked_off(advanced(hub, attempt, updates), answers) == begun(
            all_accepted(hub, updates, answers),
            0,
        ),
        updates.len() > 0 ==> all_accepted(hub, updates, answers).cursor == update_id_of(
            updates.last(),
        )->0 + 1,
    decreases updates.len(),
{
    if updates.len() > 0 {
        let rest = updates.drop_first();
        let left = answers.drop_first();
        let normalized = handed_on(updates[0], answers[0].normalization.outcome->Ok_0);
        let next = accepted(
            hub,
            registered_ids(hub.mailboxes),
            update_id_of(updates[0])->0,
            message_in(normalized),
            decoded_in(normalized),
        );
        assert forall|i: int| 0 <= i < rest.len() implies update_id_of(#[trigger] rest[i]) is Some
            && update_id_of(rest[i]) != Some(i64::MAX) by {
            assert(rest[i] == updates[i + 1]);
        }
        assert forall|i: int| 0 <= i < left.len() implies (
        #[trigger] left[i]).normalization.outcome is Ok by {
            assert(left[i] == answers[i + 1]);
        }
        law_a_recorded_batch_is_worked_off(next, attempt, rest, left);
        if rest.len() > 0 {
            assert(rest.last() == updates.last());
        } else {
            assert(updates.last() == updates[0]);
        }
    }
}

/// The poller polls from the cursor on for as long as the settings say, unless the hub must stop.
pub proof fn law_the_poller_polls_from_the_cursor_on(hub: HubView, attempt: u32)
    ensures
        must_stop(pruned(hub)) ==> begun(hub, attempt).action is Stop && begun(
            hub,
            attempt,
        ).stage is Stopped,
        !must_stop(pruned(hub)) ==> begun(hub, attempt).action == (ActionView::Poll {
            offset: hub.cursor,
            timeout_seconds: hub.settings.long_poll_timeout_seconds,
        }) && begun(hub, attempt).stage is Polling,
        begun(hub, attempt).attempt == attempt,
{
}

/// A batch is worked off from its first update on, which is normalized for those who are subscribed
/// by then; an empty one starts the count of retries anew; one whose update has no number is
/// retried.
pub proof fn law_batches_are_worked_off_from_the_first(
    hub: HubView,
    attempt: u32,
    updates: Seq<JsonView>,
)
    ensures
        updates.len() == 0 ==> stepped(
            hub,
            StageView::Polling,
            attempt,
            EventView::Polled(Ok(updates)),
        ) == begun(hub, 0),
        updates.len() > 0 && update_id_of(updates[0]) is Some ==> {
            let step = stepped(hub, StageView::Polling, attempt, EventView::Polled(Ok(updates)));
            &&& step.action == ActionView::Normalize(updates[0])
            &&& step.stage == (StageView::Normalizing {
                updates,
                update_id: update_id_of(updates[0])->0,
                snapshot: registered_ids(hub.mailboxes),
            })
            &&& step.hub == hub
            &&& step.attempt == attempt
        },
        updates.len() > 0 && update_id_of(updates[0]) is None ==> {
            let step = stepped(hub, StageView::Polling, attempt, EventView::Polled(Ok(updates)));
            &&& step.hub.cursor == hub.cursor
            &&& attempt < hub.settings.retry_budget ==> step.stage is Sleeping && step.attempt
                == attempt + 1
            &&& attempt >= hub.settings.retry_budget ==> step.stage is Stopped
        },
{
}

/// What cannot be stored or recorded ends all streams with its error, and the cursor stays.
pub proof fn law_unrecorded_updates_end_all_streams(
    hub: HubView,
    stage: StageView,
    attempt: u32,
    normalization: NormalizationView,
    error: IrisErrorView,
)
    ensures
        stage is Recording ==> {
            let step = stepped(hub, stage, attempt, EventView::Recorded(Err(error)));
            &&& step.stage is Stopped && step.action is Stop
            &&& step.hub.terminated == Some(error)
            &&& step.hub.cursor == hub.cursor
        },
        stage is Normalizing && normalization.outcome == Err::<
            Option<NormalizedView>,
            IrisErrorView,
        >(error) ==> {
            let step = stepped(hub, stage, attempt, EventView::Normalized(normalization));
            &&& step.stage is Stopped && step.action is Stop
            &&& step.hub.terminated == Some(error)
            &&& step.hub.cursor == hub.cursor
        },
{
}

/// A normalized update is recorded under its own number before anything else, and what is handed on
/// later is its message, or nothing where the update has none.
pub proof fn law_normalized_updates_are_recorded_next(
    hub: HubView,
    attempt: u32,
    updates: Seq<JsonView>,
    update_id: i64,
    snapshot: Seq<u64>,
    normalization: NormalizationView,
)
    requires
        normalization.outcome is Ok,
    ensures
        ({
            let stage = StageView::Normalizing { updates, update_id, snapshot };
            let step = stepped(hub, stage, attempt, EventView::Normalized(normalization));
            let normalized = normalization.outcome->Ok_0;
            &&& step.hub == hub && step.attempt == attempt
            &&& step.action matches ActionView::Record { update_id: key, event } && key == update_id
                && event.source_id == Some(decimal(update_id as int)) && event.timestamp
                == normalization.finished_at
            &&& step.stage == (StageView::Recording {
                updates,
                update_id,
                snapshot,
                normalized: if updates[0].member("message"@) is Some {
                    normalized
                } else {
                    None
                },
            })
        }),
{
}

/// After a pause the poller polls again; once stopped or cancelled it does nothing more.
pub proof fn law_after_a_pause_the_poller_polls_again(hub: HubView, attempt: u32)
    ensures
        stepped(hub, StageView::Sleeping, attempt, EventView::Slept) == begun(hub, attempt),
        stepped(hub, StageView::Sleeping, attempt, EventView::Cancelled).stage is Stopped,
        stepped(hub, StageView::Polling, attempt, EventView::Cancelled).stage is Stopped,
        stepped(hub, StageView::Polling, attempt, EventView::Cancelled).hub == hub,
{
}

} // verus!
