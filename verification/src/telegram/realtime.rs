//! Telegram realtime hub: audited long polling with bounded subscriber fan-out.
//!
//! One provider instance owns one poller and cursor. The hub keeps a bounded mailbox for each
//! subscriber (message slots plus an out-of-band terminal slot), and advances the polling offset
//! only after the audit commit. A full mailbox records `SlowConsumer` as that subscriber's terminal
//! state and removes it without disturbing healthy ones; HTTP 409, audit-write failure, and
//! attachment-storage failure terminate all current subscribers and stop the poller without
//! advancing the cursor; transient errors retry within a validated budget.

use vstd::prelude::*;
use crate::audit::{AuditAction, AuditEvent, AuditEventView, RecordOutcome};
use crate::decimal::{decimal, signed_text, unsigned_text};
use crate::error::{config_error, prefixed, IrisError, IrisErrorView};
use crate::ids::uuid_text;
use crate::json::{Json, JsonNumber, JsonNumberView, JsonView};
use crate::model::{
    whole, whole_opt, whole_result, wholes, Attachment, AttachmentView, Message, MessageView,
    WholeMessage,
};
use crate::realtime::{
    audit_metadata_view, fresh_audit, RealtimeAttachmentSummary, RealtimeAuditMetadata,
    RealtimeAuditView, RealtimeEventKind, SummaryView,
};
use crate::telegram::{query_views, TelegramMessage, TelegramResponse, TelegramUpdate};
use crate::text::{view_opt, view_unit, views};
use crate::time::Timestamp;

verus! {

/// Bounded message slots per subscriber.
pub const SUBSCRIBER_QUEUE_CAPACITY: usize = 128;

/// Default transient retry budget.
pub const DEFAULT_REALTIME_RETRY_BUDGET: u32 = 3;

/// Telegram long-poll timeout in seconds.
pub const DEFAULT_LONG_POLL_TIMEOUT_SECONDS: u32 = 30;

/// How many accepted updates are retained for listings.
pub const HISTORY_CAPACITY: usize = 512;

/// Validated realtime poller settings.
#[derive(Clone, Copy, Debug, PartialEq, Eq, Structural)]
pub struct RealtimeSettings {
    /// Maximum transient retry attempts before the retries are exhausted.
    pub retry_budget: u32,
    /// Long-poll timeout in seconds sent to `getUpdates`.
    pub long_poll_timeout_seconds: u32,
}

impl Default for RealtimeSettings {
    fn default() -> (r: RealtimeSettings)
        ensures
            r.retry_budget == DEFAULT_REALTIME_RETRY_BUDGET,
            r.long_poll_timeout_seconds == DEFAULT_LONG_POLL_TIMEOUT_SECONDS,
    {
        RealtimeSettings {
            retry_budget: DEFAULT_REALTIME_RETRY_BUDGET,
            long_poll_timeout_seconds: DEFAULT_LONG_POLL_TIMEOUT_SECONDS,
        }
    }
}

impl RealtimeSettings {
    /// What is wrong with the settings, if anything.
    pub open spec fn checked(self) -> Result<(), IrisErrorView> {
        if self.retry_budget < 1 {
            Err(IrisErrorView::Config("realtime retry_budget must be at least 1"@))
        } else if self.long_poll_timeout_seconds < 1 {
            Err(
                IrisErrorView::Config(
                    "realtime long_poll_timeout_seconds must be at least 1"@,
                ),
            )
        } else {
            Ok(())
        }
    }

    /// Validate settings, rejecting values below the minimums.
    pub fn validate(&self) -> (r: Result<(), IrisError>)
        ensures
            view_unit(r) == self.checked(),
    {
        if self.retry_budget < 1 {
            return Err(config_error("realtime retry_budget must be at least 1"));
        }
        if self.long_poll_timeout_seconds < 1 {
            return Err(config_error("realtime long_poll_timeout_seconds must be at least 1"));
        }
        Ok(())
    }
}

/// The delay before a retry, in milliseconds.
pub open spec fn delay_of(attempt: u32) -> u64 {
    if attempt == 0 {
        250
    } else if attempt == 1 {
        500
    } else {
        1000
    }
}

/// Retry delay in milliseconds for a 0-based transient attempt: 250, 500, then 1000.
pub fn retry_delay(attempt: u32) -> (r: u64)
    ensures
        r == delay_of(attempt),
{
    if attempt == 0 {
        250
    } else if attempt == 1 {
        500
    } else {
        1000
    }
}

/// What a subscriber is to receive.
pub struct Mailbox {
    pub id: u64,
    /// Messages that were not read yet, the oldest first.
    pub queue: Vec<Message>,
    /// The error behind which the stream ends.
    pub terminal: Option<IrisError>,
    /// Whether messages are still delivered here.
    pub registered: bool,
    /// Whether somebody still reads.
    pub connected: bool,
}

/// The mathematical value of a mailbox.
#[verifier::ext_equal]
pub struct MailboxView {
    pub id: u64,
    /// The messages with the IDs of their attachments, so that none comes out under another ID.
    pub queue: Seq<WholeMessage>,
    pub terminal: Option<IrisErrorView>,
    pub registered: bool,
    pub connected: bool,
}

impl View for Mailbox {
    type V = MailboxView;

    open spec fn view(&self) -> MailboxView {
        MailboxView {
            id: self.id,
            queue: wholes(self.queue@),
            terminal: view_opt(self.terminal),
            registered: self.registered,
            connected: self.connected,
        }
    }
}

/// The mathematical value of a hub.
#[verifier::ext_equal]
pub struct HubView {
    pub mailboxes: Seq<MailboxView>,
    pub next_id: u64,
    pub terminated: Option<IrisErrorView>,
    pub running: bool,
    pub cancelled: bool,
    pub cursor: i64,
    pub history: Seq<TelegramUpdate>,
    pub settings: RealtimeSettings,
}

/// A mailbox with the terminal error set, unless one is set already, and no longer registered.
pub open spec fn ended(mailbox: MailboxView, error: IrisErrorView) -> MailboxView {
    MailboxView {
        terminal: if mailbox.terminal is Some {
            mailbox.terminal
        } else {
            Some(error)
        },
        registered: false,
        ..mailbox
    }
}

/// A mailbox behind the attempt to deliver a message.
pub open spec fn delivered(mailbox: MailboxView, message: WholeMessage) -> MailboxView {
    if !mailbox.connected {
        MailboxView { registered: false, ..mailbox }
    } else if mailbox.queue.len() >= SUBSCRIBER_QUEUE_CAPACITY {
        ended(mailbox, IrisErrorView::SlowConsumer)
    } else {
        MailboxView { queue: mailbox.queue.push(message), ..mailbox }
    }
}

/// The mailboxes behind the fan-out of a message to those in the snapshot.
pub open spec fn fanned_out(
    mailboxes: Seq<MailboxView>,
    snapshot: Seq<u64>,
    message: WholeMessage,
) -> Seq<MailboxView> {
    mailboxes.map_values(
        |mailbox: MailboxView|
            if snapshot.contains(mailbox.id) {
                delivered(mailbox, message)
            } else {
                mailbox
            },
    )
}

/// The mailboxes whose subscribers still read.
pub open spec fn still_connected(mailboxes: Seq<MailboxView>) -> Seq<MailboxView>
    decreases mailboxes.len(),
{
    if mailboxes.len() == 0 {
        seq![]
    } else if mailboxes.last().connected {
        still_connected(mailboxes.drop_last()).push(mailboxes.last())
    } else {
        still_connected(mailboxes.drop_last())
    }
}

/// The identities of the registered subscribers, in order.
pub open spec fn registered_ids(mailboxes: Seq<MailboxView>) -> Seq<u64>
    decreases mailboxes.len(),
{
    if mailboxes.len() == 0 {
        seq![]
    } else if mailboxes.last().registered {
        registered_ids(mailboxes.drop_last()).push(mailboxes.last().id)
    } else {
        registered_ids(mailboxes.drop_last())
    }
}

/// A hub with one subscriber more. A prior terminal stop or shutdown is cleared.
pub open spec fn subscribed(hub: HubView) -> HubView {
    HubView {
        mailboxes: hub.mailboxes.push(
            MailboxView {
                id: hub.next_id,
                queue: seq![],
                terminal: None,
                registered: true,
                connected: true,
            },
        ),
        next_id: (hub.next_id + 1) as u64,
        terminated: None,
        running: true,
        cancelled: false,
        ..hub
    }
}

/// A hub behind the departure of a subscriber.
pub open spec fn disconnected(hub: HubView, id: u64) -> HubView {
    HubView {
        mailboxes: hub.mailboxes.map_values(
            |mailbox: MailboxView|
                if mailbox.id == id {
                    MailboxView { connected: false, ..mailbox }
                } else {
                    mailbox
                },
        ),
        ..hub
    }
}

/// A hub that was shut down: nothing is delivered any more.
pub open spec fn shut_down(hub: HubView) -> HubView {
    HubView {
        mailboxes: hub.mailboxes.map_values(
            |mailbox: MailboxView| MailboxView { registered: false, ..mailbox },
        ),
        running: false,
        cancelled: true,
        ..hub
    }
}

/// A hub whose subscribers were all ended with an error.
pub open spec fn terminated_all(hub: HubView, error: IrisErrorView) -> HubView {
    HubView {
        mailboxes: hub.mailboxes.map_values(
            |mailbox: MailboxView|
                if mailbox.registered {
                    ended(mailbox, error)
                } else {
                    mailbox
                },
        ),
        terminated: Some(error),
        running: false,
        cancelled: true,
        ..hub
    }
}

/// A hub without the mailboxes that nobody reads.
pub open spec fn pruned(hub: HubView) -> HubView {
    HubView { mailboxes: still_connected(hub.mailboxes), ..hub }
}

/// Whether the poller must stop.
pub open spec fn must_stop(hub: HubView) -> bool {
    hub.cancelled || hub.terminated is Some || registered_ids(hub.mailboxes).len() == 0
}

/// A hub at the start of a poll: pruned, and without a poller where the last subscriber left.
pub open spec fn polling(hub: HubView) -> HubView {
    if must_stop(pruned(hub)) && hub.terminated is None {
        HubView { running: false, ..pruned(hub) }
    } else {
        pruned(hub)
    }
}

/// The updates with one more, of which the oldest rotate out.
pub open spec fn retained(history: Seq<TelegramUpdate>, update: TelegramUpdate) -> Seq<
    TelegramUpdate,
> {
    if history.len() < HISTORY_CAPACITY {
        history.push(update)
    } else {
        history.drop_first().push(update)
    }
}

/// A hub behind an audited update: what can be read is delivered, and the cursor moves behind the
/// update.
pub open spec fn accepted(
    hub: HubView,
    snapshot: Seq<u64>,
    update_id: i64,
    message: Option<WholeMessage>,
    decoded: Option<TelegramMessage>,
) -> HubView {
    HubView {
        mailboxes: match message {
            Some(message) => fanned_out(hub.mailboxes, snapshot, message),
            None => hub.mailboxes,
        },
        cursor: (update_id + 1) as i64,
        history: match decoded {
            Some(message) => retained(
                hub.history,
                TelegramUpdate { update_id, message: Some(message) },
            ),
            None => hub.history,
        },
        ..hub
    }
}

/// What a stream yields.
pub enum StreamItem {
    /// A message, or the error behind which the stream ends.
    Item(Result<Message, IrisError>),
    /// Nothing yet.
    Pending,
    /// Nothing more.
    End,
}

/// The mathematical value of what a stream yields.
#[verifier::ext_equal]
pub enum StreamItemView {
    /// A message with the IDs of its attachments, or the error behind which the stream ends.
    Item(Result<WholeMessage, IrisErrorView>),
    Pending,
    End,
}

impl View for StreamItem {
    type V = StreamItemView;

    open spec fn view(&self) -> StreamItemView {
        match *self {
            StreamItem::Item(item) => StreamItemView::Item(whole_result(item)),
            StreamItem::Pending => StreamItemView::Pending,
            StreamItem::End => StreamItemView::End,
        }
    }
}

/// What a mailbox yields: queued messages in order, then the terminal error, then the end.
pub open spec fn yielded(mailbox: MailboxView) -> StreamItemView {
    if mailbox.queue.len() > 0 {
        StreamItemView::Item(Ok(mailbox.queue[0]))
    } else if mailbox.terminal is Some {
        StreamItemView::Item(Err(mailbox.terminal->0))
    } else if mailbox.registered {
        StreamItemView::Pending
    } else {
        StreamItemView::End
    }
}

/// A mailbox behind a read.
pub open spec fn after_read(mailbox: MailboxView) -> MailboxView {
    if mailbox.queue.len() > 0 {
        MailboxView { queue: mailbox.queue.drop_first(), ..mailbox }
    } else {
        MailboxView { terminal: None, ..mailbox }
    }
}

/// The mailbox of a subscriber.
pub open spec fn mailbox_of(mailboxes: Seq<MailboxView>, id: u64) -> Option<MailboxView>
    decreases mailboxes.len(),
{
    if mailboxes.len() == 0 {
        None
    } else if mailboxes[0].id == id {
        Some(mailboxes[0])
    } else {
        mailbox_of(mailboxes.drop_first(), id)
    }
}

/// The mailboxes behind a read from the first one of a subscriber.
pub open spec fn read_from(mailboxes: Seq<MailboxView>, id: u64) -> Seq<MailboxView>
    decreases mailboxes.len(),
{
    if mailboxes.len() == 0 {
        mailboxes
    } else if mailboxes[0].id == id {
        seq![after_read(mailboxes[0])] + mailboxes.drop_first()
    } else {
        seq![mailboxes[0]] + read_from(mailboxes.drop_first(), id)
    }
}

/// What the poller does next.
#[derive(Clone, Copy, Debug, PartialEq, Eq, Structural)]
pub enum PollerNext {
    /// Poll again.
    Poll,
    /// Wait so many milliseconds, then poll again.
    Sleep(u64),
    /// Stop.
    Stop,
}

/// The hub, the attempts so far, and what the poller does next.
pub struct PollerView {
    pub hub: HubView,
    pub attempt: u32,
    pub next: PollerNext,
}

/// What a transient error leads to: a retry within the budget, else the end of all subscribers.
pub open spec fn retried(hub: HubView, attempt: u32, last_error: Seq<char>) -> PollerView {
    if attempt >= hub.settings.retry_budget {
        PollerView {
            hub: terminated_all(
                hub,
                IrisErrorView::RealtimeRetryExhausted {
                    attempts: hub.settings.retry_budget,
                    last_error,
                },
            ),
            attempt,
            next: PollerNext::Stop,
        }
    } else {
        PollerView {
            hub,
            attempt: (attempt + 1) as u32,
            next: PollerNext::Sleep(delay_of(attempt)),
        }
    }
}

/// The description of an error that may pass: a transport or a decoding error.
pub open spec fn transient(error: IrisErrorView) -> Option<Seq<char>> {
    match error {
        IrisErrorView::Transport(message) => Some(message),
        IrisErrorView::Serialization(message) => Some(message),
        _ => None,
    }
}

/// What the failure of a poll leads to.
pub open spec fn poll_failed(hub: HubView, attempt: u32, error: IrisErrorView) -> PollerView {
    if hub.cancelled {
        PollerView { hub, attempt, next: PollerNext::Stop }
    } else if transient(error) is Some {
        retried(hub, attempt, transient(error)->0)
    } else {
        PollerView { hub: terminated_all(hub, error), attempt, next: PollerNext::Stop }
    }
}

/// Why the updates of a response could not all be processed.
pub enum ProcessError {
    /// Terminal to all subscribers; stop without advancing the cursor.
    Terminal(IrisError),
    /// Transient protocol error; retry within the budget.
    Transient(IrisError),
}

/// What the processing of a response leads to.
pub open spec fn processed(
    hub: HubView,
    attempt: u32,
    result: Result<(), ProcessError>,
) -> PollerView {
    match result {
        Ok(()) => PollerView { hub, attempt: 0, next: PollerNext::Poll },
        Err(ProcessError::Terminal(error)) => PollerView {
            hub: terminated_all(hub, error@),
            attempt,
            next: PollerNext::Stop,
        },
        Err(ProcessError::Transient(error)) => retried(hub, attempt, error@.message()),
    }
}

/// The Telegram realtime hub: one poller, bounded fan-out, process-memory cursor, and
/// last-subscriber shutdown.
///
/// A poller stops when the registry empties or cancellation fires; a later subscription starts a
/// fresh poller from the in-memory cursor and receives only events accepted after it joined.
pub struct RealtimeHub {
    mailboxes: Vec<Mailbox>,
    next_id: u64,
    terminated: Option<IrisError>,
    running: bool,
    cancelled: bool,
    cursor: i64,
    history: Vec<TelegramUpdate>,
    settings: RealtimeSettings,
}

impl View for RealtimeHub {
    type V = HubView;

    closed spec fn view(&self) -> HubView {
        HubView {
            mailboxes: views(self.mailboxes@),
            next_id: self.next_id,
            terminated: view_opt(self.terminated),
            running: self.running,
            cancelled: self.cancelled,
            cursor: self.cursor,
            history: self.history@,
            settings: self.settings,
        }
    }
}

/// A hub as it begins.
pub open spec fn fresh_hub(settings: RealtimeSettings) -> HubView {
    HubView {
        mailboxes: seq![],
        next_id: 0,
        terminated: None,
        running: false,
        cancelled: false,
        cursor: 0,
        history: seq![],
        settings,
    }
}

/// Whether the bounds of a hub hold: no mailbox and no history beyond its capacity, and no identity
/// given twice.
pub open spec fn bounded(hub: HubView) -> bool {
    &&& forall|i: int|
        0 <= i < hub.mailboxes.len() ==> (#[trigger] hub.mailboxes[i]).queue.len()
            <= SUBSCRIBER_QUEUE_CAPACITY
    &&& forall|i: int|
        0 <= i < hub.mailboxes.len() ==> (#[trigger] hub.mailboxes[i]).id < hub.next_id
    &&& forall|i: int, j: int|
        0 <= i < j < hub.mailboxes.len() ==> (#[trigger] hub.mailboxes[i]).id != (
        #[trigger] hub.mailboxes[j]).id
    &&& hub.history.len() <= HISTORY_CAPACITY
}

impl Mailbox {
    fn end(self, error: &IrisError) -> (r: Mailbox)
        ensures
            r@ == ended(self@, error@),
    {
        let terminal = match self.terminal {
            Some(earlier) => Some(earlier),
            None => Some(error.clone()),
        };
        Mailbox {
            id: self.id,
            queue: self.queue,
            terminal,
            registered: false,
            connected: self.connected,
        }
    }

    fn deliver(self, message: &Message) -> (r: Mailbox)
        ensures
            r@ == delivered(self@, whole(*message)),
    {
        assert(self@.queue.len() == self.queue@.len());
        if !self.connected {
            return Mailbox {
                id: self.id,
                queue: self.queue,
                terminal: self.terminal,
                registered: false,
                connected: false,
            };
        }
        if self.queue.len() >= SUBSCRIBER_QUEUE_CAPACITY {
            return self.end(&IrisError::SlowConsumer);
        }
        let ghost before = self.queue@;
        let mut queue = self.queue;
        let copy = message.clone();
        queue.push(copy);
        assert(wholes(queue@) =~= wholes(before).push(whole(*message)));
        Mailbox {
            id: self.id,
            queue,
            terminal: self.terminal,
            registered: self.registered,
            connected: true,
        }
    }

    fn read(self) -> (r: (StreamItem, Mailbox))
        ensures
            r.0@ == yielded(self@),
            r.1@ == after_read(self@),
    {
        let Mailbox { id, queue, terminal, registered, connected } = self;
        let ghost before = queue@;
        let mut queue = queue;
        assert(wholes(before).len() == before.len());
        if queue.len() > 0 {
            let message = queue.remove(0);
            assert(wholes(queue@) =~= wholes(before).drop_first());
            return (
                StreamItem::Item(Ok(message)),
                Mailbox { id, queue, terminal, registered, connected },
            );
        }
        let item = match terminal {
            Some(error) => StreamItem::Item(Err(error)),
            None => if registered {
                StreamItem::Pending
            } else {
                StreamItem::End
            },
        };
        (item, Mailbox { id, queue, terminal: None, registered, connected })
    }
}

fn has_id(snapshot: &Vec<u64>, id: u64) -> (r: bool)
    ensures
        r == snapshot@.contains(id),
{
    let mut i: usize = 0;
    while i < snapshot.len()
        invariant
            i <= snapshot@.len(),
            forall|j: int| 0 <= j < i ==> snapshot@[j] != id,
        decreases snapshot@.len() - i,
    {
        if snapshot[i] == id {
            assert(snapshot@[i as int] == id);
            return true;
        }
        i += 1;
    }
    false
}

impl RealtimeHub {
    /// Create a hub with validated settings.
    pub fn new(settings: RealtimeSettings) -> (r: Result<RealtimeHub, IrisError>)
        ensures
            r matches Ok(hub) ==> settings.checked() is Ok && hub@ == fresh_hub(settings),
            r matches Err(error) ==> settings.checked() == Err::<(), IrisErrorView>(error@),
    {
        match settings.validate() {
            Ok(()) => {},
            Err(error) => return Err(error),
        }
        let hub = RealtimeHub {
            mailboxes: Vec::new(),
            next_id: 0,
            terminated: None,
            running: false,
            cancelled: false,
            cursor: 0,
            history: Vec::new(),
            settings,
        };
        assert(hub@ =~= fresh_hub(settings));
        Ok(hub)
    }

    /// Current in-memory cursor (next offset to request).
    pub fn cursor(&self) -> (r: i64)
        ensures
            r == self@.cursor,
    {
        self.cursor
    }

    /// Number of live subscribers in the registry.
    pub fn subscriber_count(&self) -> (r: usize)
        ensures
            r == registered_ids(self@.mailboxes).len(),
    {
        self.subscriber_snapshot().len()
    }

    /// Whether a poller is currently registered.
    pub fn is_poller_running(&self) -> (r: bool)
        ensures
            r == self@.running,
    {
        self.running
    }

    /// Whether in-flight polls are to be given up.
    pub fn is_cancelled(&self) -> (r: bool)
        ensures
            r == self@.cancelled,
    {
        self.cancelled
    }

    /// The accepted updates that are retained, the oldest first.
    pub fn history(&self) -> (r: &Vec<TelegramUpdate>)
        ensures
            r@ == self@.history,
    {
        &self.history
    }

    /// The settings of the poller.
    pub fn settings(&self) -> (r: RealtimeSettings)
        ensures
            r == self@.settings,
    {
        self.settings
    }

    /// Whether an identity is left for a subscriber.
    pub fn can_subscribe(&self) -> (r: bool)
        ensures
            r == (self@.next_id < u64::MAX),
    {
        self.next_id < u64::MAX
    }

    /// Register a subscriber. Tells its identity, and whether a poller must be started for it.
    pub fn subscribe(&mut self) -> (r: (u64, bool))
        requires
            old(self)@.next_id < u64::MAX,
        ensures
            final(self)@ == subscribed(old(self)@),
            r.0 == old(self)@.next_id,
            r.1 == !old(self)@.running,
    {
        let id = self.next_id;
        let start = !self.running;
        let ghost before = self.mailboxes@;
        let mailbox = Mailbox {
            id,
            queue: Vec::new(),
            terminal: None,
            registered: true,
            connected: true,
        };
        assert(wholes(mailbox.queue@) =~= seq![]);
        self.mailboxes.push(mailbox);
        assert(views(self.mailboxes@) =~= views(before).push(mailbox@));
        self.next_id = id + 1;
        self.terminated = None;
        self.cancelled = false;
        self.running = true;
        (id, start)
    }

    /// Notes that a subscriber no longer reads.
    pub fn disconnect(&mut self, id: u64)
        ensures
            final(self)@ == disconnected(old(self)@, id),
    {
        let ghost given = self@;
        let mut mailboxes: Vec<Mailbox> = Vec::new();
        std::mem::swap(&mut mailboxes, &mut self.mailboxes);
        let ghost all = mailboxes@;
        let mut out: Vec<Mailbox> = Vec::new();
        for mailbox in it: mailboxes
            invariant
                it.seq() == all,
                out@.len() == it.index(),
                forall|j: int|
                    0 <= j < it.index() ==> (#[trigger] out@[j])@ == (if all[j].id == id {
                        MailboxView { connected: false, ..all[j]@ }
                    } else {
                        all[j]@
                    }),
        {
            let connected = mailbox.connected && mailbox.id != id;
            out.push(
                Mailbox {
                    id: mailbox.id,
                    queue: mailbox.queue,
                    terminal: mailbox.terminal,
                    registered: mailbox.registered,
                    connected,
                },
            );
        }
        assert(views(out@) =~= disconnected(given, id).mailboxes);
        self.mailboxes = out;
    }

    /// Stop delivering to every subscriber, so that streams end behind what they still hold.
    pub fn shutdown(&mut self)
        ensures
            final(self)@ == shut_down(old(self)@),
    {
        let ghost given = self@;
        let mut mailboxes: Vec<Mailbox> = Vec::new();
        std::mem::swap(&mut mailboxes, &mut self.mailboxes);
        let ghost all = mailboxes@;
        let mut out: Vec<Mailbox> = Vec::new();
        for mailbox in it: mailboxes
            invariant
                it.seq() == all,
                out@.len() == it.index(),
                forall|j: int|
                    0 <= j < it.index() ==> (#[trigger] out@[j])@ == (MailboxView {
                        registered: false,
                        ..all[j]@
                    }),
        {
            out.push(
                Mailbox {
                    id: mailbox.id,
                    queue: mailbox.queue,
                    terminal: mailbox.terminal,
                    registered: false,
                    connected: mailbox.connected,
                },
            );
        }
        assert(views(out@) =~= shut_down(given).mailboxes);
        self.mailboxes = out;
        self.running = false;
        self.cancelled = true;
    }

    /// Record a terminal error for every current subscriber, remove them all from the registry,
    /// and stop the poller without advancing the cursor.
    pub fn terminate_all(&mut self, error: IrisError)
        ensures
            final(self)@ == terminated_all(old(self)@, error@),
    {
        let ghost given = self@;
        let mut mailboxes: Vec<Mailbox> = Vec::new();
        std::mem::swap(&mut mailboxes, &mut self.mailboxes);
        let ghost all = mailboxes@;
        let mut out: Vec<Mailbox> = Vec::new();
        for mailbox in it: mailboxes
            invariant
                it.seq() == all,
                out@.len() == it.index(),
                forall|j: int|
                    0 <= j < it.index() ==> (#[trigger] out@[j])@ == (if all[j].registered {
                        ended(all[j]@, error@)
                    } else {
                        all[j]@
                    }),
        {
            if mailbox.registered {
                out.push(mailbox.end(&error));
            } else {
                out.push(mailbox);
            }
        }
        assert(views(out@) =~= terminated_all(given, error@).mailboxes);
        self.mailboxes = out;
        self.running = false;
        self.cancelled = true;
        self.terminated = Some(error);
    }

    /// Decides at the start of a poll whether to poll: mailboxes that nobody reads are removed, and
    /// the poller stops where nobody is left, or where it was told to.
    pub fn begin_poll(&mut self) -> (r: bool)
        ensures
            final(self)@ == polling(old(self)@),
            r == !must_stop(pruned(old(self)@)),
    {
        let ghost given = self@;
        let mut mailboxes: Vec<Mailbox> = Vec::new();
        std::mem::swap(&mut mailboxes, &mut self.mailboxes);
        let ghost all = views(mailboxes@);
        let ghost boxes = mailboxes@;
        let mut out: Vec<Mailbox> = Vec::new();
        assert(all.take(0) =~= seq![]);
        assert(views(out@) =~= seq![]);
        for mailbox in it: mailboxes
            invariant
                it.seq() == boxes,
                all == views(boxes),
                views(out@) == still_connected(all.take(it.index())),
        {
            let ghost before = out@;
            proof {
                let next = all.take(it.index() + 1);
                assert(next.drop_last() =~= all.take(it.index()));
                assert(next.last() == mailbox@);
            }
            if mailbox.connected {
                out.push(mailbox);
                assert(views(out@) =~= views(before).push(mailbox@));
            }
        }
        assert(all.take(all.len() as int) =~= all);
        self.mailboxes = out;
        assert(self@ == pruned(given));
        let stop = self.cancelled || self.terminated.is_some() || self.subscriber_count() == 0;
        if stop && self.terminated.is_none() {
            self.running = false;
        }
        !stop
    }

    /// The subscribers that exist when an update arrives.
    pub fn subscriber_snapshot(&self) -> (r: Vec<u64>)
        ensures
            r@ == registered_ids(self@.mailboxes),
    {
        let ghost all = views(self.mailboxes@);
        let mut out: Vec<u64> = Vec::new();
        let mut i: usize = 0;
        assert(all.take(0) =~= seq![]);
        while i < self.mailboxes.len()
            invariant
                i <= self.mailboxes@.len(),
                all == views(self.mailboxes@),
                out@ == registered_ids(all.take(i as int)),
            decreases self.mailboxes@.len() - i,
        {
            proof {
                let next = all.take(i + 1);
                assert(next.drop_last() =~= all.take(i as int));
                assert(next.last() == self.mailboxes@[i as int]@);
            }
            if self.mailboxes[i].registered {
                out.push(self.mailboxes[i].id);
            }
            i += 1;
        }
        assert(all.take(all.len() as int) =~= all);
        out
    }

    /// Attempt delivery to every subscriber of a snapshot. A full mailbox records `SlowConsumer` in
    /// that subscriber's terminal state and removes it from the registry; neither that nor a
    /// departed subscriber disturbs the others.
    pub fn fan_out(&mut self, snapshot: &Vec<u64>, message: &Message)
        ensures
            final(self)@ == (HubView {
                mailboxes: fanned_out(old(self)@.mailboxes, snapshot@, whole(*message)),
                ..old(self)@
            }),
    {
        let ghost given = self@;
        let mut mailboxes: Vec<Mailbox> = Vec::new();
        std::mem::swap(&mut mailboxes, &mut self.mailboxes);
        let ghost all = mailboxes@;
        let mut out: Vec<Mailbox> = Vec::new();
        for mailbox in it: mailboxes
            invariant
                it.seq() == all,
                out@.len() == it.index(),
                forall|j: int|
                    0 <= j < it.index() ==> (#[trigger] out@[j])@ == (if snapshot@.contains(
                        all[j].id,
                    ) {
                        delivered(all[j]@, whole(*message))
                    } else {
                        all[j]@
                    }),
        {
            if has_id(snapshot, mailbox.id) {
                out.push(mailbox.deliver(message));
            } else {
                out.push(mailbox);
            }
        }
        assert(views(out@) =~= fanned_out(given.mailboxes, snapshot@, whole(*message)));
        self.mailboxes = out;
    }

    fn retain(&mut self, update: TelegramUpdate)
        ensures
            final(self)@ == (HubView {
                history: retained(old(self)@.history, update),
                ..old(self)@
            }),
    {
        let ghost before = self.history@;
        if self.history.len() >= HISTORY_CAPACITY {
            let _oldest = self.history.remove(0);
            assert(self.history@ =~= before.drop_first());
        }
        self.history.push(update);
    }

    /// Takes the answer of the audit log for an update. Only an audited update is delivered and
    /// acknowledged; an update that was recorded before is delivered without a second record.
    pub fn commit(
        &mut self,
        snapshot: &Vec<u64>,
        update_id: i64,
        message: Option<&Message>,
        decoded: Option<TelegramMessage>,
        audited: Result<RecordOutcome, IrisError>,
    ) -> (r: Result<(), ProcessError>)
        requires
            update_id < i64::MAX,
        ensures
            match audited {
                Ok(_) => r is Ok && final(self)@ == accepted(
                    old(self)@,
                    snapshot@,
                    update_id,
                    match message {
                        Some(message) => Some(whole(*message)),
                        None => None,
                    },
                    decoded,
                ),
                Err(error) => final(self)@ == old(self)@ && r == Err::<(), ProcessError>(
                    ProcessError::Terminal(error),
                ),
            },
    {
        match audited {
            Ok(_) => {},
            Err(error) => return Err(ProcessError::Terminal(error)),
        }
        if let Some(message) = message {
            self.fan_out(snapshot, message);
        }
        if let Some(decoded) = decoded {
            self.retain(TelegramUpdate { update_id, message: Some(decoded) });
        }
        self.cursor = update_id + 1;
        Ok(())
    }

    /// Reads the next item of a subscriber's stream.
    pub fn next_item(&mut self, id: u64) -> (r: StreamItem)
        ensures
            r@ == (match mailbox_of(old(self)@.mailboxes, id) {
                Some(mailbox) => yielded(mailbox),
                None => StreamItemView::End,
            }),
            final(self)@ == (HubView {
                mailboxes: read_from(old(self)@.mailboxes, id),
                ..old(self)@
            }),
    {
        let ghost all = self@.mailboxes;
        let mut i: usize = 0;
        assert(all.skip(0) =~= all);
        assert(read_from(all, id) =~= all.take(0) + read_from(all.skip(0), id));
        while i < self.mailboxes.len() && self.mailboxes[i].id != id
            invariant
                i <= self.mailboxes@.len(),
                *self == *old(self),
                all == views(self.mailboxes@),
                mailbox_of(all, id) == mailbox_of(all.skip(i as int), id),
                read_from(all, id) == all.take(i as int) + read_from(all.skip(i as int), id),
            decreases self.mailboxes@.len() - i,
        {
            proof {
                let rest = all.skip(i as int);
                assert(rest[0] == all[i as int]);
                assert(rest.drop_first() =~= all.skip(i + 1));
                assert(all.take(i as int) + (seq![rest[0]] + read_from(all.skip(i + 1), id))
                    =~= all.take(i + 1) + read_from(all.skip(i + 1), id));
            }
            i += 1;
        }
        let ghost rest = all.skip(i as int);
        if i < self.mailboxes.len() {
            let mailbox = self.mailboxes.remove(i);
            let ghost read = mailbox@;
            let (item, left) = mailbox.read();
            self.mailboxes.insert(i, left);
            proof {
                assert(rest[0] == all[i as int]);
                assert(read == rest[0]);
                assert(views(self.mailboxes@) =~= all.take(i as int) + (seq![after_read(rest[0])]
                    + rest.drop_first()));
            }
            item
        } else {
            proof {
                assert(rest =~= Seq::<MailboxView>::empty());
                assert(all.take(i as int) + rest =~= all);
            }
            StreamItem::End
        }
    }

    /// Retry or exhaust a transient error within the budget.
    pub fn retry_transient(&mut self, last_error: String, attempt: &mut u32) -> (r: PollerNext)
        ensures
            ({
                let after = retried(old(self)@, *old(attempt), last_error@);
                &&& final(self)@ == after.hub
                &&& *final(attempt) == after.attempt
                &&& r == after.next
            }),
    {
        if *attempt >= self.settings.retry_budget {
            let attempts = self.settings.retry_budget;
            self.terminate_all(IrisError::RealtimeRetryExhausted { attempts, last_error });
            return PollerNext::Stop;
        }
        let delay = retry_delay(*attempt);
        *attempt = *attempt + 1;
        PollerNext::Sleep(delay)
    }

    /// Classify and act on the failure of a poll.
    pub fn handle_poll_error(&mut self, error: IrisError, attempt: &mut u32) -> (r: PollerNext)
        ensures
            ({
                let after = poll_failed(old(self)@, *old(attempt), error@);
                &&& final(self)@ == after.hub
                &&& *final(attempt) == after.attempt
                &&& r == after.next
            }),
    {
        if self.cancelled {
            return PollerNext::Stop;
        }
        match classify_transient(&error) {
            Some(description) => self.retry_transient(description, attempt),
            None => {
                self.terminate_all(error);
                PollerNext::Stop
            },
        }
    }

    /// Acts on how the processing of a response ended.
    pub fn handle_processed(&mut self, result: Result<(), ProcessError>, attempt: &mut u32) -> (r:
        PollerNext)
        ensures
            ({
                let after = processed(old(self)@, *old(attempt), result);
                &&& final(self)@ == after.hub
                &&& *final(attempt) == after.attempt
                &&& r == after.next
            }),
    {
        match result {
            Ok(()) => {
                *attempt = 0;
                PollerNext::Poll
            },
            Err(ProcessError::Terminal(error)) => {
                self.terminate_all(error);
                PollerNext::Stop
            },
            Err(ProcessError::Transient(error)) => {
                self.retry_transient(error.describe(), attempt)
            },
        }
    }
}

/// Whether an error is transient (retryable), returning its description.
pub fn classify_transient(error: &IrisError) -> (r: Option<String>)
    ensures
        view_opt(r) == transient(error@),
{
    match error {
        IrisError::Transport(message) => Some(message.clone()),
        IrisError::Serialization(message) => Some(message.clone()),
        _ => None,
    }
}

/// The identity of an update, if it has one.
pub open spec fn update_id_of(update: JsonView) -> Option<i64> {
    match update.member("update_id"@) {
        Some(JsonView::Number(JsonNumberView::Unsigned(n))) => if n <= i64::MAX {
            Some(n as i64)
        } else {
            None
        },
        Some(JsonView::Number(JsonNumberView::Negative(n))) => Some(n),
        _ => None,
    }
}

/// The identity of an update, if it has one.
pub fn update_id(update: &Json) -> (r: Option<i64>)
    ensures
        r == update_id_of(update@),
{
    match update.get("update_id") {
        Some(Json::Number(JsonNumber::Unsigned(n))) => {
            let n: u64 = *n;
            if n <= 0x7fff_ffff_ffff_ffff {
                Some(n as i64)
            } else {
                None
            }
        },
        Some(Json::Number(JsonNumber::Negative(n))) => Some(*n),
        _ => None,
    }
}

/// The identity of an update, which processing needs.
pub fn required_update_id(update: &Json) -> (r: Result<i64, ProcessError>)
    ensures
        r matches Ok(id) ==> update_id_of(update@) == Some(id),
        r matches Err(error) ==> update_id_of(update@) is None && error is Transient
            && error->Transient_0@ == IrisErrorView::Serialization(
            "telegram update missing update_id"@,
        ),
{
    match update_id(update) {
        Some(id) => Ok(id),
        None => Err(
            ProcessError::Transient(
                IrisError::Serialization("telegram update missing update_id".to_owned()),
            ),
        ),
    }
}

/// The query of a realtime `getUpdates` request: every kind of update, from the cursor on.
pub open spec fn realtime_query_of(offset: i64, timeout: u32) -> Seq<(Seq<char>, Seq<char>)> {
    (if offset > 0 {
        seq![("offset"@, decimal(offset as int))]
    } else {
        seq![]
    }) + seq![("timeout"@, decimal(timeout as int))]
}

/// The query of a realtime `getUpdates` request.
pub fn realtime_query(offset: i64, timeout_seconds: u32) -> (r: Vec<(String, String)>)
    ensures
        query_views(r@) == realtime_query_of(offset, timeout_seconds),
{
    let mut query: Vec<(String, String)> = Vec::new();
    if offset > 0 {
        query.push(("offset".to_owned(), signed_text(offset)));
    }
    query.push(("timeout".to_owned(), unsigned_text(timeout_seconds as u64)));
    assert(query_views(query@) =~= realtime_query_of(offset, timeout_seconds));
    query
}

/// What the HTTP status of a `getUpdates` answer means: 409 and other client errors are terminal,
/// 429 and server errors are transient.
pub open spec fn status_checked(status: u16, text: Seq<char>) -> Result<(), IrisErrorView> {
    if status == 409 {
        Err(
            IrisErrorView::Provider {
                provider: "telegram"@,
                message: "telegram getUpdates conflict (HTTP 409)"@,
            },
        )
    } else if status == 429 || 500 <= status <= 599 {
        Err(IrisErrorView::Transport("telegram getUpdates transient HTTP "@ + text))
    } else if !(200 <= status <= 299) {
        Err(
            IrisErrorView::Provider {
                provider: "telegram"@,
                message: "telegram getUpdates terminal HTTP "@ + text,
            },
        )
    } else {
        Ok(())
    }
}

/// Checks the HTTP status of a `getUpdates` answer, given with its text.
pub fn check_status(status: u16, text: &str) -> (r: Result<(), IrisError>)
    ensures
        view_unit(r) == status_checked(status, text@),
{
    if status == 409 {
        return Err(
            IrisError::Provider {
                provider: "telegram".to_owned(),
                message: "telegram getUpdates conflict (HTTP 409)".to_owned(),
            },
        );
    }
    if status == 429 || (500 <= status && status <= 599) {
        return Err(
            IrisError::Transport(prefixed("telegram getUpdates transient HTTP ", text)),
        );
    }
    if !(200 <= status && status <= 299) {
        return Err(
            IrisError::Provider {
                provider: "telegram".to_owned(),
                message: prefixed("telegram getUpdates terminal HTTP ", text),
            },
        );
    }
    Ok(())
}

/// The updates of a `getUpdates` answer: none where the result is not an array.
pub fn updates_of(envelope: TelegramResponse<Json>) -> (r: Result<Vec<Json>, IrisError>)
    ensures
        r is Ok <==> envelope.ok && envelope.result is Some,
        r matches Ok(updates) ==> updates@ == (match envelope.result {
            Some(Json::Array(items)) => items@,
            _ => seq![],
        }),
        r matches Err(error) ==> error@ == envelope.failure(),
{
    match envelope.into_result() {
        Ok(Json::Array(items)) => Ok(items),
        Ok(_) => Ok(Vec::new()),
        Err(error) => Err(error),
    }
}

/// The classification of one raw Telegram update.
pub enum Classified {
    /// A normalizable message plus its fixed audit metadata.
    Message(Message, RealtimeAuditMetadata),
    /// No usable message shape (audited and acknowledged, no fan-out).
    Ignored(RealtimeAuditMetadata),
    /// Decode/normalization failure with a known ID (audited and acknowledged).
    Invalid(RealtimeAuditMetadata),
}

/// The mathematical value of a classification.
#[verifier::ext_equal]
pub enum ClassifiedView {
    Message(WholeMessage, RealtimeAuditView),
    Ignored(RealtimeAuditView),
    Invalid(RealtimeAuditView),
}

impl View for Classified {
    type V = ClassifiedView;

    open spec fn view(&self) -> ClassifiedView {
        match *self {
            Classified::Message(message, metadata) => ClassifiedView::Message(
                whole(message),
                metadata@,
            ),
            Classified::Ignored(metadata) => ClassifiedView::Ignored(metadata@),
            Classified::Invalid(metadata) => ClassifiedView::Invalid(metadata@),
        }
    }
}

/// The summaries of attachments: their shape, never their content or their URLs.
pub open spec fn summaries(attachments: Seq<AttachmentView>) -> Seq<SummaryView> {
    attachments.map_values(
        |attachment: AttachmentView|
            SummaryView {
                mime_type: attachment.mime_type,
                name: attachment.filename,
                byte_count: attachment.size,
            },
    )
}

/// The audit metadata of a received message.
pub open spec fn message_audit(update_id: Seq<char>, message: MessageView, at: Timestamp) -> RealtimeAuditView {
    RealtimeAuditView {
        source_id: Some(message.source_id),
        thread_id: Some(uuid_text(message.thread_id.value)),
        message_id: Some(uuid_text(message.id.value)),
        message_kind: Some(message.kind),
        attachments: summaries(message.attachments),
        ..fresh_audit(RealtimeEventKind::Message, "telegram"@, update_id, at)
    }
}

/// The text of an update's identity, empty where it has none.
pub open spec fn update_key(update: JsonView) -> Seq<char> {
    match update_id_of(update) {
        Some(id) => decimal(id as int),
        None => seq![],
    }
}

/// What an update is, given its message in normalized form where it could be decoded.
pub open spec fn classified(update: JsonView, decoded: Option<WholeMessage>, at: Timestamp) -> ClassifiedView {
    let key = update_key(update);
    if update.member("message"@) is None {
        ClassifiedView::Ignored(fresh_audit(RealtimeEventKind::IgnoredUpdate, "telegram"@, key, at))
    } else {
        match decoded {
            Some(whole) => ClassifiedView::Message(whole, message_audit(key, whole.message, at)),
            None => ClassifiedView::Invalid(
                fresh_audit(RealtimeEventKind::InvalidUpdate, "telegram"@, key, at),
            ),
        }
    }
}

fn attachment_summaries(attachments: &Vec<Attachment>) -> (r: Vec<RealtimeAttachmentSummary>)
    ensures
        views(r@) == summaries(views(attachments@)),
{
    let mut out: Vec<RealtimeAttachmentSummary> = Vec::new();
    let mut i: usize = 0;
    while i < attachments.len()
        invariant
            i <= attachments@.len(),
            out@.len() == i,
            forall|j: int|
                0 <= j < i ==> (#[trigger] out@[j])@ == summaries(views(attachments@))[j],
        decreases attachments@.len() - i,
    {
        out.push(RealtimeAttachmentSummary::from(&attachments[i]));
        i += 1;
    }
    assert(views(out@) =~= summaries(views(attachments@)));
    out
}

/// Classify one raw Telegram update, given its message in normalized form where it could be
/// decoded.
pub fn classify_update(update: &Json, decoded: Option<Message>, at: Timestamp) -> (r: Classified)
    ensures
        r@ == classified(update@, whole_opt(decoded), at),
{
    let key = match update_id(update) {
        Some(id) => signed_text(id),
        None => String::new(),
    };
    if update.get("message").is_none() {
        return Classified::Ignored(
            RealtimeAuditMetadata::new(
                RealtimeEventKind::IgnoredUpdate,
                "telegram",
                key.as_str(),
                at,
            ),
        );
    }
    match decoded {
        Some(message) => {
            let metadata = RealtimeAuditMetadata::new(
                RealtimeEventKind::Message,
                "telegram",
                key.as_str(),
                at,
            ).with_source_id(message.source_id.as_str()).with_thread_id(
                message.thread_id.text().as_str(),
            ).with_message_id(message.id.text().as_str()).with_message_kind(
                message.kind,
            ).with_attachments(attachment_summaries(&message.attachments));
            Classified::Message(message, metadata)
        },
        None => Classified::Invalid(
            RealtimeAuditMetadata::new(
                RealtimeEventKind::InvalidUpdate,
                "telegram",
                key.as_str(),
                at,
            ),
        ),
    }
}

/// The audit event of an update, recorded under the update's identity.
pub open spec fn update_event_of(update_id: i64, metadata: RealtimeAuditView, now: Timestamp) -> AuditEventView {
    AuditEventView {
        action: AuditAction::Normalize,
        provider: "telegram"@,
        source_id: Some(decimal(update_id as int)),
        timestamp: now,
        metadata: audit_metadata_view(metadata),
    }
}

/// The audit event of an update, recorded under the update's identity.
pub fn update_event(update_id: i64, metadata: &RealtimeAuditMetadata, now: Timestamp) -> (r:
    AuditEvent)
    ensures
        r@ == update_event_of(update_id, metadata@, now),
{
    AuditEvent {
        action: AuditAction::Normalize,
        provider: "telegram".to_owned(),
        source_id: Some(signed_text(update_id)),
        timestamp: now,
        metadata: metadata.to_json(),
    }
}

/// Whether a subscription can be had: it needs an audit sink and valid settings.
pub open spec fn ready(has_audit: bool, settings: Option<RealtimeSettings>) -> Result<
    (),
    IrisErrorView,
> {
    if !has_audit {
        Err(
            IrisErrorView::RealtimeUnavailable {
                provider: "telegram"@,
                code: "audit sink required for realtime ingress"@,
            },
        )
    } else {
        match settings {
            Some(settings) => settings.checked(),
            None => Ok(()),
        }
    }
}

/// Checks whether a subscription can be had.
pub fn check_ready(has_audit: bool, settings: Option<RealtimeSettings>) -> (r: Result<
    (),
    IrisError,
>)
    ensures
        view_unit(r) == ready(has_audit, settings),
{
    if !has_audit {
        return Err(
            IrisError::RealtimeUnavailable {
                provider: "telegram".to_owned(),
                code: "audit sink required for realtime ingress".to_owned(),
            },
        );
    }
    match settings {
        Some(settings) => settings.validate(),
        None => Ok(()),
    }
}

/// Whether the bounds of some mailboxes hold.
pub open spec fn boxes_bounded(mailboxes: Seq<MailboxView>, next_id: u64) -> bool {
    &&& forall|i: int|
        0 <= i < mailboxes.len() ==> (#[trigger] mailboxes[i]).queue.len()
            <= SUBSCRIBER_QUEUE_CAPACITY
    &&& forall|i: int| 0 <= i < mailboxes.len() ==> (#[trigger] mailboxes[i]).id < next_id
    &&& forall|i: int, j: int|
        0 <= i < j < mailboxes.len() ==> (#[trigger] mailboxes[i]).id != (
        #[trigger] mailboxes[j]).id
}

proof fn lemma_connected_bounded(mailboxes: Seq<MailboxView>, next_id: u64)
    requires
        boxes_bounded(mailboxes, next_id),
    ensures
        boxes_bounded(still_connected(mailboxes), next_id),
        forall|i: int|
            0 <= i < still_connected(mailboxes).len() ==> mailboxes.contains(
                #[trigger] still_connected(mailboxes)[i],
            ),
    decreases mailboxes.len(),
{
    if mailboxes.len() > 0 {
        let front = mailboxes.drop_last();
        let kept = still_connected(front);
        assert(boxes_bounded(front, next_id)) by {
            assert forall|i: int| 0 <= i < front.len() implies (#[trigger] front[i]).queue.len()
                <= SUBSCRIBER_QUEUE_CAPACITY && front[i].id < next_id by {
                assert(front[i] == mailboxes[i]);
            }
            assert forall|i: int, j: int| 0 <= i < j < front.len() implies (#[trigger] front[i]).id
                != (#[trigger] front[j]).id by {
                assert(front[i] == mailboxes[i] && front[j] == mailboxes[j]);
            }
        }
        lemma_connected_bounded(front, next_id);
        let all = still_connected(mailboxes);
        let last = mailboxes.len() - 1;
        assert forall|i: int| 0 <= i < kept.len() implies mailboxes.contains(#[trigger] kept[i])
            && kept[i].id != mailboxes[last].id by {
            assert(front.contains(kept[i]));
            let k = choose|k: int| 0 <= k < front.len() && front[k] == kept[i];
            assert(mailboxes[k] == kept[i]);
        }
        assert forall|i: int| 0 <= i < all.len() implies mailboxes.contains(#[trigger] all[i])
            && all[i].queue.len() <= SUBSCRIBER_QUEUE_CAPACITY && all[i].id < next_id by {
            if i < kept.len() {
                assert(all[i] == kept[i]);
            } else {
                assert(all[i] == mailboxes[last]);
            }
        }
        assert forall|i: int, j: int| 0 <= i < j < all.len() implies (#[trigger] all[i]).id != (
        #[trigger] all[j]).id by {
            assert(all[i] == kept[i]);
            if j < kept.len() {
                assert(all[j] == kept[j]);
            } else {
                assert(all[j] == mailboxes[last]);
            }
        }
    }
}

proof fn lemma_read_bounded(mailboxes: Seq<MailboxView>, id: u64)
    ensures
        read_from(mailboxes, id).len() == mailboxes.len(),
        forall|i: int|
            0 <= i < mailboxes.len() ==> (#[trigger] read_from(mailboxes, id)[i]).id
                == mailboxes[i].id && read_from(mailboxes, id)[i].queue.len()
                <= mailboxes[i].queue.len(),
    decreases mailboxes.len(),
{
    if mailboxes.len() > 0 {
        let rest = mailboxes.drop_first();
        lemma_read_bounded(rest, id);
        assert forall|i: int| 0 <= i < mailboxes.len() implies (#[trigger] read_from(
            mailboxes,
            id,
        )[i]).id == mailboxes[i].id && read_from(mailboxes, id)[i].queue.len()
            <= mailboxes[i].queue.len() by {
            if i > 0 {
                assert(rest[i - 1] == mailboxes[i]);
                assert(read_from(rest, id)[i - 1].id == rest[i - 1].id);
            }
        }
    }
}

/// A hub begins within its bounds, and every operation keeps them: no mailbox holds more messages
/// than it has slots, no history more updates than are retained, and no identity is given twice.
pub proof fn law_every_operation_keeps_the_bounds(
    hub: HubView,
    id: u64,
    error: IrisErrorView,
    snapshot: Seq<u64>,
    update_id: i64,
    message: Option<WholeMessage>,
    decoded: Option<TelegramMessage>,
)
    requires
        bounded(hub),
    ensures
        bounded(fresh_hub(hub.settings)),
        hub.next_id < u64::MAX ==> bounded(subscribed(hub)),
        bounded(disconnected(hub, id)),
        bounded(shut_down(hub)),
        bounded(terminated_all(hub, error)),
        bounded(polling(hub)),
        bounded(accepted(hub, snapshot, update_id, message, decoded)),
        bounded(HubView { mailboxes: read_from(hub.mailboxes, id), ..hub }),
{
    lemma_connected_bounded(hub.mailboxes, hub.next_id);
    lemma_read_bounded(hub.mailboxes, id);
    let read = read_from(hub.mailboxes, id);
    assert forall|i: int, j: int| 0 <= i < j < read.len() implies (#[trigger] read[i]).id != (
    #[trigger] read[j]).id by {
        assert(read[i].id == hub.mailboxes[i].id && read[j].id == hub.mailboxes[j].id);
    }
    if let Some(message) = message {
        let out = fanned_out(hub.mailboxes, snapshot, message);
        assert forall|i: int| 0 <= i < out.len() implies (#[trigger] out[i]).id
            == hub.mailboxes[i].id && out[i].queue.len() <= SUBSCRIBER_QUEUE_CAPACITY by {
            assert(hub.mailboxes[i].queue.len() <= SUBSCRIBER_QUEUE_CAPACITY);
        }
        assert forall|i: int, j: int| 0 <= i < j < out.len() implies (#[trigger] out[i]).id != (
        #[trigger] out[j]).id by {
            assert(hub.mailboxes[i].id != hub.mailboxes[j].id);
        }
    }
    assert forall|i: int, j: int|
        0 <= i < j < terminated_all(hub, error).mailboxes.len() implies (#[trigger] terminated_all(
        hub,
        error,
    ).mailboxes[i]).id != (#[trigger] terminated_all(hub, error).mailboxes[j]).id by {
        assert(hub.mailboxes[i].id != hub.mailboxes[j].id);
    }
    assert forall|i: int, j: int|
        0 <= i < j < disconnected(hub, id).mailboxes.len() implies (#[trigger] disconnected(
        hub,
        id,
    ).mailboxes[i]).id != (#[trigger] disconnected(hub, id).mailboxes[j]).id by {
        assert(hub.mailboxes[i].id != hub.mailboxes[j].id);
    }
    assert forall|i: int, j: int|
        0 <= i < j < shut_down(hub).mailboxes.len() implies (#[trigger] shut_down(
        hub,
    ).mailboxes[i]).id != (#[trigger] shut_down(hub).mailboxes[j]).id by {
        assert(hub.mailboxes[i].id != hub.mailboxes[j].id);
    }
}

/// The cursor moves only behind an audited update: whatever else happens, it stays.
pub proof fn law_only_audited_updates_move_the_cursor(
    hub: HubView,
    id: u64,
    attempt: u32,
    error: IrisErrorView,
    result: Result<(), ProcessError>,
)
    ensures
        subscribed(hub).cursor == hub.cursor,
        disconnected(hub, id).cursor == hub.cursor,
        shut_down(hub).cursor == hub.cursor,
        terminated_all(hub, error).cursor == hub.cursor,
        polling(hub).cursor == hub.cursor,
        poll_failed(hub, attempt, error).hub.cursor == hub.cursor,
        processed(hub, attempt, result).hub.cursor == hub.cursor,
{
}

/// One slow subscriber does not disturb the others: a message reaches every subscriber of the
/// snapshot that reads and has room, and nobody outside the snapshot.
pub proof fn law_fan_out_disturbs_nobody(
    mailboxes: Seq<MailboxView>,
    snapshot: Seq<u64>,
    message: WholeMessage,
    i: int,
)
    requires
        0 <= i < mailboxes.len(),
    ensures
        fanned_out(mailboxes, snapshot, message).len() == mailboxes.len(),
        snapshot.contains(mailboxes[i].id) && mailboxes[i].connected && mailboxes[i].queue.len()
            < SUBSCRIBER_QUEUE_CAPACITY ==> fanned_out(mailboxes, snapshot, message)[i] == (
        MailboxView { queue: mailboxes[i].queue.push(message), ..mailboxes[i] }),
        snapshot.contains(mailboxes[i].id) && mailboxes[i].connected && mailboxes[i].queue.len()
            >= SUBSCRIBER_QUEUE_CAPACITY && mailboxes[i].terminal is None ==> fanned_out(
            mailboxes,
            snapshot,
            message,
        )[i] == (MailboxView {
            terminal: Some(IrisErrorView::SlowConsumer),
            registered: false,
            ..mailboxes[i]
        }),
        !snapshot.contains(mailboxes[i].id) ==> fanned_out(mailboxes, snapshot, message)[i]
            == mailboxes[i],
{
}

proof fn lemma_none_registered(mailboxes: Seq<MailboxView>)
    requires
        forall|i: int| 0 <= i < mailboxes.len() ==> !(#[trigger] mailboxes[i]).registered,
    ensures
        registered_ids(mailboxes).len() == 0,
    decreases mailboxes.len(),
{
    if mailboxes.len() > 0 {
        let front = mailboxes.drop_last();
        assert forall|i: int| 0 <= i < front.len() implies !(#[trigger] front[i]).registered by {
            assert(front[i] == mailboxes[i]);
        }
        assert(!mailboxes[mailboxes.len() - 1].registered);
        lemma_none_registered(front);
    }
}

/// A terminal error reaches every current subscriber, none of which stays registered, and the
/// poller stops.
pub proof fn law_terminal_errors_reach_everybody(hub: HubView, error: IrisErrorView)
    ensures
        registered_ids(terminated_all(hub, error).mailboxes).len() == 0,
        forall|i: int|
            0 <= i < hub.mailboxes.len() && (#[trigger] hub.mailboxes[i]).registered ==> ({
                let after = terminated_all(hub, error).mailboxes[i];
                &&& after.terminal is Some
                &&& hub.mailboxes[i].terminal is None ==> after.terminal == Some(error)
                &&& after.queue == hub.mailboxes[i].queue
            }),
        must_stop(pruned(terminated_all(hub, error))),
{
    let after = terminated_all(hub, error).mailboxes;
    assert forall|i: int| 0 <= i < after.len() implies !(#[trigger] after[i]).registered by {}
    lemma_none_registered(after);
}

/// A mailbox behind so many reads.
pub open spec fn after_reads(mailbox: MailboxView, n: nat) -> MailboxView
    decreases n,
{
    if n == 0 {
        mailbox
    } else {
        after_read(after_reads(mailbox, (n - 1) as nat))
    }
}

proof fn lemma_after_reads(mailbox: MailboxView, n: nat)
    requires
        n <= mailbox.queue.len(),
    ensures
        after_reads(mailbox, n) == (MailboxView { queue: mailbox.queue.skip(n as int), ..mailbox }),
    decreases n,
{
    if n == 0 {
        assert(mailbox.queue.skip(0) =~= mailbox.queue);
    } else {
        lemma_after_reads(mailbox, (n - 1) as nat);
        assert(mailbox.queue.skip(n - 1).drop_first() =~= mailbox.queue.skip(n as int));
    }
}

/// A stream yields what was queued in order, then the terminal error, and then ends.
pub proof fn law_streams_drain_before_they_end(mailbox: MailboxView, n: nat)
    requires
        !mailbox.registered,
        mailbox.terminal is Some,
    ensures
        n < mailbox.queue.len() ==> yielded(after_reads(mailbox, n)) == StreamItemView::Item(
            Ok(mailbox.queue[n as int]),
        ),
        n == mailbox.queue.len() ==> yielded(after_reads(mailbox, n)) == StreamItemView::Item(
            Err(mailbox.terminal->0),
        ),
        n > mailbox.queue.len() ==> yielded(after_reads(mailbox, n)) == StreamItemView::End,
    decreases n,
{
    let len = mailbox.queue.len();
    if n <= len {
        lemma_after_reads(mailbox, n);
    } else if n == len + 1 {
        lemma_after_reads(mailbox, len);
    } else {
        lemma_ended(mailbox, (n - 1) as nat);
    }
}

proof fn lemma_ended(mailbox: MailboxView, n: nat)
    requires
        !mailbox.registered,
        n > mailbox.queue.len(),
    ensures
        after_reads(mailbox, n).queue.len() == 0,
        after_reads(mailbox, n).terminal is None,
        !after_reads(mailbox, n).registered,
    decreases n,
{
    if n == mailbox.queue.len() + 1 {
        lemma_after_reads(mailbox, mailbox.queue.len());
    } else {
        lemma_ended(mailbox, (n - 1) as nat);
    }
}

/// The history behind so many accepted updates.
pub open spec fn history_of(updates: Seq<TelegramUpdate>) -> Seq<TelegramUpdate>
    decreases updates.len(),
{
    if updates.len() == 0 {
        seq![]
    } else {
        retained(history_of(updates.drop_last()), updates.last())
    }
}

/// The history holds the latest updates in order, all of them until the capacity is reached.
pub proof fn law_history_holds_the_latest_updates(updates: Seq<TelegramUpdate>)
    ensures
        updates.len() <= HISTORY_CAPACITY ==> history_of(updates) == updates,
        updates.len() > HISTORY_CAPACITY ==> history_of(updates) == updates.skip(
            updates.len() - HISTORY_CAPACITY,
        ),
    decreases updates.len(),
{
    if updates.len() > 0 {
        let front = updates.drop_last();
        law_history_holds_the_latest_updates(front);
        assert(front.push(updates.last()) =~= updates);
        if updates.len() == HISTORY_CAPACITY + 1 {
            assert(front.drop_first().push(updates.last()) =~= updates.skip(1));
        } else if updates.len() > HISTORY_CAPACITY {
            assert(front.skip(front.len() - HISTORY_CAPACITY).drop_first().push(updates.last())
                =~= updates.skip(updates.len() - HISTORY_CAPACITY));
        }
    } else {
        assert(history_of(updates) =~= updates);
    }
}

/// Retries stay within the budget: as many waits as the budget allows, none longer than a second,
/// then the end of every subscription.
pub proof fn law_retries_stop_at_the_budget(hub: HubView, attempt: u32, last_error: Seq<char>)
    ensures
        attempt < hub.settings.retry_budget ==> {
            let after = retried(hub, attempt, last_error);
            &&& after.next matches PollerNext::Sleep(delay) && delay <= 1000
            &&& after.attempt == attempt + 1
            &&& after.hub == hub
        },
        attempt >= hub.settings.retry_budget ==> {
            let after = retried(hub, attempt, last_error);
            &&& after.next == PollerNext::Stop
            &&& after.hub.terminated == Some(
                IrisErrorView::RealtimeRetryExhausted {
                    attempts: hub.settings.retry_budget,
                    last_error,
                },
            )
        },
{
}

/// The audit of a message is content-free: messages that differ in body, metadata and URLs alone
/// are audited alike.
pub proof fn law_message_audit_is_content_free(
    key: Seq<char>,
    at: Timestamp,
    a: MessageView,
    b: MessageView,
)
    requires
        a.id == b.id,
        a.thread_id == b.thread_id,
        a.source_id == b.source_id,
        a.kind == b.kind,
        a.attachments.len() == b.attachments.len(),
        forall|i: int|
            0 <= i < a.attachments.len() ==> (#[trigger] a.attachments[i]).mime_type
                == b.attachments[i].mime_type && a.attachments[i].filename
                == b.attachments[i].filename && a.attachments[i].size == b.attachments[i].size,
    ensures
        message_audit(key, a, at) == message_audit(key, b, at),
{
    assert(summaries(a.attachments) =~= summaries(b.attachments));
}

/// Settings are usable where they allow one retry and one second at least; realtime needs a place
/// to record, too.
pub proof fn law_usable_settings_allow_a_retry(settings: RealtimeSettings, has_audit: bool)
    ensures
        settings.checked() is Ok <==> settings.retry_budget >= 1
            && settings.long_poll_timeout_seconds >= 1,
        ready(has_audit, Some(settings)) is Ok <==> has_audit && settings.retry_budget >= 1
            && settings.long_poll_timeout_seconds >= 1,
        ready(has_audit, None) is Ok <==> has_audit,
        ready(false, Some(settings)) == Err::<(), IrisErrorView>(
            IrisErrorView::RealtimeUnavailable {
                provider: "telegram"@,
                code: "audit sink required for realtime ingress"@,
            },
        ),
{
}

/// The pause before a retry doubles from a quarter of a second up to a second.
pub proof fn law_pauses_double_up_to_a_second(attempt: u32)
    ensures
        delay_of(0) == 250,
        delay_of(attempt) <= 1000,
        attempt < u32::MAX ==> delay_of((attempt + 1) as u32) == (if 2 * delay_of(attempt) <= 1000 {
            2 * delay_of(attempt)
        } else {
            1000
        }),
{
}

/// Errors of the transport and of the format are retried; any other ends all streams with it. Once
/// the hub is cancelled an error changes nothing.
pub proof fn law_only_passing_errors_are_retried(hub: HubView, attempt: u32, error: IrisErrorView)
    ensures
        hub.cancelled ==> poll_failed(hub, attempt, error).hub == hub && poll_failed(
            hub,
            attempt,
            error,
        ).next == PollerNext::Stop,
        !hub.cancelled && (error is Transport || error is Serialization) && attempt
            < hub.settings.retry_budget ==> poll_failed(hub, attempt, error).hub == hub
            && poll_failed(hub, attempt, error).attempt == attempt + 1 && (poll_failed(
            hub,
            attempt,
            error,
        ).next is Sleep),
        !hub.cancelled && !(error is Transport) && !(error is Serialization) ==> poll_failed(
            hub,
            attempt,
            error,
        ).next == PollerNext::Stop && poll_failed(hub, attempt, error).hub.terminated == Some(
            error,
        ),
        !hub.cancelled && attempt >= hub.settings.retry_budget ==> poll_failed(
            hub,
            attempt,
            error,
        ).next == PollerNext::Stop && poll_failed(hub, attempt, error).hub.terminated is Some,
        error matches IrisErrorView::Transport(message) ==> poll_failed(hub, attempt, error) == (
        if hub.cancelled {
            PollerView { hub, attempt, next: PollerNext::Stop }
        } else {
            retried(hub, attempt, message)
        }),
{
}

/// A batch that was worked off starts the count of retries anew; one that failed for good ends all
/// streams; one that failed in passing is retried.
pub proof fn law_success_starts_the_count_anew(hub: HubView, attempt: u32, error: IrisError)
    ensures
        processed(hub, attempt, Ok(())) == (PollerView { hub, attempt: 0, next: PollerNext::Poll }),
        processed(hub, attempt, Err(ProcessError::Terminal(error))) == (PollerView {
            hub: terminated_all(hub, error@),
            attempt,
            next: PollerNext::Stop,
        }),
        processed(hub, attempt, Err(ProcessError::Transient(error))) == retried(
            hub,
            attempt,
            error@.message(),
        ),
{
}

/// The status of an answer tells whether to go on, to try again, or to stop: 409 and refusals stop,
/// 429 and the server's own errors are tried again.
pub proof fn law_statuses_tell_how_to_go_on(status: u16, text: Seq<char>)
    ensures
        status_checked(status, text) is Ok <==> status / 100 == 2,
        status_checked(status, text) == Err::<(), IrisErrorView>(
            IrisErrorView::Transport("telegram getUpdates transient HTTP "@ + text),
        ) <==> status == 429 || status / 100 == 5,
        status == 409 ==> status_checked(status, text) == Err::<(), IrisErrorView>(
            IrisErrorView::Provider {
                provider: "telegram"@,
                message: "telegram getUpdates conflict (HTTP 409)"@,
            },
        ),
        status / 100 != 2 && status / 100 != 5 && status != 429 && status != 409 ==> status_checked(
            status,
            text,
        ) == Err::<(), IrisErrorView>(
            IrisErrorView::Provider {
                provider: "telegram"@,
                message: "telegram getUpdates terminal HTTP "@ + text,
            },
        ),
{
}

/// A subscriber joins behind the others with an empty mailbox of its own, and the hub runs.
pub proof fn law_subscribers_join_behind_the_others(hub: HubView)
    requires
        hub.next_id < u64::MAX,
    ensures
        ({
            let after = subscribed(hub);
            let joined = after.mailboxes.last();
            &&& after.mailboxes.len() == hub.mailboxes.len() + 1
            &&& after.mailboxes.drop_last() == hub.mailboxes
            &&& joined.id == hub.next_id
            &&& joined.queue.len() == 0
            &&& joined.terminal is None
            &&& joined.registered && joined.connected
            &&& after.next_id == hub.next_id + 1
            &&& after.terminated is None && after.running && !after.cancelled
            &&& after.history == hub.history && after.settings == hub.settings
        }),
{
    assert(subscribed(hub).mailboxes.drop_last() =~= hub.mailboxes);
}

/// Leaving changes the mailbox of the one who leaves alone, and that one only by marking it.
pub proof fn law_leaving_disturbs_nobody(hub: HubView, id: u64, i: int)
    requires
        0 <= i < hub.mailboxes.len(),
    ensures
        disconnected(hub, id).mailboxes.len() == hub.mailboxes.len(),
        hub.mailboxes[i].id != id ==> disconnected(hub, id).mailboxes[i] == hub.mailboxes[i],
        hub.mailboxes[i].id == id ==> {
            let after = disconnected(hub, id).mailboxes[i];
            &&& !after.connected
            &&& after.id == id && after.queue == hub.mailboxes[i].queue
            &&& after.terminal == hub.mailboxes[i].terminal
            &&& after.registered == hub.mailboxes[i].registered
        },
        disconnected(hub, id).running == hub.running,
        disconnected(hub, id).history == hub.history,
{
}

/// Shutting down stops the hub and ends every stream behind what it still holds, without an error.
pub proof fn law_shutting_down_ends_every_stream(hub: HubView, i: int)
    requires
        0 <= i < hub.mailboxes.len(),
    ensures
        !shut_down(hub).running,
        shut_down(hub).cancelled,
        must_stop(pruned(shut_down(hub))),
        !shut_down(hub).mailboxes[i].registered,
        shut_down(hub).mailboxes[i].queue == hub.mailboxes[i].queue,
        shut_down(hub).mailboxes[i].terminal == hub.mailboxes[i].terminal,
{
}

/// Before it polls, the hub forgets those who left, in their order, and stops where it is cancelled
/// or terminated or nobody is left who listens.
pub proof fn law_nobody_is_polled_for_in_vain(hub: HubView)
    ensures
        polling(hub).mailboxes == hub.mailboxes.filter(|mailbox: MailboxView| mailbox.connected),
        must_stop(pruned(hub)) <==> hub.cancelled || hub.terminated is Some || forall|i: int|
            0 <= i < hub.mailboxes.len() ==> !((#[trigger] hub.mailboxes[i]).connected
                && hub.mailboxes[i].registered),
        !must_stop(pruned(hub)) ==> polling(hub).running == hub.running,
        must_stop(pruned(hub)) && hub.terminated is None ==> !polling(hub).running,
{
    lemma_still_connected_are_connected(hub.mailboxes);
    lemma_listeners(hub.mailboxes);
}

proof fn lemma_still_connected_are_connected(mailboxes: Seq<MailboxView>)
    ensures
        still_connected(mailboxes) == mailboxes.filter(|mailbox: MailboxView| mailbox.connected),
    decreases mailboxes.len(),
{
    reveal(Seq::filter);
    if mailboxes.len() > 0 {
        lemma_still_connected_are_connected(mailboxes.drop_last());
    }
}

proof fn lemma_listeners(mailboxes: Seq<MailboxView>)
    ensures
        registered_ids(still_connected(mailboxes)).len() == 0 <==> forall|i: int|
            0 <= i < mailboxes.len() ==> !((#[trigger] mailboxes[i]).connected
                && mailboxes[i].registered),
    decreases mailboxes.len(),
{
    if mailboxes.len() > 0 {
        let front = mailboxes.drop_last();
        let n = mailboxes.len() - 1;
        lemma_listeners(front);
        let kept = still_connected(mailboxes);
        if mailboxes.last().connected {
            assert(kept.drop_last() =~= still_connected(front));
            assert(kept.last() == mailboxes.last());
        }
        assert(mailboxes[n] == mailboxes.last());
        if registered_ids(kept).len() == 0 {
            assert forall|i: int| 0 <= i < mailboxes.len() implies !((
            #[trigger] mailboxes[i]).connected && mailboxes[i].registered) by {
                if i < n {
                    assert(front[i] == mailboxes[i]);
                }
            }
        }
        if forall|i: int|
            0 <= i < mailboxes.len() ==> !((#[trigger] mailboxes[i]).connected
                && mailboxes[i].registered) {
            assert forall|i: int| 0 <= i < front.len() implies !((#[trigger] front[i]).connected
                && front[i].registered) by {
                assert(mailboxes[i] == front[i]);
            }
        }
    }
}

/// The IDs of the subscribers are those of the mailboxes that are registered, in their order.
pub proof fn law_subscribers_are_registered(mailboxes: Seq<MailboxView>)
    ensures
        registered_ids(mailboxes) == mailboxes.filter(
            |mailbox: MailboxView| mailbox.registered,
        ).map_values(|mailbox: MailboxView| mailbox.id),
    decreases mailboxes.len(),
{
    reveal(Seq::filter);
    let ok = |mailbox: MailboxView| mailbox.registered;
    let f = |mailbox: MailboxView| mailbox.id;
    if mailboxes.len() > 0 {
        law_subscribers_are_registered(mailboxes.drop_last());
        if ok(mailboxes.last()) {
            assert(mailboxes.filter(ok).map_values(f) =~= mailboxes.drop_last().filter(
                ok,
            ).map_values(f).push(f(mailboxes.last())));
        }
    } else {
        assert(mailboxes.filter(ok).map_values(f) =~= seq![]);
    }
}

/// An accepted update moves the cursor behind it, hands its message to those in the snapshot, and
/// is remembered as the latest where it was decoded.
pub proof fn law_accepted_updates_are_handed_on(
    hub: HubView,
    snapshot: Seq<u64>,
    update_id: i64,
    message: WholeMessage,
    decoded: TelegramMessage,
)
    requires
        update_id < i64::MAX,
    ensures
        ({
            let after = accepted(hub, snapshot, update_id, Some(message), Some(decoded));
            &&& after.cursor == update_id + 1
            &&& after.mailboxes == fanned_out(hub.mailboxes, snapshot, message)
            &&& after.history.len() > 0
            &&& after.history.last() == (TelegramUpdate { update_id, message: Some(decoded) })
            &&& hub.history.len() < 512 ==> after.history.drop_last() == hub.history
            &&& hub.history.len() == 512 ==> after.history.drop_last() == hub.history.skip(1)
            &&& after.running == hub.running && after.terminated == hub.terminated
        }),
        accepted(hub, snapshot, update_id, None, None).cursor == update_id + 1,
        accepted(hub, snapshot, update_id, None, None).mailboxes == hub.mailboxes,
        accepted(hub, snapshot, update_id, None, None).history == hub.history,
{
    let after = accepted(hub, snapshot, update_id, Some(message), Some(decoded));
    if hub.history.len() < 512 {
        assert(after.history.drop_last() =~= hub.history);
    } else if hub.history.len() == 512 {
        assert(after.history.drop_last() =~= hub.history.skip(1));
    }
}

/// A mailbox takes a message behind those it holds, as long as it holds fewer than 128; one that is
/// full ends with its consumer being too slow, and keeps what it holds.
pub proof fn law_mailboxes_hold_a_bounded_number(mailbox: MailboxView, message: WholeMessage)
    ensures
        mailbox.connected && mailbox.queue.len() < 128 ==> delivered(mailbox, message).queue
            == mailbox.queue.push(message) && delivered(mailbox, message).terminal
            == mailbox.terminal && delivered(mailbox, message).registered == mailbox.registered,
        mailbox.connected && mailbox.queue.len() >= 128 ==> delivered(mailbox, message).queue
            == mailbox.queue && !delivered(mailbox, message).registered && (
        mailbox.terminal is None ==> delivered(mailbox, message).terminal == Some(
            IrisErrorView::SlowConsumer,
        )),
        !mailbox.connected ==> delivered(mailbox, message).queue == mailbox.queue && !delivered(
            mailbox,
            message,
        ).registered && delivered(mailbox, message).terminal == mailbox.terminal,
{
}

/// A reader takes the oldest message first; one who has read all waits while registered.
pub proof fn law_the_oldest_message_is_read_first(mailbox: MailboxView)
    ensures
        mailbox.queue.len() > 0 ==> yielded(mailbox) == StreamItemView::Item(Ok(mailbox.queue[0]))
            && after_read(mailbox).queue == mailbox.queue.skip(1) && after_read(mailbox).terminal
            == mailbox.terminal,
        mailbox.queue.len() == 0 && mailbox.terminal is None && mailbox.registered ==> yielded(
            mailbox,
        ) == StreamItemView::Pending,
        mailbox.queue.len() == 0 && mailbox.terminal is None && !mailbox.registered ==> yielded(
            mailbox,
        ) == StreamItemView::End,
        after_read(mailbox).registered == mailbox.registered,
        after_read(mailbox).connected == mailbox.connected,
        after_read(mailbox).id == mailbox.id,
{
    if mailbox.queue.len() > 0 {
        assert(mailbox.queue.drop_first() =~= mailbox.queue.skip(1));
    }
}

/// Reading takes from the reader's own mailbox and leaves the others as they are.
pub proof fn law_reading_disturbs_nobody(mailboxes: Seq<MailboxView>, id: u64, i: int)
    requires
        0 <= i < mailboxes.len(),
    ensures
        read_from(mailboxes, id).len() == mailboxes.len(),
        mailboxes[i].id != id ==> read_from(mailboxes, id)[i] == mailboxes[i],
        mailboxes[i].id == id && (forall|j: int| 0 <= j < i ==> (#[trigger] mailboxes[j]).id != id)
            ==> read_from(mailboxes, id)[i] == after_read(mailboxes[i]) && mailbox_of(mailboxes, id)
            == Some(mailboxes[i]),
    decreases mailboxes.len(),
{
    lemma_read_bounded(mailboxes, id);
    if i > 0 {
        let rest = mailboxes.drop_first();
        assert(rest[i - 1] == mailboxes[i]);
        law_reading_disturbs_nobody(rest, id, i - 1);
        assert forall|j: int| 0 <= j < rest.len() implies #[trigger] rest[j] == mailboxes[j + 1] by {}
        if mailboxes[0].id != id {
            assert(read_from(mailboxes, id)[i] == read_from(rest, id)[i - 1]);
        }
    }
}

/// An update is known by the whole number under `update_id`, and by nothing else.
pub proof fn law_updates_are_known_by_their_number(update: JsonView, id: i64)
    ensures
        update_id_of(update) == Some(id) <==> update.member("update_id"@) == Some(
            JsonView::Number(
                if id >= 0 {
                    JsonNumberView::Unsigned(id as u64)
                } else {
                    JsonNumberView::Negative(id)
                },
            ),
        ) || update.member("update_id"@) == Some(JsonView::Number(JsonNumberView::Negative(id))),
        update_id_of(update) == Some(id) ==> update_key(update) == decimal(id as int),
{
}

/// A long poll asks for what lies at the cursor and behind, for so many seconds; before anything
/// was seen it names no cursor.
pub proof fn law_polls_ask_behind_the_cursor(offset: i64, timeout: u32)
    ensures
        offset > 0 ==> realtime_query_of(offset, timeout) == seq![
            ("offset"@, decimal(offset as int)),
            ("timeout"@, decimal(timeout as int)),
        ],
        offset <= 0 ==> realtime_query_of(offset, timeout) == seq![
            ("timeout"@, decimal(timeout as int)),
        ],
{
    if offset > 0 {
        assert(realtime_query_of(offset, timeout) =~= seq![
            ("offset"@, decimal(offset as int)),
            ("timeout"@, decimal(timeout as int)),
        ]);
    } else {
        assert(realtime_query_of(offset, timeout) =~= seq![
            ("timeout"@, decimal(timeout as int)),
        ]);
    }
}

/// An update without a message is ignored, one whose message cannot be decoded is invalid, and any
/// other is its message; each is recorded as what it is.
pub proof fn law_updates_are_recorded_as_what_they_are(
    update: JsonView,
    decoded: Option<WholeMessage>,
    at: Timestamp,
)
    ensures
        update.member("message"@) is None ==> (classified(update, decoded, at)
            matches ClassifiedView::Ignored(audit) && audit.event_kind
            == RealtimeEventKind::IgnoredUpdate && audit.update_id == update_key(update)
            && audit.timestamp == at && audit.message_id is None),
        update.member("message"@) is Some && decoded is None ==> (classified(update, decoded, at)
            matches ClassifiedView::Invalid(audit) && audit.event_kind
            == RealtimeEventKind::InvalidUpdate && audit.update_id == update_key(update)
            && audit.timestamp == at && audit.message_id is None),
        update.member("message"@) is Some && decoded is Some ==> (classified(update, decoded, at)
            matches ClassifiedView::Message(whole, audit) && Some(whole) == decoded
            && audit.event_kind == RealtimeEventKind::Message && audit.update_id == update_key(
            update,
        ) && audit.timestamp == at && audit.source_id == Some(whole.message.source_id)
            && audit.thread_id == Some(uuid_text(whole.message.thread_id.value))
            && audit.message_id == Some(uuid_text(whole.message.id.value)) && audit.message_kind
            == Some(whole.message.kind) && audit.attachments.len()
            == whole.message.attachments.len() && forall|i: int|
            0 <= i < audit.attachments.len() ==> (#[trigger] audit.attachments[i]).mime_type
                == whole.message.attachments[i].mime_type && audit.attachments[i].name
                == whole.message.attachments[i].filename && audit.attachments[i].byte_count
                == whole.message.attachments[i].size),
{
}

/// An update is recorded as a normalization under its number.
pub proof fn law_updates_are_recorded_under_their_number(
    update_id: i64,
    metadata: RealtimeAuditView,
    now: Timestamp,
)
    ensures
        update_event_of(update_id, metadata, now).action == AuditAction::Normalize,
        update_event_of(update_id, metadata, now).provider == "telegram"@,
        update_event_of(update_id, metadata, now).source_id == Some(decimal(update_id as int)),
        update_event_of(update_id, metadata, now).timestamp == now,
        update_event_of(update_id, metadata, now).metadata == audit_metadata_view(metadata),
{
}

} // verus!
