//! Listings over several providers: their order, their cursors and their limits.

use vstd::prelude::*;
use crate::error::prefixed;
use crate::ids::{uuid_parsed, uuid_text, Uuid};
use crate::listing::first_items;
use crate::model::{Contact, ContactView, Message, MessageView, Thread, ThreadView};
use crate::order::{
    in_order, is_text_before, lemma_sorted_by, lemma_sorted_map, lemma_texts_ordered, precedence,
    sorted_by, stable_sort, strict_weak_order, text_before, viewed, Precedes,
};
use crate::text::{
    lemma_first_index, lemma_first_index_unique, split_char, split_on, str_eq, view_list,
    view_result, views,
};
use crate::time::{
    law_earlier_points_come_first, lemma_timestamp_whole, rfc3339_offset, rfc3339_parsed, Timestamp,
    FOUR_DIGIT_MAX,
    FOUR_DIGIT_MIN,
};

verus! {

/// Whether a thread is listed before another: the later message first, then by source, then by
/// identifier.
pub open spec fn thread_before(x: ThreadView, y: ThreadView) -> bool {
    y.last_message_at.earlier(x.last_message_at) || (x.last_message_at == y.last_message_at && (
    text_before(x.source, y.source) || (x.source == y.source && x.id.value < y.id.value)))
}

/// The order in which threads are listed.
pub open spec fn thread_order() -> spec_fn(ThreadView, ThreadView) -> bool {
    |x: ThreadView, y: ThreadView| thread_before(x, y)
}

/// The order of optional texts: none first.
pub open spec fn opt_text_before(x: Option<Seq<char>>, y: Option<Seq<char>>) -> bool {
    match (x, y) {
        (None, Some(_)) => true,
        (Some(a), Some(b)) => text_before(a, b),
        _ => false,
    }
}

/// Whether a contact is listed before another: by name, source, source identifier and identifier.
pub open spec fn contact_before(x: ContactView, y: ContactView) -> bool {
    opt_text_before(x.display_name, y.display_name) || (x.display_name == y.display_name && (
    text_before(x.source, y.source) || (x.source == y.source && (text_before(
        x.source_id,
        y.source_id,
    ) || (x.source_id == y.source_id && x.id.value < y.id.value)))))
}

/// The order in which contacts are listed.
pub open spec fn contact_order() -> spec_fn(ContactView, ContactView) -> bool {
    |x: ContactView, y: ContactView| contact_before(x, y)
}

/// Whether a message is listed before another: the earlier one first, then by identifier.
pub open spec fn message_before(x: MessageView, y: MessageView) -> bool {
    x.timestamp.earlier(y.timestamp) || (x.timestamp == y.timestamp && x.id.value < y.id.value)
}

/// The order in which messages are listed.
pub open spec fn message_order() -> spec_fn(MessageView, MessageView) -> bool {
    |x: MessageView, y: MessageView| message_before(x, y)
}

struct ListedThread {
    thread: Thread,
}

impl Precedes for ListedThread {
    closed spec fn before(self, other: ListedThread) -> bool {
        thread_before(self.thread@, other.thread@)
    }

    fn is_before(&self, other: &ListedThread) -> (r: bool) {
        let x = &self.thread;
        let y = &other.thread;
        y.last_message_at.is_earlier(&x.last_message_at) || (x.last_message_at.same_as(
            &y.last_message_at,
        ) && (is_text_before(x.source.as_str(), y.source.as_str()) || (str_eq(
            x.source.as_str(),
            y.source.as_str(),
        ) && x.id.value < y.id.value)))
    }
}

fn is_opt_before(x: &Option<String>, y: &Option<String>) -> (r: bool)
    ensures
        r == opt_text_before(crate::text::view_opt(*x), crate::text::view_opt(*y)),
{
    match (x, y) {
        (None, Some(_)) => true,
        (Some(a), Some(b)) => is_text_before(a.as_str(), b.as_str()),
        _ => false,
    }
}

fn same_opt(x: &Option<String>, y: &Option<String>) -> (r: bool)
    ensures
        r == (crate::text::view_opt(*x) == crate::text::view_opt(*y)),
{
    match (x, y) {
        (None, None) => true,
        (Some(a), Some(b)) => str_eq(a.as_str(), b.as_str()),
        _ => false,
    }
}

struct ListedContact {
    contact: Contact,
}

impl Precedes for ListedContact {
    closed spec fn before(self, other: ListedContact) -> bool {
        contact_before(self.contact@, other.contact@)
    }

    fn is_before(&self, other: &ListedContact) -> (r: bool) {
        let x = &self.contact;
        let y = &other.contact;
        is_opt_before(&x.display_name, &y.display_name) || (same_opt(
            &x.display_name,
            &y.display_name,
        ) && (is_text_before(x.source.as_str(), y.source.as_str()) || (str_eq(
            x.source.as_str(),
            y.source.as_str(),
        ) && (is_text_before(x.source_id.as_str(), y.source_id.as_str()) || (str_eq(
            x.source_id.as_str(),
            y.source_id.as_str(),
        ) && x.id.value < y.id.value)))))
    }
}

struct ListedMessage {
    message: Message,
}

impl Precedes for ListedMessage {
    closed spec fn before(self, other: ListedMessage) -> bool {
        message_before(self.message@, other.message@)
    }

    fn is_before(&self, other: &ListedMessage) -> (r: bool) {
        let x = &self.message;
        let y = &other.message;
        x.timestamp.is_earlier(&y.timestamp) || (x.timestamp.same_as(&y.timestamp) && x.id.value
            < y.id.value)
    }
}

/// Sorts threads into the order in which they are listed.
pub fn sort_threads(threads: Vec<Thread>) -> (r: Vec<Thread>)
    ensures
        views(r@) == sorted_by(views(threads@), thread_order()),
{
    let ghost all = threads@;
    let mut wrapped: Vec<ListedThread> = Vec::new();
    for thread in it: threads
        invariant
            it.seq() == all,
            wrapped@.len() == it.index(),
            forall|j: int| 0 <= j < it.index() ==> (#[trigger] wrapped@[j]).thread == all[j],
    {
        wrapped.push(ListedThread { thread });
    }
    let ghost f = |w: ListedThread| w.thread@;
    let ghost given = wrapped@;
    let sorted = stable_sort(wrapped);
    proof {
        assert(given.map_values(f) =~= views(all));
        lemma_sorted_by(given, precedence::<ListedThread>());
        assert forall|x: ListedThread, y: ListedThread| #[trigger]
            precedence::<ListedThread>()(x, y) == thread_order()(f(x), f(y)) by {}
        lemma_sorted_map(given, f, precedence::<ListedThread>(), thread_order());
    }
    let ghost order = sorted@;
    let mut out: Vec<Thread> = Vec::new();
    for item in it: sorted
        invariant
            it.seq() == order,
            out@.len() == it.index(),
            forall|j: int| 0 <= j < it.index() ==> (#[trigger] out@[j]) == order[j].thread,
    {
        out.push(item.thread);
    }
    assert(views(out@) =~= order.map_values(f));
    out
}

/// Sorts contacts into the order in which they are listed.
pub fn sort_contacts(contacts: Vec<Contact>) -> (r: Vec<Contact>)
    ensures
        views(r@) == sorted_by(views(contacts@), contact_order()),
{
    let ghost all = contacts@;
    let mut wrapped: Vec<ListedContact> = Vec::new();
    for contact in it: contacts
        invariant
            it.seq() == all,
            wrapped@.len() == it.index(),
            forall|j: int| 0 <= j < it.index() ==> (#[trigger] wrapped@[j]).contact == all[j],
    {
        wrapped.push(ListedContact { contact });
    }
    let ghost f = |w: ListedContact| w.contact@;
    let ghost given = wrapped@;
    let sorted = stable_sort(wrapped);
    proof {
        assert(given.map_values(f) =~= views(all));
        lemma_sorted_by(given, precedence::<ListedContact>());
        assert forall|x: ListedContact, y: ListedContact| #[trigger]
            precedence::<ListedContact>()(x, y) == contact_order()(f(x), f(y)) by {}
        lemma_sorted_map(given, f, precedence::<ListedContact>(), contact_order());
    }
    let ghost order = sorted@;
    let mut out: Vec<Contact> = Vec::new();
    for item in it: sorted
        invariant
            it.seq() == order,
            out@.len() == it.index(),
            forall|j: int| 0 <= j < it.index() ==> (#[trigger] out@[j]) == order[j].contact,
    {
        out.push(item.contact);
    }
    assert(views(out@) =~= order.map_values(f));
    out
}

/// Sorts messages into the order in which they are listed.
pub fn sort_messages(messages: Vec<Message>) -> (r: Vec<Message>)
    ensures
        r@ == sorted_by(messages@, viewed(message_order())),
        views(r@) == sorted_by(views(messages@), message_order()),
{
    let ghost all = messages@;
    let mut wrapped: Vec<ListedMessage> = Vec::new();
    for message in it: messages
        invariant
            it.seq() == all,
            wrapped@.len() == it.index(),
            forall|j: int| 0 <= j < it.index() ==> (#[trigger] wrapped@[j]).message == all[j],
    {
        wrapped.push(ListedMessage { message });
    }
    let ghost f = |w: ListedMessage| w.message@;
    let ghost g = |w: ListedMessage| w.message;
    let ghost given = wrapped@;
    let sorted = stable_sort(wrapped);
    proof {
        assert(given.map_values(f) =~= views(all));
        lemma_sorted_by(given, precedence::<ListedMessage>());
        assert forall|x: ListedMessage, y: ListedMessage| #[trigger]
            precedence::<ListedMessage>()(x, y) == message_order()(f(x), f(y)) by {}
        lemma_sorted_map(given, f, precedence::<ListedMessage>(), message_order());
        assert(given.map_values(g) =~= all);
        assert forall|x: ListedMessage, y: ListedMessage| #[trigger]
            precedence::<ListedMessage>()(x, y) == viewed::<Message>(message_order())(g(x), g(y)) by {}
        lemma_sorted_map(given, g, precedence::<ListedMessage>(), viewed(message_order()));
    }
    let ghost order = sorted@;
    let mut out: Vec<Message> = Vec::new();
    for item in it: sorted
        invariant
            it.seq() == order,
            out@.len() == it.index(),
            forall|j: int| 0 <= j < it.index() ==> (#[trigger] out@[j]) == order[j].message,
    {
        out.push(item.message);
    }
    assert(views(out@) =~= order.map_values(f));
    assert(out@ =~= order.map_values(g));
    out
}

/// The items that a limit allows; without one, all.
pub open spec fn limited<A>(items: Seq<A>, limit: Option<u32>) -> Seq<A> {
    match limit {
        Some(limit) => first_items(items, limit as nat),
        None => items,
    }
}

/// Keeps the items that a limit allows; without one, all.
pub fn truncate_limit<T>(items: Vec<T>, limit: Option<u32>) -> (r: Vec<T>)
    ensures
        r@ == limited(items@, limit),
{
    let mut out = items;
    if let Some(limit) = limit {
        out.truncate(limit as usize);
    }
    out
}

proof fn lemma_limited_views<T: View>(items: Seq<T>, limit: Option<u32>)
    ensures
        views(limited(items, limit)) == limited(views(items), limit),
{
    assert(views(limited(items, limit)) =~= limited(views(items), limit));
}

/// The limit that providers are asked for: behind a cursor everything is needed.
pub fn provider_limit(has_cursor: bool, limit: Option<u32>) -> (r: Option<u32>)
    ensures
        r == (if has_cursor {
            None
        } else {
            limit
        }),
{
    if has_cursor {
        None
    } else {
        limit
    }
}

/// Where a listing of threads goes on.
#[derive(Debug, PartialEq, Eq)]
pub enum ThreadCursor {
    /// With the threads whose last message is earlier.
    Before(Timestamp),
    /// Behind one thread.
    Behind { timestamp: Timestamp, source: String, id: Uuid },
}

/// The mathematical value of a cursor.
#[verifier::ext_equal]
pub enum CursorView {
    Before(Timestamp),
    Behind { timestamp: Timestamp, source: Seq<char>, id: Uuid },
}

impl View for ThreadCursor {
    type V = CursorView;

    open spec fn view(&self) -> CursorView {
        match *self {
            ThreadCursor::Before(timestamp) => CursorView::Before(timestamp),
            ThreadCursor::Behind { timestamp, source, id } => CursorView::Behind {
                timestamp,
                source: source@,
                id,
            },
        }
    }
}

/// The point in time of a parsed text.
pub open spec fn point(parsed: (i64, u32)) -> Timestamp {
    Timestamp::at(parsed.0, parsed.1)
}

/// The cursor that a text stands for: a time, or a time, a source and an identifier.
pub open spec fn parsed_cursor(text: Seq<char>) -> Result<CursorView, Seq<char>> {
    let parts = split_on(text, '|');
    if parts.len() == 1 {
        match rfc3339_parsed(parts[0]) {
            Ok(at) => Ok(CursorView::Before(point(at))),
            Err(error) => Err(error),
        }
    } else if parts.len() == 3 {
        match rfc3339_parsed(parts[0]) {
            Err(error) => Err(error),
            Ok(at) => match uuid_parsed(parts[2]) {
                Err(error) => Err(error),
                Ok(id) => Ok(
                    CursorView::Behind {
                        timestamp: point(at),
                        source: parts[1],
                        id: Uuid { value: id },
                    },
                ),
            },
        }
    } else {
        Err("thread cursor must be RFC3339 or '<RFC3339>|<source>|<uuid>'"@)
    }
}

/// The text of a cursor.
pub open spec fn cursor_text(cursor: CursorView) -> Seq<char> {
    match cursor {
        CursorView::Before(timestamp) => rfc3339_offset(timestamp.secs(), timestamp.nanos()),
        CursorView::Behind { timestamp, source, id } => rfc3339_offset(
            timestamp.secs(),
            timestamp.nanos(),
        ) + "|"@ + source + "|"@ + uuid_text(id.value),
    }
}

/// Whether the text of a cursor is sure to stand for the cursor: the year has four digits, the
/// time is in no leap second, and the source holds no separator.
pub open spec fn written_exactly(cursor: CursorView) -> bool {
    let at = match cursor {
        CursorView::Before(timestamp) => timestamp,
        CursorView::Behind { timestamp, .. } => timestamp,
    };
    &&& FOUR_DIGIT_MIN <= at.secs() <= FOUR_DIGIT_MAX
    &&& at.nanos() < 1_000_000_000
    &&& cursor matches CursorView::Behind { source, .. } ==> !source.contains('|')
}

proof fn lemma_split_head(head: Seq<char>, rest: Seq<char>)
    requires
        !head.contains('|'),
    ensures
        split_on(head + "|"@ + rest, '|') == seq![head] + split_on(rest, '|'),
{
    reveal_strlit("|");
    let s = head + "|"@ + rest;
    let k = head.len() as int;
    assert(s[k] == '|');
    assert forall|i: int| 0 <= i < k implies s[i] != '|' by {
        assert(s[i] == head[i]);
        assert(head.contains(head[i]));
    }
    lemma_first_index_unique(s, '|', k);
    assert(s.take(k) =~= head);
    assert(s.skip(k + 1) =~= rest);
}

proof fn lemma_split_none(s: Seq<char>)
    requires
        !s.contains('|'),
    ensures
        split_on(s, '|') == seq![s],
{
    lemma_first_index(s, '|');
}

/// Reads a cursor.
pub fn parse_thread_cursor(text: &str) -> (r: Result<ThreadCursor, String>)
    ensures
        view_result(r) == parsed_cursor(text@),
{
    let parts = split_char(text, '|');
    let ghost all = views(parts@);
    if parts.len() == 1 {
        assert(all[0] == parts@[0]@);
        match Timestamp::parse_rfc3339(parts[0].as_str()) {
            Ok(at) => {
                proof {
                    lemma_timestamp_whole(at);
                }
                Ok(ThreadCursor::Before(at))
            },
            Err(error) => Err(error),
        }
    } else if parts.len() == 3 {
        assert(all[0] == parts@[0]@ && all[1] == parts@[1]@ && all[2] == parts@[2]@);
        let timestamp = match Timestamp::parse_rfc3339(parts[0].as_str()) {
            Ok(at) => at,
            Err(error) => {
                return Err(error);
            },
        };
        proof {
            lemma_timestamp_whole(timestamp);
        }
        match Uuid::parse(parts[2].as_str()) {
            Ok(id) => Ok(ThreadCursor::Behind { timestamp, source: parts[1].clone(), id }),
            Err(error) => Err(error),
        }
    } else {
        Err("thread cursor must be RFC3339 or '<RFC3339>|<source>|<uuid>'".to_owned())
    }
}

impl ThreadCursor {
    /// The cursor behind a thread.
    pub fn behind(thread: &Thread) -> (r: ThreadCursor)
        ensures
            r@ == (CursorView::Behind {
                timestamp: thread@.last_message_at,
                source: thread@.source,
                id: thread@.id,
            }),
    {
        ThreadCursor::Behind {
            timestamp: thread.last_message_at,
            source: thread.source.clone(),
            id: thread.id,
        }
    }

    /// The text of the cursor, which stands for the cursor again.
    pub fn text(&self) -> (r: String)
        ensures
            r@ == cursor_text(self@),
            written_exactly(self@) ==> parsed_cursor(r@) == Ok::<CursorView, Seq<char>>(self@),
    {
        match self {
            ThreadCursor::Before(timestamp) => {
                let out = timestamp.rfc3339();
                proof {
                    lemma_split_none(out@);
                    lemma_timestamp_whole(*timestamp);
                }
                out
            },
            ThreadCursor::Behind { timestamp, source, id } => {
                let mut out = timestamp.rfc3339();
                let ghost head = out@;
                out.append("|");
                out.append(source.as_str());
                out.append("|");
                let tail = id.text();
                out.append(tail.as_str());
                proof {
                    lemma_timestamp_whole(*timestamp);
                    if !source@.contains('|') {
                        let rest = source@ + "|"@ + tail@;
                        assert(out@ =~= head + "|"@ + rest);
                        lemma_split_head(head, rest);
                        lemma_split_head(source@, tail@);
                        lemma_split_none(tail@);
                        assert(split_on(out@, '|') =~= seq![head, source@, tail@]);
                    }
                }
                out
            },
        }
    }
}

/// The threads whose last message is earlier.
pub open spec fn earlier_threads(threads: Seq<ThreadView>, at: Timestamp) -> Seq<ThreadView>
    decreases threads.len(),
{
    if threads.len() == 0 {
        threads
    } else {
        let front = earlier_threads(threads.drop_last(), at);
        if threads.last().last_message_at.earlier(at) {
            front.push(threads.last())
        } else {
            front
        }
    }
}

/// Whether a cursor names a thread.
pub open spec fn names(thread: ThreadView, timestamp: Timestamp, source: Seq<char>, id: Uuid) -> bool {
    thread.last_message_at == timestamp && thread.source == source && thread.id == id
}

/// Where the thread that a cursor names first stands: its index, or the length.
pub open spec fn place_of(
    threads: Seq<ThreadView>,
    timestamp: Timestamp,
    source: Seq<char>,
    id: Uuid,
) -> int
    decreases threads.len(),
{
    if threads.len() == 0 || names(threads[0], timestamp, source, id) {
        0
    } else {
        1 + place_of(threads.drop_first(), timestamp, source, id)
    }
}

/// The threads behind a cursor.
pub open spec fn threads_behind(threads: Seq<ThreadView>, cursor: CursorView) -> Result<
    Seq<ThreadView>,
    Seq<char>,
> {
    match cursor {
        CursorView::Before(at) => Ok(earlier_threads(threads, at)),
        CursorView::Behind { timestamp, source, id } => {
            let at = place_of(threads, timestamp, source, id);
            if at < threads.len() {
                Ok(threads.skip(at + 1))
            } else {
                Err("thread cursor not found: "@ + cursor_text(cursor))
            }
        },
    }
}

/// The items from an index on.
fn skip_items<T>(items: Vec<T>, n: usize) -> (r: Vec<T>)
    requires
        n <= items@.len(),
    ensures
        r@ == items@.skip(n as int),
{
    let mut items = items;
    let ghost all = items@;
    let rest = items.split_off(n);
    assert(rest@ =~= all.skip(n as int));
    rest
}

/// The threads behind a cursor.
pub fn threads_after_cursor(threads: Vec<Thread>, cursor: &ThreadCursor) -> (r: Result<
    Vec<Thread>,
    String,
>)
    ensures
        view_list(r) == threads_behind(views(threads@), cursor@),
{
    let ghost all = views(threads@);
    match cursor {
        ThreadCursor::Before(at) => {
            let mut out: Vec<Thread> = Vec::new();
            assert(all.take(0) =~= seq![]);
            assert(views(out@) =~= seq![]);
            for thread in it: threads
                invariant
                    it.seq() == threads@,
                    all == views(threads@),
                    views(out@) == earlier_threads(all.take(it.index()), *at),
            {
                let ghost known = views(out@);
                proof {
                    let next = all.take(it.index() + 1);
                    assert(next.drop_last() =~= all.take(it.index()));
                    assert(next.last() == thread@);
                }
                if thread.last_message_at.is_earlier(at) {
                    let ghost added = thread@;
                    out.push(thread);
                    assert(views(out@) =~= known.push(added));
                }
            }
            assert(all.take(all.len() as int) =~= all);
            Ok(out)
        },
        ThreadCursor::Behind { timestamp, source, id } => {
            let mut i: usize = 0;
            assert(all.skip(0) =~= all);
            while i < threads.len()
                invariant
                    i <= threads@.len(),
                    all == views(threads@),
                    place_of(all, *timestamp, source@, *id) == i + place_of(
                        all.skip(i as int),
                        *timestamp,
                        source@,
                        *id,
                    ),
                    cursor@ == (CursorView::Behind {
                        timestamp: *timestamp,
                        source: source@,
                        id: *id,
                    }),
                decreases threads@.len() - i,
            {
                assert(all.skip(i as int)[0] == threads@[i as int]@);
                if threads[i].last_message_at.same_as(timestamp) && str_eq(
                    threads[i].source.as_str(),
                    source.as_str(),
                ) && threads[i].id == *id {
                    let rest = skip_items(threads, i + 1);
                    assert(views(rest@) =~= all.skip(i + 1));
                    return Ok(rest);
                }
                assert(all.skip(i as int).drop_first() =~= all.skip(i + 1));
                i += 1;
            }
            Err(prefixed("thread cursor not found: ", cursor.text().as_str()))
        },
    }
}

/// The page of threads that a listing shows.
pub open spec fn thread_page(
    threads: Seq<ThreadView>,
    cursor: Option<CursorView>,
    limit: Option<u32>,
) -> Result<Seq<ThreadView>, Seq<char>> {
    let sorted = sorted_by(threads, thread_order());
    match cursor {
        None => Ok(limited(sorted, limit)),
        Some(cursor) => match threads_behind(sorted, cursor) {
            Ok(rest) => Ok(limited(rest, limit)),
            Err(error) => Err(error),
        },
    }
}

/// The page of threads that a listing shows: the threads of all providers in order, behind the
/// cursor if there is one, as many as the limit allows.
pub fn page_threads(threads: Vec<Thread>, cursor: Option<&ThreadCursor>, limit: Option<u32>) -> (r:
    Result<Vec<Thread>, String>)
    ensures
        view_list(r) == thread_page(
            views(threads@),
            match cursor {
                Some(cursor) => Some(cursor@),
                None => None,
            },
            limit,
        ),
{
    let sorted = sort_threads(threads);
    let rest = match cursor {
        None => sorted,
        Some(cursor) => match threads_after_cursor(sorted, cursor) {
            Ok(rest) => rest,
            Err(error) => {
                return Err(error);
            },
        },
    };
    proof {
        lemma_limited_views(rest@, limit);
    }
    Ok(truncate_limit(rest, limit))
}

/// Where the contact with an identifier first stands: its index, or the length.
pub open spec fn contact_place(contacts: Seq<ContactView>, id: Uuid) -> int
    decreases contacts.len(),
{
    if contacts.len() == 0 || contacts[0].id == id {
        0
    } else {
        1 + contact_place(contacts.drop_first(), id)
    }
}

/// The contacts behind the one with an identifier.
pub open spec fn contacts_behind(contacts: Seq<ContactView>, cursor: Result<u128, Seq<char>>) -> Result<
    Seq<ContactView>,
    Seq<char>,
> {
    match cursor {
        Err(error) => Err(error),
        Ok(id) => {
            let at = contact_place(contacts, Uuid { value: id });
            if at < contacts.len() {
                Ok(contacts.skip(at + 1))
            } else {
                Err("contact cursor not found: "@ + uuid_text(id))
            }
        },
    }
}

/// The contacts behind the one that a cursor names.
pub fn contacts_after_cursor(contacts: Vec<Contact>, cursor: &str) -> (r: Result<Vec<Contact>, String>)
    ensures
        view_list(r) == contacts_behind(views(contacts@), uuid_parsed(cursor@)),
{
    contacts_after(contacts, Uuid::parse(cursor))
}

/// The contacts behind the one with an identifier, if that could be read.
pub fn contacts_after(contacts: Vec<Contact>, cursor: Result<Uuid, String>) -> (r: Result<
    Vec<Contact>,
    String,
>)
    ensures
        view_list(r) == contacts_behind(views(contacts@), crate::ids::uuid_result(cursor)),
{
    let id = match cursor {
        Ok(id) => id,
        Err(error) => {
            return Err(error);
        },
    };
    let ghost all = views(contacts@);
    let mut i: usize = 0;
    assert(all.skip(0) =~= all);
    while i < contacts.len()
        invariant
            i <= contacts@.len(),
            all == views(contacts@),
            cursor == Ok::<Uuid, String>(id),
            contact_place(all, id) == i + contact_place(all.skip(i as int), id),
        decreases contacts@.len() - i,
    {
        assert(all.skip(i as int)[0] == contacts@[i as int]@);
        if contacts[i].id == id {
            let rest = skip_items(contacts, i + 1);
            assert(views(rest@) =~= all.skip(i + 1));
            return Ok(rest);
        }
        assert(all.skip(i as int).drop_first() =~= all.skip(i + 1));
        i += 1;
    }
    Err(prefixed("contact cursor not found: ", id.text().as_str()))
}

/// The page of contacts that a listing shows.
pub open spec fn contact_page(
    contacts: Seq<ContactView>,
    cursor: Option<Result<u128, Seq<char>>>,
    limit: Option<u32>,
) -> Result<Seq<ContactView>, Seq<char>> {
    let sorted = sorted_by(contacts, contact_order());
    match cursor {
        None => Ok(limited(sorted, limit)),
        Some(cursor) => match contacts_behind(sorted, cursor) {
            Ok(rest) => Ok(limited(rest, limit)),
            Err(error) => Err(error),
        },
    }
}

/// The page of contacts that a listing shows: the contacts of all providers in order, behind the
/// cursor if there is one, as many as the limit allows.
pub fn page_contacts(contacts: Vec<Contact>, cursor: Option<&str>, limit: Option<u32>) -> (r: Result<
    Vec<Contact>,
    String,
>)
    ensures
        view_list(r) == contact_page(
            views(contacts@),
            match cursor {
                Some(cursor) => Some(uuid_parsed(cursor@)),
                None => None,
            },
            limit,
        ),
{
    let sorted = sort_contacts(contacts);
    let rest = match cursor {
        None => sorted,
        Some(cursor) => match contacts_after_cursor(sorted, cursor) {
            Ok(rest) => rest,
            Err(error) => {
                return Err(error);
            },
        },
    };
    proof {
        lemma_limited_views(rest@, limit);
    }
    Ok(truncate_limit(rest, limit))
}

/// The page of messages that a listing shows: in order, as many as the limit allows.
pub fn page_messages(messages: Vec<Message>, limit: Option<u32>) -> (r: Vec<Message>)
    ensures
        r@ == limited(sorted_by(messages@, viewed(message_order())), limit),
        views(r@) == limited(sorted_by(views(messages@), message_order()), limit),
{
    let sorted = sort_messages(messages);
    proof {
        lemma_limited_views(sorted@, limit);
    }
    truncate_limit(sorted, limit)
}

/// A listing that goes on behind a thread shows exactly what followed that thread, where no thread
/// before it has the same time, source and identifier.
pub proof fn law_listing_goes_on_behind_the_cursor(threads: Seq<ThreadView>, i: int)
    requires
        0 <= i < threads.len(),
        forall|j: int|
            0 <= j < i ==> !names(
                #[trigger] threads[j],
                threads[i].last_message_at,
                threads[i].source,
                threads[i].id,
            ),
    ensures
        threads_behind(
            threads,
            (CursorView::Behind {
                timestamp: threads[i].last_message_at,
                source: threads[i].source,
                id: threads[i].id,
            }),
        ) == Ok::<Seq<ThreadView>, Seq<char>>(threads.skip(i + 1)),
    decreases i,
{
    lemma_place(threads, i);
}

proof fn lemma_place(threads: Seq<ThreadView>, i: int)
    requires
        0 <= i < threads.len(),
        forall|j: int|
            0 <= j < i ==> !names(
                #[trigger] threads[j],
                threads[i].last_message_at,
                threads[i].source,
                threads[i].id,
            ),
    ensures
        place_of(threads, threads[i].last_message_at, threads[i].source, threads[i].id) == i,
    decreases i,
{
    if i > 0 {
        let rest = threads.drop_first();
        assert(rest[i - 1] == threads[i]);
        assert(!names(
            threads[0],
            threads[i].last_message_at,
            threads[i].source,
            threads[i].id,
        ));
        assert forall|j: int| 0 <= j < i - 1 implies !names(
            #[trigger] rest[j],
            rest[i - 1].last_message_at,
            rest[i - 1].source,
            rest[i - 1].id,
        ) by {
            assert(rest[j] == threads[j + 1]);
        }
        lemma_place(rest, i - 1);
    }
}

proof fn lemma_names_ordered(a: Option<Seq<char>>, b: Option<Seq<char>>, c: Option<Seq<char>>)
    ensures
        a != b <==> opt_text_before(a, b) || opt_text_before(b, a),
        b != c <==> opt_text_before(b, c) || opt_text_before(c, b),
        a != c <==> opt_text_before(a, c) || opt_text_before(c, a),
        !(opt_text_before(a, b) && opt_text_before(b, a)),
        !(opt_text_before(b, c) && opt_text_before(c, b)),
        !(opt_text_before(a, c) && opt_text_before(c, a)),
        !opt_text_before(a, b) && !opt_text_before(b, c) ==> !opt_text_before(a, c),
{
    lemma_texts_ordered(a.unwrap_or(seq![]), b.unwrap_or(seq![]), c.unwrap_or(seq![]));
}

/// The listing holds exactly the given threads, and no thread stands behind one that it precedes.
pub proof fn law_threads_are_listed_in_order(threads: Seq<ThreadView>)
    ensures
        in_order(sorted_by(threads, thread_order()), thread_order()),
        sorted_by(threads, thread_order()).to_multiset() == threads.to_multiset(),
{
    let less = thread_order();
    assert(strict_weak_order(less)) by {
        assert forall|x: ThreadView, y: ThreadView| #[trigger] less(x, y) implies !less(y, x) by {
            lemma_timestamp_whole(x.last_message_at);
            lemma_timestamp_whole(y.last_message_at);
            lemma_texts_ordered(x.source, y.source, x.source);
        }
        assert forall|x: ThreadView, y: ThreadView, z: ThreadView|
            #![trigger less(x, y), less(y, z)]
            !less(x, y) && !less(y, z) implies !less(x, z) by {
            lemma_timestamp_whole(x.last_message_at);
            lemma_timestamp_whole(y.last_message_at);
            lemma_timestamp_whole(z.last_message_at);
            lemma_texts_ordered(x.source, y.source, z.source);
        }
    }
    lemma_sorted_by(threads, less);
}

/// The listing holds exactly the given contacts, and no contact stands behind one that it
/// precedes.
pub proof fn law_contacts_are_listed_in_order(contacts: Seq<ContactView>)
    ensures
        in_order(sorted_by(contacts, contact_order()), contact_order()),
        sorted_by(contacts, contact_order()).to_multiset() == contacts.to_multiset(),
{
    let less = contact_order();
    assert(strict_weak_order(less)) by {
        assert forall|x: ContactView, y: ContactView| #[trigger] less(x, y) implies !less(y, x) by {
            lemma_texts_ordered(x.source, y.source, x.source);
            lemma_texts_ordered(x.source_id, y.source_id, x.source_id);
            lemma_names_ordered(x.display_name, y.display_name, x.display_name);
        }
        assert forall|x: ContactView, y: ContactView, z: ContactView|
            #![trigger less(x, y), less(y, z)]
            !less(x, y) && !less(y, z) implies !less(x, z) by {
            lemma_texts_ordered(x.source, y.source, z.source);
            lemma_texts_ordered(x.source_id, y.source_id, z.source_id);
            lemma_names_ordered(x.display_name, y.display_name, z.display_name);
        }
    }
    lemma_sorted_by(contacts, less);
}

/// The listing holds exactly the given messages, and no message stands behind one that it
/// precedes.
pub proof fn law_messages_are_listed_in_order(messages: Seq<MessageView>)
    ensures
        in_order(sorted_by(messages, message_order()), message_order()),
        sorted_by(messages, message_order()).to_multiset() == messages.to_multiset(),
{
    let less = message_order();
    assert(strict_weak_order(less)) by {
        assert forall|x: MessageView, y: MessageView| #[trigger] less(x, y) implies !less(y, x) by {
            lemma_timestamp_whole(x.timestamp);
            lemma_timestamp_whole(y.timestamp);
        }
        assert forall|x: MessageView, y: MessageView, z: MessageView|
            #![trigger less(x, y), less(y, z)]
            !less(x, y) && !less(y, z) implies !less(x, z) by {
            lemma_timestamp_whole(x.timestamp);
            lemma_timestamp_whole(y.timestamp);
            lemma_timestamp_whole(z.timestamp);
        }
    }
    lemma_sorted_by(messages, less);
}

/// Listed threads come the latest first; equally late ones by their source, and those of one source
/// by their ID.
pub proof fn law_the_latest_threads_come_first(threads: Seq<ThreadView>, i: int, j: int)
    requires
        0 <= i < j < threads.len(),
    ensures
        sorted_by(threads, thread_order()).len() == threads.len(),
        ({
            let x = sorted_by(threads, thread_order())[i];
            let y = sorted_by(threads, thread_order())[j];
            &&& x.last_message_at.ticks() >= y.last_message_at.ticks()
            &&& x.last_message_at.ticks() == y.last_message_at.ticks() ==> text_before(
                x.source,
                y.source,
            ) || (x.source == y.source && x.id.value <= y.id.value)
        }),
{
    let sorted = sorted_by(threads, thread_order());
    law_threads_are_listed_in_order(threads);
    threads.to_multiset_ensures();
    sorted.to_multiset_ensures();
    let x = sorted[i];
    let y = sorted[j];
    assert(!thread_order()(y, x));
    law_earlier_points_come_first(x.last_message_at, y.last_message_at);
    law_earlier_points_come_first(y.last_message_at, x.last_message_at);
    lemma_texts_ordered(x.source, y.source, x.source);
}

/// Listed contacts come by their names, those without one first; then by their source, by their ID
/// there, and by their own ID.
pub proof fn law_contacts_come_by_their_names(contacts: Seq<ContactView>, i: int, j: int)
    requires
        0 <= i < j < contacts.len(),
    ensures
        sorted_by(contacts, contact_order()).len() == contacts.len(),
        ({
            let x = sorted_by(contacts, contact_order())[i];
            let y = sorted_by(contacts, contact_order())[j];
            &&& y.display_name is None ==> x.display_name is None
            &&& x.display_name matches Some(a) ==> (y.display_name matches Some(b) ==> a == b
                || text_before(a, b))
            &&& x.display_name == y.display_name ==> text_before(x.source, y.source) || x.source
                == y.source
            &&& x.display_name == y.display_name && x.source == y.source ==> text_before(
                x.source_id,
                y.source_id,
            ) || (x.source_id == y.source_id && x.id.value <= y.id.value)
        }),
{
    let sorted = sorted_by(contacts, contact_order());
    law_contacts_are_listed_in_order(contacts);
    contacts.to_multiset_ensures();
    sorted.to_multiset_ensures();
    let x = sorted[i];
    let y = sorted[j];
    assert(!contact_order()(y, x));
    lemma_names_ordered(x.display_name, y.display_name, x.display_name);
    lemma_texts_ordered(x.source, y.source, x.source);
    lemma_texts_ordered(x.source_id, y.source_id, x.source_id);
    if let Some(a) = x.display_name {
        if let Some(b) = y.display_name {
            lemma_texts_ordered(a, b, a);
        }
    }
}

/// Listed messages come the earliest first, and equally early ones by their ID.
pub proof fn law_the_earliest_messages_come_first(messages: Seq<MessageView>, i: int, j: int)
    requires
        0 <= i < j < messages.len(),
    ensures
        sorted_by(messages, message_order()).len() == messages.len(),
        ({
            let x = sorted_by(messages, message_order())[i];
            let y = sorted_by(messages, message_order())[j];
            &&& x.timestamp.ticks() <= y.timestamp.ticks()
            &&& x.timestamp.ticks() == y.timestamp.ticks() ==> x.id.value <= y.id.value
        }),
{
    let sorted = sorted_by(messages, message_order());
    law_messages_are_listed_in_order(messages);
    messages.to_multiset_ensures();
    sorted.to_multiset_ensures();
    let x = sorted[i];
    let y = sorted[j];
    assert(!message_order()(y, x));
    law_earlier_points_come_first(x.timestamp, y.timestamp);
    law_earlier_points_come_first(y.timestamp, x.timestamp);
}

/// A limit cuts the end of a listing, and without one all of it is shown.
pub proof fn law_a_limit_cuts_the_end<A>(items: Seq<A>, limit: u32)
    ensures
        limited(items, None) == items,
        limited(items, Some(limit)).len() == (if items.len() <= limit {
            items.len() as int
        } else {
            limit as int
        }),
        forall|i: int|
            0 <= i < limited(items, Some(limit)).len() ==> #[trigger] limited(items, Some(limit))[i]
                == items[i],
{
}

/// Behind a time come the threads that are earlier, in their order.
pub proof fn law_behind_a_time_come_earlier_threads(threads: Seq<ThreadView>, at: Timestamp)
    ensures
        threads_behind(threads, CursorView::Before(at)) == Ok::<Seq<ThreadView>, Seq<char>>(
            threads.filter(|thread: ThreadView| thread.last_message_at.ticks() < at.ticks()),
        ),
{
    lemma_earlier_threads(threads, at);
}

proof fn lemma_earlier_threads(threads: Seq<ThreadView>, at: Timestamp)
    ensures
        earlier_threads(threads, at) == threads.filter(
            |thread: ThreadView| thread.last_message_at.ticks() < at.ticks(),
        ),
    decreases threads.len(),
{
    reveal(Seq::filter);
    if threads.len() > 0 {
        lemma_earlier_threads(threads.drop_last(), at);
        law_earlier_points_come_first(threads.last().last_message_at, at);
    }
}

/// A cursor that names no thread is refused.
pub proof fn law_cursors_name_a_thread(
    threads: Seq<ThreadView>,
    timestamp: Timestamp,
    source: Seq<char>,
    id: Uuid,
)
    ensures
        threads_behind(threads, (CursorView::Behind { timestamp, source, id })) is Ok <==> exists|
            k: int,
        |
            0 <= k < threads.len() && (#[trigger] threads[k]).last_message_at == timestamp
                && threads[k].source == source && threads[k].id == id,
    decreases threads.len(),
{
    if threads.len() > 0 && !names(threads[0], timestamp, source, id) {
        let rest = threads.drop_first();
        law_cursors_name_a_thread(rest, timestamp, source, id);
        if exists|k: int|
            0 <= k < threads.len() && (#[trigger] threads[k]).last_message_at == timestamp
                && threads[k].source == source && threads[k].id == id {
            let k = choose|k: int|
                0 <= k < threads.len() && (#[trigger] threads[k]).last_message_at == timestamp
                    && threads[k].source == source && threads[k].id == id;
            assert(rest[k - 1] == threads[k]);
        }
        if exists|k: int|
            0 <= k < rest.len() && (#[trigger] rest[k]).last_message_at == timestamp
                && rest[k].source == source && rest[k].id == id {
            let k = choose|k: int|
                0 <= k < rest.len() && (#[trigger] rest[k]).last_message_at == timestamp
                    && rest[k].source == source && rest[k].id == id;
            assert(threads[k + 1] == rest[k]);
        }
    }
}

/// A listing of contacts goes on behind the first contact with the ID of the cursor; a cursor that
/// names no contact is refused.
pub proof fn law_contacts_go_on_behind_the_cursor(contacts: Seq<ContactView>, id: Uuid, k: int)
    ensures
        0 <= k < contacts.len() && contacts[k].id == id && (forall|j: int|
            0 <= j < k ==> (#[trigger] contacts[j]).id != id) ==> contacts_behind(
            contacts,
            Ok(id.value),
        ) == Ok::<Seq<ContactView>, Seq<char>>(contacts.skip(k + 1)),
        (forall|j: int| 0 <= j < contacts.len() ==> (#[trigger] contacts[j]).id != id)
            ==> contacts_behind(contacts, Ok(id.value)) is Err,
{
    lemma_contact_place(contacts, id, k);
}

proof fn lemma_contact_place(contacts: Seq<ContactView>, id: Uuid, k: int)
    ensures
        0 <= k < contacts.len() && contacts[k].id == id && (forall|j: int|
            0 <= j < k ==> (#[trigger] contacts[j]).id != id) ==> contact_place(contacts, id) == k,
        (forall|j: int| 0 <= j < contacts.len() ==> (#[trigger] contacts[j]).id != id)
            ==> contact_place(contacts, id) == contacts.len(),
    decreases contacts.len(),
{
    if contacts.len() > 0 {
        let rest = contacts.drop_first();
        lemma_contact_place(rest, id, k - 1);
        assert forall|j: int| 0 <= j < rest.len() implies #[trigger] rest[j] == contacts[j + 1] by {}
    }
}

/// A cursor is a time, or a time, a source and a UUID between bars; anything else is refused.
pub proof fn law_cursors_are_times_or_places(
    time: Seq<char>,
    source: Seq<char>,
    id: Seq<char>,
    at: (i64, u32),
    value: u128,
)
    requires
        !time.contains('|'),
        !source.contains('|'),
        !id.contains('|'),
    ensures
        rfc3339_parsed(time) == Ok::<(i64, u32), Seq<char>>(at) ==> parsed_cursor(time) == Ok::<
            CursorView,
            Seq<char>,
        >(CursorView::Before(Timestamp::at(at.0, at.1))),
        rfc3339_parsed(time) == Ok::<(i64, u32), Seq<char>>(at) && uuid_parsed(id) == Ok::<
            u128,
            Seq<char>,
        >(value) ==> parsed_cursor(time + "|"@ + (source + "|"@ + id)) == Ok::<
            CursorView,
            Seq<char>,
        >(
            CursorView::Behind {
                timestamp: Timestamp::at(at.0, at.1),
                source,
                id: Uuid { value },
            },
        ),
        rfc3339_parsed(time) is Err ==> parsed_cursor(time) is Err && parsed_cursor(
            time + "|"@ + (source + "|"@ + id),
        ) is Err,
        uuid_parsed(id) is Err ==> parsed_cursor(time + "|"@ + (source + "|"@ + id)) is Err,
        parsed_cursor(time + "|"@ + source) is Err,
{
    lemma_split_none(time);
    lemma_split_none(source);
    lemma_split_none(id);
    lemma_split_head(source, id);
    lemma_split_head(time, source + "|"@ + id);
    lemma_split_head(time, source);
}

/// A page of threads is a part of the ordered listing: its beginning, or what follows the thread
/// that the cursor names, as far as the limit allows.
pub proof fn law_a_page_of_threads_goes_on_behind_its_cursor(
    threads: Seq<ThreadView>,
    i: int,
    limit: Option<u32>,
)
    ensures
        thread_page(threads, None, limit) == Ok::<Seq<ThreadView>, Seq<char>>(
            limited(sorted_by(threads, thread_order()), limit),
        ),
        ({
            let sorted = sorted_by(threads, thread_order());
            &&& 0 <= i < sorted.len() && (forall|j: int|
                0 <= j < i ==> !names(
                    #[trigger] sorted[j],
                    sorted[i].last_message_at,
                    sorted[i].source,
                    sorted[i].id,
                )) ==> thread_page(
                threads,
                Some(
                    CursorView::Behind {
                        timestamp: sorted[i].last_message_at,
                        source: sorted[i].source,
                        id: sorted[i].id,
                    },
                ),
                limit,
            ) == Ok::<Seq<ThreadView>, Seq<char>>(limited(sorted.skip(i + 1), limit))
        }),
{
    let sorted = sorted_by(threads, thread_order());
    if 0 <= i < sorted.len() && (forall|j: int|
        0 <= j < i ==> !names(
            #[trigger] sorted[j],
            sorted[i].last_message_at,
            sorted[i].source,
            sorted[i].id,
        )) {
        law_listing_goes_on_behind_the_cursor(sorted, i);
    }
}

/// A page of contacts is a part of the ordered listing: its beginning, or what follows the contact
/// that the cursor names, as far as the limit allows.
pub proof fn law_a_page_of_contacts_goes_on_behind_its_cursor(
    contacts: Seq<ContactView>,
    i: int,
    limit: Option<u32>,
    error: Seq<char>,
)
    ensures
        contact_page(contacts, None, limit) == Ok::<Seq<ContactView>, Seq<char>>(
            limited(sorted_by(contacts, contact_order()), limit),
        ),
        contact_page(contacts, Some(Err(error)), limit) == Err::<Seq<ContactView>, Seq<char>>(error),
        ({
            let sorted = sorted_by(contacts, contact_order());
            &&& 0 <= i < sorted.len() && (forall|j: int|
                0 <= j < i ==> (#[trigger] sorted[j]).id != sorted[i].id) ==> contact_page(
                contacts,
                Some(Ok(sorted[i].id.value)),
                limit,
            ) == Ok::<Seq<ContactView>, Seq<char>>(limited(sorted.skip(i + 1), limit))
        }),
{
    let sorted = sorted_by(contacts, contact_order());
    if 0 <= i < sorted.len() {
        law_contacts_go_on_behind_the_cursor(sorted, sorted[i].id, i);
    }
}

} // verus!
