//! Orders and limits of what providers list.

use vstd::prelude::*;
use crate::json::{
    json_number, json_object, json_text, member, member_views, Json, JsonNumberView, JsonView,
};
use crate::maps::{
    find, holds, lemma_placed, lemma_put, lemma_with_value, ordered, pairs_of, placed, take_value,
    with_value,
};
use crate::model::{Contact, ContactView, Message, MessageView, Thread, ThreadView};
use crate::order::{
    in_order, is_text_before, lemma_sorted_by, lemma_sorted_map, lemma_texts_ordered, precedence,
    sorted_by, stable_sort, strict_weak_order, text_before, viewed, Precedes,
};
use crate::text::views;
use crate::time::law_earlier_points_come_first;

verus! {

/// How many items are listed where no limit is given.
pub const DEFAULT_LIMIT: u32 = 50;

struct NewestFirst {
    thread: Thread,
}

impl Precedes for NewestFirst {
    closed spec fn before(self, other: NewestFirst) -> bool {
        other.thread.last_message_at.earlier(self.thread.last_message_at)
    }

    fn is_before(&self, other: &NewestFirst) -> (r: bool) {
        other.thread.last_message_at.is_earlier(&self.thread.last_message_at)
    }
}

struct OldestFirst {
    message: Message,
}

impl Precedes for OldestFirst {
    closed spec fn before(self, other: OldestFirst) -> bool {
        self.message.timestamp.earlier(other.message.timestamp)
    }

    fn is_before(&self, other: &OldestFirst) -> (r: bool) {
        self.message.timestamp.is_earlier(&other.message.timestamp)
    }
}

struct LatestFirst {
    message: Message,
}

impl Precedes for LatestFirst {
    closed spec fn before(self, other: LatestFirst) -> bool {
        other.message.timestamp.earlier(self.message.timestamp)
    }

    fn is_before(&self, other: &LatestFirst) -> (r: bool) {
        other.message.timestamp.is_earlier(&self.message.timestamp)
    }
}

struct BySource {
    contact: Contact,
}

impl Precedes for BySource {
    closed spec fn before(self, other: BySource) -> bool {
        text_before(self.contact.source_id@, other.contact.source_id@)
    }

    fn is_before(&self, other: &BySource) -> (r: bool) {
        is_text_before(self.contact.source_id.as_str(), other.contact.source_id.as_str())
    }
}

/// The order in which the thread with the later message comes first.
pub open spec fn newer() -> spec_fn(ThreadView, ThreadView) -> bool {
    |x: ThreadView, y: ThreadView| y.last_message_at.earlier(x.last_message_at)
}

/// The order in which the earlier message comes first.
pub open spec fn older() -> spec_fn(MessageView, MessageView) -> bool {
    |x: MessageView, y: MessageView| x.timestamp.earlier(y.timestamp)
}

/// The order in which the later message comes first.
pub open spec fn later() -> spec_fn(MessageView, MessageView) -> bool {
    |x: MessageView, y: MessageView| y.timestamp.earlier(x.timestamp)
}

/// The order of contacts by their source identifiers.
pub open spec fn by_source_id() -> spec_fn(ContactView, ContactView) -> bool {
    |x: ContactView, y: ContactView| text_before(x.source_id, y.source_id)
}

/// Sorts threads, those with the latest messages first; threads that tie keep their places.
pub fn sort_newest_first(threads: Vec<Thread>) -> (r: Vec<Thread>)
    ensures
        views(r@) == sorted_by(views(threads@), newer()),
        r@.len() == threads@.len(),
{
    let ghost all = threads@;
    let mut wrapped: Vec<NewestFirst> = Vec::new();
    for thread in it: threads
        invariant
            it.seq() == all,
            wrapped@.len() == it.index(),
            forall|j: int| 0 <= j < it.index() ==> (#[trigger] wrapped@[j]).thread == all[j],
    {
        wrapped.push(NewestFirst { thread });
    }
    let ghost f = |w: NewestFirst| w.thread@;
    let ghost given = wrapped@;
    let sorted = stable_sort(wrapped);
    proof {
        assert(given.map_values(f) =~= views(all));
        lemma_sorted_by(given, precedence::<NewestFirst>());
        assert forall|x: NewestFirst, y: NewestFirst| #[trigger]
            precedence::<NewestFirst>()(x, y) == newer()(f(x), f(y)) by {}
        lemma_sorted_map(given, f, precedence::<NewestFirst>(), newer());
    }
    let ghost order = sorted@;
    let mut out: Vec<Thread> = Vec::new();
    for item in it: sorted
        invariant
            it.seq() == order,
            out@.len() == it.index(),
            forall|j: int| 0 <= j < it.index() ==> (#[trigger] out@[j]) == order[j].thread,
    {
        out.push(item.thread);
    }
    assert(views(out@) =~= order.map_values(f));
    out
}

/// Sorts messages, the earliest first; messages that tie keep their places.
pub fn sort_oldest_first(messages: Vec<Message>) -> (r: Vec<Message>)
    ensures
        r@ == sorted_by(messages@, viewed(older())),
        views(r@) == sorted_by(views(messages@), older()),
        r@.len() == messages@.len(),
{
    let ghost all = messages@;
    let mut wrapped: Vec<OldestFirst> = Vec::new();
    for message in it: messages
        invariant
            it.seq() == all,
            wrapped@.len() == it.index(),
            forall|j: int| 0 <= j < it.index() ==> (#[trigger] wrapped@[j]).message == all[j],
    {
        wrapped.push(OldestFirst { message });
    }
    let ghost f = |w: OldestFirst| w.message@;
    let ghost g = |w: OldestFirst| w.message;
    let ghost given = wrapped@;
    let sorted = stable_sort(wrapped);
    proof {
        assert(given.map_values(f) =~= views(all));
        lemma_sorted_by(given, precedence::<OldestFirst>());
        assert forall|x: OldestFirst, y: OldestFirst| #[trigger]
            precedence::<OldestFirst>()(x, y) == older()(f(x), f(y)) by {}
        lemma_sorted_map(given, f, precedence::<OldestFirst>(), older());
        assert(given.map_values(g) =~= all);
        assert forall|x: OldestFirst, y: OldestFirst| #[trigger]
            precedence::<OldestFirst>()(x, y) == viewed::<Message>(older())(g(x), g(y)) by {}
        lemma_sorted_map(given, g, precedence::<OldestFirst>(), viewed(older()));
    }
    let ghost order = sorted@;
    let mut out: Vec<Message> = Vec::new();
    for item in it: sorted
        invariant
            it.seq() == order,
            out@.len() == it.index(),
            forall|j: int| 0 <= j < it.index() ==> (#[trigger] out@[j]) == order[j].message,
    {
        out.push(item.message);
    }
    assert(views(out@) =~= order.map_values(f));
    assert(out@ =~= order.map_values(g));
    out
}

/// Sorts messages, the latest first; messages that tie keep their places.
pub fn sort_latest_first(messages: Vec<Message>) -> (r: Vec<Message>)
    ensures
        r@ == sorted_by(messages@, viewed(later())),
        views(r@) == sorted_by(views(messages@), later()),
        r@.len() == messages@.len(),
{
    let ghost all = messages@;
    let mut wrapped: Vec<LatestFirst> = Vec::new();
    for message in it: messages
        invariant
            it.seq() == all,
            wrapped@.len() == it.index(),
            forall|j: int| 0 <= j < it.index() ==> (#[trigger] wrapped@[j]).message == all[j],
    {
        wrapped.push(LatestFirst { message });
    }
    let ghost f = |w: LatestFirst| w.message@;
    let ghost g = |w: LatestFirst| w.message;
    let ghost given = wrapped@;
    let sorted = stable_sort(wrapped);
    proof {
        assert(given.map_values(f) =~= views(all));
        lemma_sorted_by(given, precedence::<LatestFirst>());
        assert forall|x: LatestFirst, y: LatestFirst| #[trigger]
            precedence::<LatestFirst>()(x, y) == later()(f(x), f(y)) by {}
        lemma_sorted_map(given, f, precedence::<LatestFirst>(), later());
        assert(given.map_values(g) =~= all);
        assert forall|x: LatestFirst, y: LatestFirst| #[trigger]
            precedence::<LatestFirst>()(x, y) == viewed::<Message>(later())(g(x), g(y)) by {}
        lemma_sorted_map(given, g, precedence::<LatestFirst>(), viewed(later()));
    }
    let ghost order = sorted@;
    let mut out: Vec<Message> = Vec::new();
    for item in it: sorted
        invariant
            it.seq() == order,
            out@.len() == it.index(),
            forall|j: int| 0 <= j < it.index() ==> (#[trigger] out@[j]) == order[j].message,
    {
        out.push(item.message);
    }
    assert(views(out@) =~= order.map_values(f));
    assert(out@ =~= order.map_values(g));
    out
}

/// Sorts contacts by their source identifiers; contacts that tie keep their places.
pub fn sort_by_source_id(contacts: Vec<Contact>) -> (r: Vec<Contact>)
    ensures
        views(r@) == sorted_by(views(contacts@), by_source_id()),
        r@.len() == contacts@.len(),
{
    let ghost all = contacts@;
    let mut wrapped: Vec<BySource> = Vec::new();
    for contact in it: contacts
        invariant
            it.seq() == all,
            wrapped@.len() == it.index(),
            forall|j: int| 0 <= j < it.index() ==> (#[trigger] wrapped@[j]).contact == all[j],
    {
        wrapped.push(BySource { contact });
    }
    let ghost f = |w: BySource| w.contact@;
    let ghost given = wrapped@;
    let sorted = stable_sort(wrapped);
    proof {
        assert(given.map_values(f) =~= views(all));
        lemma_sorted_by(given, precedence::<BySource>());
        assert forall|x: BySource, y: BySource| #[trigger]
            precedence::<BySource>()(x, y) == by_source_id()(f(x), f(y)) by {}
        lemma_sorted_map(given, f, precedence::<BySource>(), by_source_id());
    }
    let ghost order = sorted@;
    let mut out: Vec<Contact> = Vec::new();
    for item in it: sorted
        invariant
            it.seq() == order,
            out@.len() == it.index(),
            forall|j: int| 0 <= j < it.index() ==> (#[trigger] out@[j]) == order[j].contact,
    {
        out.push(item.contact);
    }
    assert(views(out@) =~= order.map_values(f));
    out
}

/// The first items up to a number.
pub open spec fn first_items<A>(items: Seq<A>, n: nat) -> Seq<A> {
    if n < items.len() {
        items.take(n as int)
    } else {
        items
    }
}

/// The number of items that a limit allows.
pub open spec fn allowed(limit: Option<u32>) -> nat {
    match limit {
        Some(limit) => limit as nat,
        None => DEFAULT_LIMIT as nat,
    }
}

/// Keeps the first items, as many as the limit allows.
pub fn keep_first<T>(items: Vec<T>, limit: Option<u32>) -> (r: Vec<T>)
    ensures
        r@ == first_items(items@, allowed(limit)),
{
    let mut out = items;
    let n: u32 = match limit {
        Some(limit) => limit,
        None => DEFAULT_LIMIT,
    };
    out.truncate(n as usize);
    out
}

/// Taking the first items and viewing them can be exchanged.
pub proof fn lemma_first_views<T: View>(items: Seq<T>, n: nat)
    ensures
        views(first_items(items, n)) == first_items(views(items), n),
{
    assert(views(first_items(items, n)) =~= first_items(views(items), n));
}

/// The audit metadata of a listing.
pub open spec fn count_view(operation: Seq<char>, count: nat) -> JsonView {
    JsonView::Object(
        seq![
            ("count"@, JsonView::Number(JsonNumberView::Unsigned(count as u64))),
            ("operation"@, JsonView::Text(operation)),
        ],
    )
}

/// The audit metadata of a listing.
pub fn count_metadata(operation: &str, count: usize) -> (r: Json)
    ensures
        r@ == count_view(operation@, count as nat),
{
    let mut members: Vec<(String, Json)> = Vec::new();
    members.push(member("count", json_number(count as u64)));
    members.push(member("operation", json_text(operation)));
    assert(member_views(members@) =~= count_view(operation@, count as nat)->Object_0);
    json_object(members)
}

/// The views of threads under their keys.
pub open spec fn thread_views(entries: Seq<(String, Thread)>) -> Seq<(Seq<char>, ThreadView)> {
    entries.map_values(|entry: (String, Thread)| (entry.0@, entry.1@))
}

/// The threads of a listing, without their keys.
pub open spec fn without_keys(entries: Seq<(Seq<char>, ThreadView)>) -> Seq<ThreadView> {
    entries.map_values(|entry: (Seq<char>, ThreadView)| entry.1)
}

/// The threads with one more seen under a key: joined to the one that is there, or at the key's
/// place in the order.
pub open spec fn with_thread(
    known: Seq<(Seq<char>, ThreadView)>,
    key: Seq<char>,
    thread: ThreadView,
    join: spec_fn(ThreadView, ThreadView) -> ThreadView,
) -> Seq<(Seq<char>, ThreadView)> {
    let at = placed(known, key);
    if holds(known, key) {
        known.update(at, (key, join(known[at].1, thread)))
    } else {
        known.insert(at, (key, thread))
    }
}

/// Takes the thread under a key out of the known ones, and says where the key stands.
pub fn take_thread(known: &mut Vec<(String, Thread)>, key: &str) -> (r: (usize, Option<Thread>))
    ensures
        r.0 == placed(thread_views(old(known)@), key@),
        r.0 <= final(known)@.len(),
        r.1 is Some <==> holds(thread_views(old(known)@), key@),
        r.1 matches Some(thread) ==> thread_views(old(known)@)[r.0 as int] == (key@, thread@)
            && r.0 < old(known)@.len() && thread_views(final(known)@) == thread_views(
            old(known)@,
        ).remove(r.0 as int),
        r.1 is None ==> final(known)@ == old(known)@,
{
    let ghost given = known@;
    proof {
        lemma_placed(pairs_of(given), thread_views(given), key@);
    }
    let r = take_value(known, key);
    if r.1.is_some() {
        assert(thread_views(known@) =~= thread_views(given).remove(r.0 as int));
    }
    r
}

/// Puts a thread at a place among the known ones.
pub fn put_thread(known: &mut Vec<(String, Thread)>, at: usize, key: String, thread: Thread)
    requires
        at <= old(known)@.len(),
    ensures
        thread_views(final(known)@) == thread_views(old(known)@).insert(
            at as int,
            (key@, thread@),
        ),
{
    let ghost given = known@;
    known.insert(at, (key, thread));
    assert(thread_views(known@) =~= thread_views(given).insert(at as int, (key@, thread@)));
}

/// The known threads as they are listed: those with the latest messages first, as many as the
/// limit allows.
pub fn list_known(known: Vec<(String, Thread)>, limit: Option<u32>) -> (r: Vec<Thread>)
    ensures
        views(r@) == first_items(
            sorted_by(without_keys(thread_views(known@)), newer()),
            allowed(limit),
        ),
{
    let ghost entries = known@;
    let mut threads: Vec<Thread> = Vec::new();
    for entry in it: known
        invariant
            it.seq() == entries,
            threads@.len() == it.index(),
            forall|j: int| 0 <= j < it.index() ==> (#[trigger] threads@[j]) == entries[j].1,
    {
        threads.push(entry.1);
    }
    assert(views(threads@) =~= without_keys(thread_views(entries)));
    let sorted = sort_newest_first(threads);
    proof {
        lemma_first_views(sorted@, allowed(limit));
    }
    keep_first(sorted, limit)
}

/// Sorted listings hold what was to be listed, in order: threads from the latest message on,
/// messages from the earliest or from the latest on, contacts by their source identifiers.
pub proof fn law_listings_are_in_order(
    threads: Seq<ThreadView>,
    messages: Seq<MessageView>,
    contacts: Seq<ContactView>,
)
    ensures
        in_order(sorted_by(threads, newer()), newer()),
        in_order(sorted_by(messages, older()), older()),
        in_order(sorted_by(messages, later()), later()),
        in_order(sorted_by(contacts, by_source_id()), by_source_id()),
        sorted_by(threads, newer()).to_multiset() == threads.to_multiset(),
        sorted_by(messages, older()).to_multiset() == messages.to_multiset(),
        sorted_by(messages, later()).to_multiset() == messages.to_multiset(),
        sorted_by(contacts, by_source_id()).to_multiset() == contacts.to_multiset(),
{
    assert(strict_weak_order(by_source_id())) by {
        let less = by_source_id();
        assert forall|x: ContactView, y: ContactView| #[trigger] less(x, y) implies !less(y, x) by {
            lemma_texts_ordered(x.source_id, y.source_id, x.source_id);
        }
        assert forall|x: ContactView, y: ContactView, z: ContactView|
            #![trigger less(x, y), less(y, z)]
            !less(x, y) && !less(y, z) implies !less(x, z) by {
            lemma_texts_ordered(x.source_id, y.source_id, z.source_id);
        }
    }
    lemma_sorted_by(threads, newer());
    lemma_sorted_by(messages, older());
    lemma_sorted_by(messages, later());
    lemma_sorted_by(contacts, by_source_id());
}

/// A listing of threads shows, of those that were seen, as many as the limit allows (fifty where
/// none is given), from the latest message on, and leaves out none that is later than one it shows.
pub proof fn law_the_latest_threads_are_listed(threads: Seq<ThreadView>, limit: Option<u32>)
    ensures
        ({
            let listed = first_items(sorted_by(threads, newer()), allowed(limit));
            let n = match limit {
                Some(limit) => limit as int,
                None => 50,
            };
            &&& listed.len() == (if threads.len() <= n {
                threads.len() as int
            } else {
                n
            })
            &&& forall|i: int, j: int|
                0 <= i < j < listed.len() ==> (#[trigger] listed[i]).last_message_at.ticks() >= (
                #[trigger] listed[j]).last_message_at.ticks()
            &&& forall|i: int| 0 <= i < listed.len() ==> threads.contains(#[trigger] listed[i])
            &&& threads.len() <= n ==> listed.to_multiset() == threads.to_multiset()
            &&& forall|k: int, i: int|
                0 <= k < threads.len() && 0 <= i < listed.len() && !listed.contains(
                    #[trigger] threads[k],
                ) ==> (#[trigger] listed[i]).last_message_at.ticks()
                    >= threads[k].last_message_at.ticks()
        }),
{
    let all = sorted_by(threads, newer());
    lemma_sorted_by(threads, newer());
    assert forall|i: int, j: int| 0 <= i < j < all.len() implies (
    #[trigger] all[i]).last_message_at.ticks() >= (#[trigger] all[j]).last_message_at.ticks() by {
        assert(!newer()(all[j], all[i]));
        law_earlier_points_come_first(all[i].last_message_at, all[j].last_message_at);
    }
    lemma_first_of(threads, all, allowed(limit));
    let listed = first_items(all, allowed(limit));
    assert forall|k: int, i: int|
        0 <= k < threads.len() && 0 <= i < listed.len() && !listed.contains(
            #[trigger] threads[k],
        ) implies (#[trigger] listed[i]).last_message_at.ticks()
        >= threads[k].last_message_at.ticks() by {
        let at = lemma_place_of(threads, all, k);
        if at <= i {
            assert(listed[at] == threads[k]);
        }
        assert(listed[i] == all[i]);
    }
}

/// A listing of messages from the earliest on shows as many as the limit allows (fifty where none
/// is given), and leaves out none that is earlier than one it shows.
pub proof fn law_the_earliest_messages_are_listed(messages: Seq<MessageView>, limit: Option<u32>)
    ensures
        ({
            let listed = first_items(sorted_by(messages, older()), allowed(limit));
            let n = match limit {
                Some(limit) => limit as int,
                None => 50,
            };
            &&& listed.len() == (if messages.len() <= n {
                messages.len() as int
            } else {
                n
            })
            &&& forall|i: int, j: int|
                0 <= i < j < listed.len() ==> (#[trigger] listed[i]).timestamp.ticks() <= (
                #[trigger] listed[j]).timestamp.ticks()
            &&& forall|i: int| 0 <= i < listed.len() ==> messages.contains(#[trigger] listed[i])
            &&& messages.len() <= n ==> listed.to_multiset() == messages.to_multiset()
            &&& forall|k: int, i: int|
                0 <= k < messages.len() && 0 <= i < listed.len() && !listed.contains(
                    #[trigger] messages[k],
                ) ==> (#[trigger] listed[i]).timestamp.ticks() <= messages[k].timestamp.ticks()
        }),
{
    let all = sorted_by(messages, older());
    lemma_sorted_by(messages, older());
    assert forall|i: int, j: int| 0 <= i < j < all.len() implies (
    #[trigger] all[i]).timestamp.ticks() <= (#[trigger] all[j]).timestamp.ticks() by {
        assert(!older()(all[j], all[i]));
        law_earlier_points_come_first(all[j].timestamp, all[i].timestamp);
    }
    lemma_first_of(messages, all, allowed(limit));
    let listed = first_items(all, allowed(limit));
    assert forall|k: int, i: int|
        0 <= k < messages.len() && 0 <= i < listed.len() && !listed.contains(
            #[trigger] messages[k],
        ) implies (#[trigger] listed[i]).timestamp.ticks() <= messages[k].timestamp.ticks() by {
        let at = lemma_place_of(messages, all, k);
        if at <= i {
            assert(listed[at] == messages[k]);
        }
        assert(listed[i] == all[i]);
    }
}

/// Of messages the latest are kept, as many as the limit allows (fifty where none is given).
pub proof fn law_the_latest_messages_are_kept(messages: Seq<MessageView>, limit: Option<u32>)
    ensures
        ({
            let kept = first_items(sorted_by(messages, later()), allowed(limit));
            let n = match limit {
                Some(limit) => limit as int,
                None => 50,
            };
            &&& kept.len() == (if messages.len() <= n {
                messages.len() as int
            } else {
                n
            })
            &&& forall|i: int| 0 <= i < kept.len() ==> messages.contains(#[trigger] kept[i])
            &&& messages.len() <= n ==> kept.to_multiset() == messages.to_multiset()
            &&& forall|k: int, i: int|
                0 <= k < messages.len() && 0 <= i < kept.len() && !kept.contains(
                    #[trigger] messages[k],
                ) ==> (#[trigger] kept[i]).timestamp.ticks() >= messages[k].timestamp.ticks()
        }),
{
    let all = sorted_by(messages, later());
    lemma_sorted_by(messages, later());
    assert forall|i: int, j: int| 0 <= i < j < all.len() implies (
    #[trigger] all[i]).timestamp.ticks() >= (#[trigger] all[j]).timestamp.ticks() by {
        assert(!later()(all[j], all[i]));
        law_earlier_points_come_first(all[i].timestamp, all[j].timestamp);
    }
    lemma_first_of(messages, all, allowed(limit));
    let kept = first_items(all, allowed(limit));
    assert forall|k: int, i: int|
        0 <= k < messages.len() && 0 <= i < kept.len() && !kept.contains(
            #[trigger] messages[k],
        ) implies (#[trigger] kept[i]).timestamp.ticks() >= messages[k].timestamp.ticks() by {
        let at = lemma_place_of(messages, all, k);
        if at <= i {
            assert(kept[at] == messages[k]);
        }
        assert(kept[i] == all[i]);
    }
}

/// The first items of others are among those.
proof fn lemma_first_of<A>(items: Seq<A>, order: Seq<A>, n: nat)
    requires
        items.to_multiset() == order.to_multiset(),
        items.len() == order.len(),
    ensures
        first_items(order, n).len() == (if items.len() <= n {
            items.len()
        } else {
            n
        }),
        items.len() <= n ==> first_items(order, n) == order,
        forall|i: int| 0 <= i < first_items(order, n).len() ==> items.contains(
            #[trigger] first_items(order, n)[i],
        ),
{
    broadcast use vstd::seq_lib::group_to_multiset_ensures;

    assert forall|i: int| 0 <= i < first_items(order, n).len() implies items.contains(
        #[trigger] first_items(order, n)[i],
    ) by {
        let item = first_items(order, n)[i];
        assert(order[i] == item);
        assert(order.contains(item));
        assert(order.to_multiset().count(item) > 0);
    }
}

proof fn lemma_place_of<A>(items: Seq<A>, order: Seq<A>, k: int) -> (at: int)
    requires
        items.to_multiset() == order.to_multiset(),
        0 <= k < items.len(),
    ensures
        0 <= at < order.len(),
        order[at] == items[k],
{
    broadcast use vstd::seq_lib::group_to_multiset_ensures;

    assert(items.contains(items[k]));
    assert(items.to_multiset().count(items[k]) > 0);
    assert(order.contains(items[k]));
    choose|at: int| 0 <= at < order.len() && order[at] == items[k]
}

/// The first so many items are those, in their order, and no more.
pub proof fn law_limits_cut_the_end<A>(items: Seq<A>, limit: Option<u32>)
    ensures
        ({
            let n = match limit {
                Some(limit) => limit as int,
                None => 50,
            };
            let kept = first_items(items, allowed(limit));
            &&& kept.len() == (if items.len() <= n {
                items.len() as int
            } else {
                n
            })
            &&& forall|i: int| 0 <= i < kept.len() ==> #[trigger] kept[i] == items[i]
        }),
{
}

/// One more sighting changes one thread: the one under its key, which is joined with what is seen
/// or is there from now on; the order of the keys stays.
pub proof fn law_a_sighting_changes_its_own_thread(
    known: Seq<(Seq<char>, ThreadView)>,
    key: Seq<char>,
    thread: ThreadView,
    join: spec_fn(ThreadView, ThreadView) -> ThreadView,
)
    requires
        ordered(known),
    ensures
        ordered(with_thread(known, key, thread, join)),
        forall|k: Seq<char>| #[trigger]
            find(with_thread(known, key, thread, join), k) == (if k != key {
                find(known, k)
            } else {
                match find(known, key) {
                    Some(existing) => Some(join(existing, thread)),
                    None => Some(thread),
                }
            }),
{
    let value = if holds(known, key) {
        join(known[placed(known, key)].1, thread)
    } else {
        thread
    };
    lemma_with_value(known, key, value);
    lemma_put(known, key, value);
    assert(with_thread(known, key, thread, join) == with_value(known, key, value));
}

/// The latest messages are shown the earliest first: as many as the limit allows, none of them
/// earlier than one that is left out.
pub proof fn law_the_latest_messages_are_shown_in_order(
    messages: Seq<MessageView>,
    limit: Option<u32>,
)
    ensures
        ({
            let kept = first_items(sorted_by(messages, later()), allowed(limit));
            let shown = sorted_by(kept, older());
            let n = match limit {
                Some(limit) => limit as int,
                None => 50,
            };
            &&& shown.len() == (if messages.len() <= n {
                messages.len() as int
            } else {
                n
            })
            &&& forall|i: int, j: int|
                0 <= i < j < shown.len() ==> (#[trigger] shown[i]).timestamp.ticks() <= (
                #[trigger] shown[j]).timestamp.ticks()
            &&& forall|i: int| 0 <= i < shown.len() ==> messages.contains(#[trigger] shown[i])
            &&& forall|k: int, i: int|
                0 <= k < messages.len() && 0 <= i < shown.len() && !shown.contains(
                    #[trigger] messages[k],
                ) ==> (#[trigger] shown[i]).timestamp.ticks() >= messages[k].timestamp.ticks()
        }),
{
    broadcast use vstd::seq_lib::group_to_multiset_ensures;

    let kept = first_items(sorted_by(messages, later()), allowed(limit));
    let shown = sorted_by(kept, older());
    law_the_latest_messages_are_kept(messages, limit);
    law_listings_are_in_order(seq![], kept, seq![]);
    assert(shown.len() == kept.len()) by {
        kept.to_multiset_ensures();
        shown.to_multiset_ensures();
    }
    assert forall|i: int, j: int| 0 <= i < j < shown.len() implies (
    #[trigger] shown[i]).timestamp.ticks() <= (#[trigger] shown[j]).timestamp.ticks() by {
        assert(!older()(shown[j], shown[i]));
        law_earlier_points_come_first(shown[j].timestamp, shown[i].timestamp);
    }
    assert forall|i: int| 0 <= i < shown.len() implies kept.contains(#[trigger] shown[i]) by {
        assert(shown.contains(shown[i]));
        assert(shown.to_multiset().count(shown[i]) > 0);
    }
    assert forall|i: int| 0 <= i < shown.len() implies messages.contains(#[trigger] shown[i]) by {
        let k = choose|k: int| 0 <= k < kept.len() && kept[k] == shown[i];
        assert(messages.contains(kept[k]));
    }
    assert forall|k: int, i: int|
        0 <= k < messages.len() && 0 <= i < shown.len() && !shown.contains(
            #[trigger] messages[k],
        ) implies (#[trigger] shown[i]).timestamp.ticks() >= messages[k].timestamp.ticks() by {
        if kept.contains(messages[k]) {
            assert(kept.to_multiset().count(messages[k]) > 0);
            assert(shown.contains(messages[k]));
        }
        let m = choose|m: int| 0 <= m < kept.len() && kept[m] == shown[i];
        assert(kept[m].timestamp.ticks() >= messages[k].timestamp.ticks());
    }
}

/// Contacts are listed by the text of their IDs.
pub proof fn law_contacts_come_by_their_source_id(contacts: Seq<ContactView>, i: int, j: int)
    requires
        0 <= i < j < contacts.len(),
    ensures
        sorted_by(contacts, by_source_id()).len() == contacts.len(),
        !text_before(
            sorted_by(contacts, by_source_id())[j].source_id,
            sorted_by(contacts, by_source_id())[i].source_id,
        ),
{
    let sorted = sorted_by(contacts, by_source_id());
    law_listings_are_in_order(seq![], seq![], contacts);
    contacts.to_multiset_ensures();
    sorted.to_multiset_ensures();
    assert(!by_source_id()(sorted[j], sorted[i]));
}

/// A count is told under the name of what was counted.
pub proof fn law_counts_are_told_with_their_operation(operation: Seq<char>, count: nat)
    ensures
        count_view(operation, count) is Object,
        count_view(operation, count)->Object_0 == seq![
            ("count"@, JsonView::Number(JsonNumberView::Unsigned(count as u64))),
            ("operation"@, JsonView::Text(operation)),
        ],
{
}

} // verus!
