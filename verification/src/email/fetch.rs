//! Which emails are fetched, and in which requests.

use vstd::prelude::*;
use crate::decimal::{decimal, unsigned_text};
use crate::email::envelope::{EmailEnvelope, EmailEnvelopeView};
use crate::email::parse::{email_of, parse_email};
use crate::email::EmailProvider;
use crate::error::{IrisError, IrisErrorView};
use crate::model::randomly_named;
use crate::text::{join, joined, views};
use crate::time::Timestamp;

verus! {

/// Controls which UIDs a fetch selects.
///
/// At most one of `since_uid` or `limit` should be given. If both are absent, the most recent
/// messages are returned up to the configured safety cap.
#[derive(Clone, Copy, Debug, PartialEq, Eq, Structural)]
pub struct FetchOptions {
    /// If set, only fetch messages whose UID is greater than this value (incremental sync
    /// cursor). The result is ordered oldest-first.
    pub since_uid: Option<u32>,
    /// Maximum number of messages to return, applied after the UID filter.
    pub limit: Option<u32>,
}

impl Default for FetchOptions {
    fn default() -> (r: FetchOptions)
        ensures
            r == (FetchOptions { since_uid: None, limit: None }),
    {
        FetchOptions { since_uid: None, limit: None }
    }
}

/// Whether a UID is behind the cursor.
pub open spec fn behind_cursor(uid: u32, options: FetchOptions) -> bool {
    options.since_uid matches Some(since) ==> uid > since
}

/// How many UIDs are selected at most.
pub open spec fn cap(options: FetchOptions, max_messages: u32) -> int {
    match options.limit {
        Some(limit) => if limit < max_messages {
            limit as int
        } else {
            max_messages as int
        },
        None => max_messages as int,
    }
}

/// Whether `r` holds, in ascending order and each once, the greatest of the UIDs behind the
/// cursor, as many as allowed.
pub open spec fn selects(r: Seq<u32>, uids: Seq<u32>, options: FetchOptions, max: int) -> bool {
    &&& r.len() <= max
    &&& forall|i: int, j: int| 0 <= i < j < r.len() ==> r[i] < r[j]
    &&& forall|i: int|
        0 <= i < r.len() ==> uids.contains(#[trigger] r[i]) && behind_cursor(r[i], options)
    &&& forall|u: u32| #[trigger]
        uids.contains(u) && behind_cursor(u, options) && !r.contains(u) ==> r.len() == max
            && forall|i: int| 0 <= i < r.len() ==> u < #[trigger] r[i]
}

/// Selects the UIDs to fetch: those behind the cursor, the greatest of them as far as the limit
/// and the safety cap allow, in ascending order.
pub fn select_uids(uids: Vec<u32>, options: &FetchOptions, max_messages: u32) -> (r: Vec<u32>)
    ensures
        selects(r@, uids@, *options, cap(*options, max_messages)),
{
    let max: u32 = match options.limit {
        Some(limit) => if limit < max_messages {
            limit
        } else {
            max_messages
        },
        None => max_messages,
    };
    let mut out: Vec<u32> = Vec::new();
    let mut i: usize = 0;
    assert(selects(out@, uids@.take(0), *options, max as int));
    while i < uids.len()
        invariant
            i <= uids@.len(),
            max == cap(*options, max_messages),
            selects(out@, uids@.take(i as int), *options, max as int),
        decreases uids@.len() - i,
    {
        let uid: u32 = uids[i];
        let ghost seen = uids@.take(i as int);
        let ghost next = uids@.take(i + 1);
        proof {
            assert(next =~= seen.push(uid));
            lemma_push_contains(seen, uid);
        }
        let wanted = match options.since_uid {
            Some(since) => uid > since,
            None => true,
        };
        if wanted {
            let ghost before = out@;
            let mut at: usize = out.len();
            while at > 0 && out[at - 1] > uid
                invariant
                    at <= out@.len(),
                    out@ == before,
                    forall|j: int| at <= j < out@.len() ==> out@[j] > uid,
                decreases at,
            {
                at -= 1;
            }
            if at > 0 && out[at - 1] == uid {
                assert(out@.contains(uid)) by {
                    assert(out@[at - 1] == uid);
                }
            } else if out.len() < max as usize {
                out.insert(at, uid);
                proof {
                    lemma_added(before, seen, *options, max as int, uid, at as int);
                }
            } else if at > 0 {
                out.insert(at, uid);
                let _least: u32 = out.remove(0);
                proof {
                    lemma_exchanged(before, seen, *options, max as int, uid, at as int);
                    assert(out@ =~= before.insert(at as int, uid).drop_first());
                }
            } else {
                assert(forall|j: int| 0 <= j < out@.len() ==> uid < #[trigger] out@[j]);
            }
        }
        assert(selects(out@, next, *options, max as int));
        i += 1;
    }
    assert(uids@.take(uids@.len() as int) =~= uids@);
    out
}

proof fn lemma_push_contains(seen: Seq<u32>, uid: u32)
    ensures
        forall|u: u32| #[trigger] seen.push(uid).contains(u) <==> u == uid || seen.contains(u),
{
    assert forall|u: u32| #[trigger] seen.push(uid).contains(u) <==> u == uid || seen.contains(u) by {
        if seen.contains(u) {
            let k = choose|k: int| 0 <= k < seen.len() && seen[k] == u;
            assert(seen.push(uid)[k] == u);
        }
        if u == uid {
            assert(seen.push(uid)[seen.len() as int] == u);
        }
        if seen.push(uid).contains(u) && u != uid {
            let k = choose|k: int| 0 <= k < seen.push(uid).len() && seen.push(uid)[k] == u;
            assert(seen[k] == u);
        }
    }
}

proof fn lemma_insert_contains(r: Seq<u32>, at: int, uid: u32)
    requires
        0 <= at <= r.len(),
    ensures
        forall|u: u32| #[trigger] r.insert(at, uid).contains(u) <==> u == uid || r.contains(u),
{
    let out = r.insert(at, uid);
    assert forall|u: u32| #[trigger] out.contains(u) <==> u == uid || r.contains(u) by {
        if r.contains(u) {
            let k = choose|k: int| 0 <= k < r.len() && r[k] == u;
            if k < at {
                assert(out[k] == u);
            } else {
                assert(out[k + 1] == u);
            }
        }
        if u == uid {
            assert(out[at] == u);
        }
        if out.contains(u) && u != uid {
            let k = choose|k: int| 0 <= k < out.len() && out[k] == u;
            if k < at {
                assert(r[k] == u);
            } else {
                assert(r[k - 1] == u);
            }
        }
    }
}

proof fn lemma_added(r: Seq<u32>, seen: Seq<u32>, options: FetchOptions, max: int, uid: u32, at: int)
    requires
        selects(r, seen, options, max),
        r.len() < max,
        behind_cursor(uid, options),
        0 <= at <= r.len(),
        forall|j: int| at <= j < r.len() ==> r[j] > uid,
        at > 0 ==> r[at - 1] < uid,
    ensures
        selects(r.insert(at, uid), seen.push(uid), options, max),
{
    let out = r.insert(at, uid);
    lemma_insert_contains(r, at, uid);
    lemma_push_contains(seen, uid);
    assert forall|i: int, j: int| 0 <= i < j < out.len() implies out[i] < out[j] by {
        if j < at {
            assert(r[i] < r[j]);
        } else if i >= at {
            if i > at {
                assert(r[i - 1] < r[j - 1]);
            }
        } else if j > at {
            assert(r[i] < r[j - 1]);
        } else if i < at - 1 {
            assert(r[i] < r[at - 1]);
        }
    }
    assert forall|i: int| 0 <= i < out.len() implies seen.push(uid).contains(#[trigger] out[i])
        && behind_cursor(out[i], options) by {
        if i < at {
            assert(seen.contains(r[i]));
        } else if i > at {
            assert(seen.contains(r[i - 1]));
        }
    }
    assert forall|u: u32| #[trigger]
        seen.push(uid).contains(u) && behind_cursor(u, options) && !out.contains(u) implies out.len()
        == max && forall|i: int| 0 <= i < out.len() ==> u < #[trigger] out[i] by {
        assert(seen.contains(u));
        assert(!r.contains(u));
        assert(r.len() == max);
    }
}

proof fn lemma_exchanged(
    r: Seq<u32>,
    seen: Seq<u32>,
    options: FetchOptions,
    max: int,
    uid: u32,
    at: int,
)
    requires
        selects(r, seen, options, max),
        r.len() == max,
        behind_cursor(uid, options),
        0 < at <= r.len(),
        forall|j: int| at <= j < r.len() ==> r[j] > uid,
        r[at - 1] < uid,
    ensures
        selects(r.insert(at, uid).drop_first(), seen.push(uid), options, max),
{
    let longer = r.insert(at, uid);
    let out = longer.drop_first();
    lemma_insert_contains(r, at, uid);
    lemma_push_contains(seen, uid);
    assert(longer[0] == r[0]);
    assert forall|i: int, j: int| 0 <= i < j < longer.len() implies longer[i] < longer[j] by {
        if j < at {
            assert(r[i] < r[j]);
        } else if i >= at {
            if i > at {
                assert(r[i - 1] < r[j - 1]);
            }
        } else if j > at {
            assert(r[i] < r[j - 1]);
        } else if i < at - 1 {
            assert(r[i] < r[at - 1]);
        }
    }
    assert forall|i: int, j: int| 0 <= i < j < out.len() implies out[i] < out[j] by {
        assert(longer[i + 1] < longer[j + 1]);
    }
    assert forall|i: int| 0 <= i < out.len() implies seen.push(uid).contains(#[trigger] out[i])
        && behind_cursor(out[i], options) by {
        let k = i + 1;
        assert(out[i] == longer[k]);
        if k < at {
            assert(seen.contains(r[k]));
        } else if k > at {
            assert(seen.contains(r[k - 1]));
        }
    }
    assert forall|u: u32| #[trigger]
        seen.push(uid).contains(u) && behind_cursor(u, options) && !out.contains(u) implies out.len()
        == max && forall|i: int| 0 <= i < out.len() ==> u < #[trigger] out[i] by {
        assert(u <= r[0]) by {
            if longer.contains(u) {
                let k = choose|k: int| 0 <= k < longer.len() && longer[k] == u;
                if k > 0 {
                    assert(out[k - 1] == u);
                }
            } else {
                assert(u != uid);
                assert(seen.contains(u));
                assert(!r.contains(u));
                assert(u < r[0]);
            }
        }
        assert forall|i: int| 0 <= i < out.len() implies u < #[trigger] out[i] by {
            assert(longer[0] < longer[i + 1]);
        }
    }
}

/// The result of a fetch, including mailbox metadata needed for incremental sync.
#[derive(Debug, PartialEq, Eq)]
pub struct FetchResult {
    /// Parsed email envelopes, ordered oldest-first.
    pub messages: Vec<EmailEnvelope>,
    /// The UIDVALIDITY of the mailbox at the time of the fetch. If this changes between syncs,
    /// all cached UIDs are invalidated.
    pub uid_validity: Option<u32>,
    /// The highest UID in the fetched set. Callers can persist this as a sync cursor and pass it
    /// as [`FetchOptions::since_uid`] on the next call to retrieve only messages that arrived
    /// since.
    pub last_uid: Option<u32>,
}

/// What a fetch needs next.
#[derive(Debug, PartialEq, Eq)]
pub enum FetchAction {
    /// Fetch the messages of a set of UIDs.
    Fetch(String),
    /// Log out: everything is there.
    Finish,
}

/// A fetch under way, page by page.
#[derive(Debug)]
pub struct FetchRun {
    uids: Vec<u32>,
    uid_validity: Option<u32>,
    page_size: u32,
    next: usize,
    messages: Vec<EmailEnvelope>,
}

/// The mathematical value of a fetch under way.
#[verifier::ext_equal]
pub struct FetchView {
    pub uids: Seq<u32>,
    pub uid_validity: Option<u32>,
    pub page_size: int,
    /// How many UIDs have been asked for.
    pub next: int,
    pub messages: Seq<EmailEnvelopeView>,
}

/// How far a page reaches.
pub open spec fn page_end(next: int, page_size: int, total: int) -> int {
    if next + page_size < total {
        next + page_size
    } else {
        total
    }
}

/// The texts of UIDs.
pub open spec fn uid_texts(uids: Seq<u32>) -> Seq<Seq<char>> {
    uids.map_values(|uid: u32| decimal(uid as int))
}

impl FetchView {
    /// The UIDs of the page that is asked for next.
    pub open spec fn page(self) -> Seq<u32> {
        self.uids.subrange(self.next, page_end(self.next, self.page_size, self.uids.len() as int))
    }
}

impl View for FetchRun {
    type V = FetchView;

    closed spec fn view(&self) -> FetchView {
        FetchView {
            uids: self.uids@,
            uid_validity: self.uid_validity,
            page_size: self.page_size as int,
            next: self.next as int,
            messages: views(self.messages@),
        }
    }
}

impl FetchRun {
    #[verifier::type_invariant]
    spec fn well_formed(self) -> bool {
        &&& self.page_size > 0
        &&& self.next <= self.uids@.len()
        &&& forall|i: int|
            0 <= i < self.messages@.len() ==> randomly_named(
                (#[trigger] self.messages@[i]).attachments@,
            )
    }

    /// A fetch of what the options select among the UIDs of a mailbox.
    pub fn start(
        provider: &EmailProvider,
        found: Vec<u32>,
        uid_validity: Option<u32>,
        options: &FetchOptions,
    ) -> (r: FetchRun)
        requires
            provider.page_size > 0,
        ensures
            selects(r@.uids, found@, *options, cap(*options, provider.max_messages)),
            r@.uid_validity == uid_validity,
            r@.page_size == provider.page_size,
            r@.next == 0,
            r@.messages == Seq::<EmailEnvelopeView>::empty(),
    {
        let uids = select_uids(found, options, provider.max_messages);
        let messages: Vec<EmailEnvelope> = Vec::new();
        assert(views(messages@) =~= Seq::<EmailEnvelopeView>::empty());
        FetchRun { uids, uid_validity, page_size: provider.page_size, next: 0, messages }
    }

    /// What the fetch needs next: the messages of the next page, or nothing more.
    pub fn action(&self) -> (r: FetchAction)
        ensures
            0 <= self@.next <= self@.uids.len(),
            self@.page_size > 0,
            r is Fetch <==> self@.next < self@.uids.len(),
            r matches FetchAction::Fetch(sequence) ==> sequence@ == joined(
                uid_texts(self@.page()),
                ","@,
            ),
    {
        proof {
            use_type_invariant(self);
        }
        if self.next >= self.uids.len() {
            return FetchAction::Finish;
        }
        let end: usize = self.page_limit();
        let mut parts: Vec<String> = Vec::new();
        let mut i: usize = self.next;
        while i < end
            invariant
                self.next <= i <= end,
                end <= self.uids@.len(),
                parts@.len() == i - self.next,
                forall|j: int|
                    0 <= j < parts@.len() ==> (#[trigger] parts@[j])@ == decimal(
                        self.uids@[self.next + j] as int,
                    ),
            decreases end - i,
        {
            parts.push(unsigned_text(self.uids[i] as u64));
            i += 1;
        }
        assert(views(parts@) =~= uid_texts(self@.page()));
        FetchAction::Fetch(join(&parts, ","))
    }

    fn page_limit(&self) -> (r: usize)
        ensures
            r == page_end(self@.next, self@.page_size, self@.uids.len() as int),
            self.next <= r <= self.uids@.len(),
    {
        proof {
            use_type_invariant(self);
        }
        let left: usize = self.uids.len() - self.next;
        if (self.page_size as u64) < left as u64 {
            self.next + self.page_size as usize
        } else {
            self.uids.len()
        }
    }

    /// Takes one message that came back, if it has a body.
    pub fn received(&mut self, body: Option<&[u8]>, now: Timestamp)
        ensures
            final(self)@ == (FetchView {
                messages: match body {
                    Some(raw) => old(self)@.messages.push(email_of(raw@, now)),
                    None => old(self)@.messages,
                },
                ..old(self)@
            }),
    {
        proof {
            use_type_invariant(&*self);
        }
        if let Some(raw) = body {
            let email = parse_email(raw, now);
            let ghost known = self.messages@;
            let mut messages: Vec<EmailEnvelope> = Vec::new();
            std::mem::swap(&mut messages, &mut self.messages);
            messages.push(email);
            assert(views(messages@) =~= views(known).push(email@));
            self.messages = messages;
        }
    }

    /// Goes on to the next page.
    pub fn page_done(&mut self)
        ensures
            final(self)@ == (FetchView {
                next: page_end(
                    old(self)@.next,
                    old(self)@.page_size,
                    old(self)@.uids.len() as int,
                ),
                ..old(self)@
            }),
    {
        proof {
            use_type_invariant(&*self);
        }
        let end: usize = self.page_limit();
        self.next = end;
    }

    /// What was fetched.
    pub fn finish(self) -> (r: FetchResult)
        ensures
            views(r.messages@) == self@.messages,
            forall|i: int|
                0 <= i < r.messages@.len() ==> randomly_named(
                    (#[trigger] r.messages@[i]).attachments@,
                ),
            r.uid_validity == self@.uid_validity,
            r.last_uid == (if self@.uids.len() == 0 {
                None
            } else {
                Some(self@.uids.last())
            }),
    {
        proof {
            use_type_invariant(&self);
        }
        let n: usize = self.uids.len();
        let last_uid = if n == 0 {
            None
        } else {
            Some(self.uids[n - 1])
        };
        FetchResult { messages: self.messages, uid_validity: self.uid_validity, last_uid }
    }
}

/// What an IMAP session was doing.
#[derive(Clone, Copy, Debug, PartialEq, Eq, Structural)]
pub enum ImapStep {
    /// Connecting or logging in.
    Connect,
    /// Selecting the mailbox, searching it or fetching from it.
    Request,
}

/// The error of a failed step.
pub fn imap_error(step: ImapStep, message: &str) -> (r: IrisError)
    ensures
        r@ == (match step {
            ImapStep::Connect => IrisErrorView::Transport(message@),
            ImapStep::Request => IrisErrorView::Provider {
                provider: "email"@,
                message: message@,
            },
        }),
{
    match step {
        ImapStep::Connect => IrisError::Transport(message.to_owned()),
        ImapStep::Request => IrisError::Provider {
            provider: "email".to_owned(),
            message: message.to_owned(),
        },
    }
}

/// The pages in which UIDs are fetched from an index on.
pub open spec fn pages(uids: Seq<u32>, next: int, page_size: int) -> Seq<Seq<u32>>
    decreases uids.len() - next,
{
    if page_size > 0 && 0 <= next < uids.len() {
        let end = page_end(next, page_size, uids.len() as int);
        seq![uids.subrange(next, end)] + pages(uids, end, page_size)
    } else {
        seq![]
    }
}

/// The pages of a fetch hold every selected UID once and in order, and none is empty or longer
/// than the page size.
pub proof fn law_pages_cover_the_selection(uids: Seq<u32>, next: int, page_size: int)
    requires
        page_size > 0,
        0 <= next <= uids.len(),
    ensures
        pages(uids, next, page_size).flatten() == uids.skip(next),
        forall|i: int|
            0 <= i < pages(uids, next, page_size).len() ==> 0 < (#[trigger] pages(
                uids,
                next,
                page_size,
            )[i]).len() <= page_size,
    decreases uids.len() - next,
{
    if next < uids.len() {
        let end = page_end(next, page_size, uids.len() as int);
        let first = uids.subrange(next, end);
        let rest = pages(uids, end, page_size);
        law_pages_cover_the_selection(uids, end, page_size);
        let all = pages(uids, next, page_size);
        assert(all == seq![first] + rest);
        assert(all.drop_first() =~= rest);
        assert(all[0] == first);
        assert(all.flatten() == first + rest.flatten());
        assert(first + uids.skip(end) =~= uids.skip(next));
        assert forall|i: int| 0 <= i < all.len() implies 0 < (#[trigger] all[i]).len() <= page_size by {
            if i > 0 {
                assert(all[i] == rest[i - 1]);
            }
        }
    } else {
        assert(uids.skip(next) =~= seq![]);
        assert(pages(uids, next, page_size).flatten() =~= seq![]);
    }
}

/// A selection is determined by the UIDs, the options and the cap.
pub proof fn law_selection_is_determined(
    first: Seq<u32>,
    second: Seq<u32>,
    uids: Seq<u32>,
    options: FetchOptions,
    max: int,
)
    requires
        selects(first, uids, options, max),
        selects(second, uids, options, max),
    ensures
        first == second,
{
    lemma_same_selection(first, second, uids, options, max);
    lemma_same_selection(second, first, uids, options, max);
    lemma_ascending_equal(first, second);
}

proof fn lemma_same_selection(
    first: Seq<u32>,
    second: Seq<u32>,
    uids: Seq<u32>,
    options: FetchOptions,
    max: int,
)
    requires
        selects(first, uids, options, max),
        selects(second, uids, options, max),
    ensures
        forall|i: int| 0 <= i < first.len() ==> second.contains(#[trigger] first[i]),
{
    assert forall|i: int| 0 <= i < first.len() implies second.contains(#[trigger] first[i]) by {
        let u = first[i];
        if !second.contains(u) {
            assert(uids.contains(u));
            assert(second.len() == max);
            assert forall|j: int| 0 <= j < second.len() implies first.contains(#[trigger] second[j]) by {
                let v = second[j];
                if !first.contains(v) {
                    assert(uids.contains(v));
                    assert(v < first[i]);
                    assert(u < second[j]);
                }
            }
            lemma_subset_length(second, first, u);
        }
    }
}

/// A strictly ascending sequence within another that has one more item is shorter.
proof fn lemma_subset_length(inner: Seq<u32>, outer: Seq<u32>, extra: u32)
    requires
        forall|i: int, j: int| 0 <= i < j < inner.len() ==> inner[i] < inner[j],
        forall|j: int| 0 <= j < inner.len() ==> outer.contains(#[trigger] inner[j]),
        outer.contains(extra),
        !inner.contains(extra),
    ensures
        inner.len() < outer.len(),
{
    let a = inner.to_set();
    let b = outer.to_set();
    inner.unique_seq_to_set();
    vstd::seq_lib::seq_to_set_is_finite(outer);
    vstd::seq_lib::seq_to_set_is_finite(inner);
    outer.lemma_cardinality_of_set();
    assert(a.subset_of(b)) by {
        assert forall|u: u32| a.contains(u) implies b.contains(u) by {
            let j = choose|j: int| 0 <= j < inner.len() && inner[j] == u;
            assert(outer.contains(inner[j]));
        }
    }
    let c = b.remove(extra);
    assert(a.subset_of(c));
    vstd::set_lib::lemma_len_subset(a, c);
}

proof fn lemma_ascending_equal(first: Seq<u32>, second: Seq<u32>)
    requires
        forall|i: int, j: int| 0 <= i < j < first.len() ==> first[i] < first[j],
        forall|i: int, j: int| 0 <= i < j < second.len() ==> second[i] < second[j],
        forall|i: int| 0 <= i < first.len() ==> second.contains(#[trigger] first[i]),
        forall|i: int| 0 <= i < second.len() ==> first.contains(#[trigger] second[i]),
    ensures
        first == second,
    decreases first.len(),
{
    if first.len() == 0 {
        if second.len() > 0 {
            assert(first.contains(second[0]));
        }
        assert(first =~= second);
    } else {
        assert(second.contains(first[0]));
        assert(second.len() > 0);
        let n = first.len() - 1;
        let m = second.len() - 1;
        assert(second.contains(first[n]));
        assert(first.contains(second[m]));
        let i = choose|i: int| 0 <= i < second.len() && second[i] == first[n];
        let j = choose|j: int| 0 <= j < first.len() && first[j] == second[m];
        assert(first[n] == second[m]) by {
            if i < m {
                assert(second[i] < second[m]);
            }
            if j < n {
                assert(first[j] < first[n]);
            }
        }
        let a = first.drop_last();
        let b = second.drop_last();
        assert forall|k: int| 0 <= k < a.len() implies b.contains(#[trigger] a[k]) by {
            assert(first[k] < first[n]);
            assert(second.contains(first[k]));
            let l = choose|l: int| 0 <= l < second.len() && second[l] == first[k];
            assert(l < m);
            assert(b[l] == a[k]);
        }
        assert forall|k: int| 0 <= k < b.len() implies a.contains(#[trigger] b[k]) by {
            assert(second[k] < second[m]);
            assert(first.contains(second[k]));
            let l = choose|l: int| 0 <= l < first.len() && first[l] == second[k];
            assert(l < n);
            assert(a[l] == b[k]);
        }
        lemma_ascending_equal(a, b);
        assert(first =~= a.push(first[n]));
        assert(second =~= b.push(second[m]));
    }
}

/// A sync that starts at the last UID of an earlier fetch fetches nothing again, and misses
/// nothing newer unless the limit keeps it back.
pub proof fn law_sync_goes_on_behind_the_last_uid(
    fetched: Seq<u32>,
    earlier: Seq<u32>,
    options: FetchOptions,
    max: int,
    later: Seq<u32>,
    synced: Seq<u32>,
    next_max: int,
)
    requires
        selects(fetched, earlier, options, max),
        fetched.len() > 0,
        selects(
            synced,
            later,
            (FetchOptions { since_uid: Some(fetched.last()), limit: None }),
            next_max,
        ),
    ensures
        forall|i: int| 0 <= i < synced.len() ==> !fetched.contains(#[trigger] synced[i]),
        forall|u: u32| #[trigger]
            later.contains(u) && u > fetched.last() && synced.len() < next_max ==> synced.contains(u),
{
    let since = (FetchOptions { since_uid: Some(fetched.last()), limit: None });
    assert forall|i: int| 0 <= i < synced.len() implies !fetched.contains(#[trigger] synced[i]) by {
        assert(behind_cursor(synced[i], since));
        if fetched.contains(synced[i]) {
            let k = choose|k: int| 0 <= k < fetched.len() && fetched[k] == synced[i];
            if k < fetched.len() - 1 {
                assert(fetched[k] < fetched[fetched.len() - 1]);
            }
        }
    }
    assert forall|u: u32| #[trigger]
        later.contains(u) && u > fetched.last() && synced.len() < next_max implies synced.contains(u) by {
        assert(behind_cursor(u, since));
    }
}

/// A fetch selects no more than the limit and the cap allow, behind the cursor only, and the latest
/// where it cannot take all.
pub proof fn law_the_latest_uids_are_selected(
    selected: Seq<u32>,
    uids: Seq<u32>,
    options: FetchOptions,
    max_messages: u32,
)
    requires
        selects(selected, uids, options, cap(options, max_messages)),
    ensures
        selected.len() <= max_messages,
        options.limit matches Some(limit) ==> selected.len() <= limit,
        forall|i: int|
            0 <= i < selected.len() ==> uids.contains(#[trigger] selected[i]) && (
            options.since_uid matches Some(since) ==> selected[i] > since),
        forall|i: int, j: int| 0 <= i < j < selected.len() ==> selected[i] < selected[j],
        forall|u: u32| #[trigger]
            uids.contains(u) && (options.since_uid matches Some(since) ==> u > since)
                && !selected.contains(u) ==> {
                &&& selected.len() == max_messages || options.limit == Some(selected.len() as u32)
                &&& forall|i: int| 0 <= i < selected.len() ==> u < #[trigger] selected[i]
            },
{
}

/// A request for a page names its UIDs with commas between them; a page goes from where the fetch
/// has come to, for as many messages as a page has, or to the end.
pub proof fn law_requests_name_the_uids_of_a_page(fetch: FetchView, uids: Seq<u32>, uid: u32)
    requires
        0 <= fetch.next <= fetch.uids.len(),
        fetch.page_size > 0,
    ensures
        joined(uid_texts(seq![uid]), ","@) == decimal(uid as int),
        uids.len() > 0 ==> joined(uid_texts(uids.push(uid)), ","@) == joined(uid_texts(uids), ","@)
            + ","@ + decimal(uid as int),
        fetch.page().len() == (if fetch.uids.len() - fetch.next < fetch.page_size {
            fetch.uids.len() - fetch.next
        } else {
            fetch.page_size
        }),
        forall|i: int|
            0 <= i < fetch.page().len() ==> #[trigger] fetch.page()[i] == fetch.uids[fetch.next + i],
{
    assert(uid_texts(seq![uid]) =~= seq![decimal(uid as int)]);
    assert(uid_texts(uids.push(uid)).drop_last() =~= uid_texts(uids));
    assert(uid_texts(uids.push(uid)).last() == decimal(uid as int));
}

} // verus!
