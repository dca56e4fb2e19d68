//! What the command line and the tool server decide around their providers and stores.

use vstd::prelude::*;
use crate::audit::{json_time, time_view, AuditAction, AuditFilter};
use crate::config::registry::{below, path_below};
use crate::error::{prefixed, IrisError, IrisErrorView};
use crate::ids::uuid_text;
use crate::ingest::IngestOutcome;
use crate::json::{json_object, json_text, member, member_views, Json, JsonView};
use crate::model::{Thread, ThreadView};
use crate::outbound::{OutboundAttachment, OutboundAttachmentView};
use crate::text::{str_eq, view_list, view_opt, view_result, view_unit, views};
use crate::time::{law_earlier_points_come_first, rfc3339_parsed, Timestamp};
use crate::wire::{PlannedAttachment, PlannedAttachmentView};

verus! {

/// Whether a list holds a text.
pub fn holds_text(items: &Vec<String>, text: &str) -> (r: bool)
    ensures
        r == views(items@).contains(text@),
{
    let ghost all = views(items@);
    let mut i: usize = 0;
    while i < items.len()
        invariant
            i <= items@.len(),
            all == views(items@),
            forall|j: int| 0 <= j < i ==> all[j] != text@,
        decreases items@.len() - i,
    {
        assert(all[i as int] == items@[i as int]@);
        if str_eq(items[i].as_str(), text) {
            return true;
        }
        i += 1;
    }
    false
}

/// Why batches of a source are refused, if they are: every source has to be configured, with a
/// secret.
pub open spec fn source_refusal(
    source: Seq<char>,
    sources: Seq<Seq<char>>,
    secret_sources: Seq<Seq<char>>,
) -> Option<Seq<char>> {
    if !sources.contains(source) {
        Some("ingest source is not configured: "@ + source)
    } else if !secret_sources.contains(source) {
        Some("ingest source secret is not configured: "@ + source)
    } else {
        None
    }
}

/// Admits batches of a source that is configured with a secret.
pub fn admit_source(source: &str, sources: &Vec<String>, secret_sources: &Vec<String>) -> (r: Result<
    (),
    String,
>)
    ensures
        view_unit(r) == (match source_refusal(source@, views(sources@), views(secret_sources@)) {
            Some(error) => Err::<(), Seq<char>>(error),
            None => Ok(()),
        }),
{
    if !holds_text(sources, source) {
        return Err(prefixed("ingest source is not configured: ", source));
    }
    if !holds_text(secret_sources, source) {
        return Err(prefixed("ingest source secret is not configured: ", source));
    }
    Ok(())
}

/// What is answered to a batch.
pub open spec fn ingest_answer(outcome: IngestOutcome) -> Result<JsonView, Seq<char>> {
    match outcome {
        IngestOutcome::Applied { committed_at } => Ok(committed_view("applied"@, committed_at)),
        IngestOutcome::AlreadyApplied { committed_at } => Ok(
            committed_view("already_applied"@, committed_at),
        ),
        IngestOutcome::ReplayConflict => Err("replay key conflicts with an existing batch"@),
    }
}

/// A commit in JSON.
pub open spec fn committed_view(outcome: Seq<char>, committed_at: Timestamp) -> JsonView {
    JsonView::Object(
        seq![
            ("committed_at"@, time_view(committed_at)),
            ("outcome"@, JsonView::Text(outcome)),
        ],
    )
}

fn committed_json(outcome: &str, committed_at: &Timestamp) -> (r: Json)
    ensures
        r@ == committed_view(outcome@, *committed_at),
{
    let mut members: Vec<(String, Json)> = Vec::new();
    members.push(member("committed_at", json_time(committed_at)));
    members.push(member("outcome", json_text(outcome)));
    assert(member_views(members@) =~= committed_view(outcome@, *committed_at)->Object_0);
    json_object(members)
}

/// The answer to a batch: when it was committed, or that its replay key is taken.
pub fn ingest_result(outcome: &IngestOutcome) -> (r: Result<Json, String>)
    ensures
        view_result(r) == ingest_answer(*outcome),
{
    match outcome {
        IngestOutcome::Applied { committed_at } => Ok(committed_json("applied", committed_at)),
        IngestOutcome::AlreadyApplied { committed_at } => Ok(
            committed_json("already_applied", committed_at),
        ),
        IngestOutcome::ReplayConflict => Err(
            "replay key conflicts with an existing batch".to_owned(),
        ),
    }
}

/// The action that a name stands for.
pub open spec fn action_named(name: Seq<char>) -> Result<AuditAction, Seq<char>> {
    if name == "normalize"@ {
        Ok(AuditAction::Normalize)
    } else if name == "send"@ {
        Ok(AuditAction::Send)
    } else if name == "fetch_attachment"@ {
        Ok(AuditAction::FetchAttachment)
    } else {
        Err(
            "unknown variant `"@ + name
                + "`, expected one of `normalize`, `send`, `fetch_attachment`"@,
        )
    }
}

/// The result of reading something that needs no view.
pub open spec fn read_result<A>(r: Result<A, String>) -> Result<A, Seq<char>> {
    match r {
        Ok(a) => Ok(a),
        Err(error) => Err(error@),
    }
}

/// Reads the name of an action.
pub fn parse_action(name: &str) -> (r: Result<AuditAction, String>)
    ensures
        read_result(r) == action_named(name@),
{
    if str_eq(name, "normalize") {
        return Ok(AuditAction::Normalize);
    }
    if str_eq(name, "send") {
        return Ok(AuditAction::Send);
    }
    if str_eq(name, "fetch_attachment") {
        return Ok(AuditAction::FetchAttachment);
    }
    let mut message = prefixed("unknown variant `", name);
    message.append("`, expected one of `normalize`, `send`, `fetch_attachment`");
    Err(message)
}

/// The point in time that a text stands for, if there is one.
pub open spec fn moment_named(text: Option<Seq<char>>) -> Result<Option<(i64, u32)>, Seq<char>> {
    match text {
        None => Ok(None),
        Some(text) => match rfc3339_parsed(text) {
            Ok(at) => Ok(Some(at)),
            Err(error) => Err(error),
        },
    }
}

/// The parts of an optional point in time.
pub open spec fn moment_parts(at: Option<Timestamp>) -> Option<(i64, u32)> {
    match at {
        Some(at) => Some((at.secs(), at.nanos())),
        None => None,
    }
}

/// The parts of what reading a point in time gave.
pub open spec fn moment_result(r: Result<Option<Timestamp>, String>) -> Result<
    Option<(i64, u32)>,
    Seq<char>,
> {
    match r {
        Ok(at) => Ok(moment_parts(at)),
        Err(error) => Err(error@),
    }
}

/// Reads an optional RFC 3339 time.
pub fn parse_moment(text: Option<&str>) -> (r: Result<Option<Timestamp>, String>)
    ensures
        moment_result(r) == moment_named(
            match text {
                Some(text) => Some(text@),
                None => None,
            },
        ),
{
    match text {
        None => Ok(None),
        Some(text) => match Timestamp::parse_rfc3339(text) {
            Ok(at) => Ok(Some(at)),
            Err(error) => Err(error),
        },
    }
}

/// Whether a window of time is the wrong way round.
pub open spec fn inverted(since: Option<Timestamp>, until: Option<Timestamp>) -> bool {
    since is Some && until is Some && until->0.earlier(since->0)
}

/// The mathematical value of a filter.
#[verifier::ext_equal]
pub struct FilterView {
    pub provider: Option<Seq<char>>,
    pub action: Option<AuditAction>,
    pub since: Option<Timestamp>,
    pub until: Option<Timestamp>,
    pub limit: Option<usize>,
    pub source_id: Option<Seq<char>>,
}

/// The mathematical value of a filter.
pub open spec fn filter_view(filter: AuditFilter) -> FilterView {
    FilterView {
        provider: view_opt(filter.provider),
        action: filter.action,
        since: filter.since,
        until: filter.until,
        limit: filter.limit,
        source_id: view_opt(filter.source_id),
    }
}

/// What making a filter gave.
pub open spec fn filter_result(r: Result<AuditFilter, String>) -> Result<FilterView, Seq<char>> {
    match r {
        Ok(filter) => Ok(filter_view(filter)),
        Err(error) => Err(error@),
    }
}

/// The filter of an audit query, unless its window is the wrong way round.
pub open spec fn audit_selection(
    provider: Option<Seq<char>>,
    action: Option<AuditAction>,
    since: Option<Timestamp>,
    until: Option<Timestamp>,
    source_id: Option<Seq<char>>,
    limit: Option<u32>,
) -> Result<FilterView, Seq<char>> {
    if inverted(since, until) {
        Err("since must be before or equal to until"@)
    } else {
        Ok(
            FilterView {
                provider,
                action,
                since,
                until,
                limit: match limit {
                    Some(limit) => Some(limit as usize),
                    None => None,
                },
                source_id,
            },
        )
    }
}

/// The filter of an audit query, unless its window is the wrong way round.
pub fn audit_filter(
    provider: Option<String>,
    action: Option<AuditAction>,
    since: Option<Timestamp>,
    until: Option<Timestamp>,
    source_id: Option<String>,
    limit: Option<u32>,
) -> (r: Result<AuditFilter, String>)
    ensures
        filter_result(r) == audit_selection(
            view_opt(provider),
            action,
            since,
            until,
            view_opt(source_id),
            limit,
        ),
{
    if let Some(since) = &since {
        if let Some(until) = &until {
            if until.is_earlier(since) {
                return Err("since must be before or equal to until".to_owned());
            }
        }
    }
    let limit = match limit {
        Some(limit) => Some(limit as usize),
        None => None,
    };
    Ok(AuditFilter { provider, action, since, until, limit, source_id })
}

/// An audit query in the words of the command line.
#[derive(Debug)]
pub struct AuditQueryArgs {
    /// Include only events emitted by this provider.
    pub provider: Option<String>,
    /// Include only this operation type.
    pub action: Option<String>,
    /// Include entries at or after this RFC 3339 time.
    pub since: Option<String>,
    /// Include entries at or before this RFC 3339 time.
    pub until: Option<String>,
    /// Include only this provider-specific source ID.
    pub source_id: Option<String>,
    /// Maximum number of entries returned.
    pub limit: Option<u32>,
}

/// A point in time from the parts that were read.
pub open spec fn moment_of(parts: Option<(i64, u32)>) -> Option<Timestamp> {
    match parts {
        Some(parts) => Some(Timestamp::at(parts.0, parts.1)),
        None => None,
    }
}

/// The filter of an audit query whose action and times have been read: the first that could not
/// be read is the error.
pub open spec fn query_selection(
    args: AuditQueryArgs,
    action: Option<Result<AuditAction, Seq<char>>>,
    since: Result<Option<(i64, u32)>, Seq<char>>,
    until: Result<Option<(i64, u32)>, Seq<char>>,
) -> Result<FilterView, Seq<char>> {
    match (action, since, until) {
        (Some(Err(error)), _, _) => Err(error),
        (_, Err(error), _) => Err(error),
        (_, _, Err(error)) => Err(error),
        (_, Ok(since), Ok(until)) => audit_selection(
            view_opt(args.provider),
            match action {
                Some(Ok(action)) => Some(action),
                _ => None,
            },
            moment_of(since),
            moment_of(until),
            view_opt(args.source_id),
            args.limit,
        ),
    }
}

/// The filter of an audit query in the words of the command line.
pub fn audit_query_filter(args: AuditQueryArgs) -> (r: Result<AuditFilter, String>)
    ensures
        filter_result(r) == query_selection(
            args,
            match args.action {
                Some(name) => Some(action_named(name@)),
                None => None,
            },
            moment_named(view_opt(args.since)),
            moment_named(view_opt(args.until)),
        ),
{
    let action = match &args.action {
        None => None,
        Some(name) => match parse_action(name.as_str()) {
            Ok(action) => Some(action),
            Err(error) => {
                return Err(error);
            },
        },
    };
    let since = match parse_moment(
        match &args.since {
            Some(since) => Some(since.as_str()),
            None => None,
        },
    ) {
        Ok(since) => since,
        Err(error) => {
            return Err(error);
        },
    };
    let until = match parse_moment(
        match &args.until {
            Some(until) => Some(until.as_str()),
            None => None,
        },
    ) {
        Ok(until) => until,
        Err(error) => {
            return Err(error);
        },
    };
    proof {
        if let Some(since) = since {
            crate::time::lemma_timestamp_whole(since);
        }
        if let Some(until) = until {
            crate::time::lemma_timestamp_whole(until);
        }
        assert(moment_of(moment_parts(since)) == since);
        assert(moment_of(moment_parts(until)) == until);
    }
    audit_filter(args.provider, action, since, until, args.source_id, args.limit)
}

/// Whether one of the threads has the identifier.
pub open spec fn owns(threads: Seq<ThreadView>, thread_id: Seq<char>) -> bool {
    exists|i: int| 0 <= i < threads.len() && uuid_text(#[trigger] threads[i].id.value) == thread_id
}

/// How the search for the provider of a thread goes on.
#[derive(Debug)]
pub enum OwnerStep {
    /// The provider at this index has to list its threads.
    Ask(usize),
    /// The provider at this index has the thread.
    Found(usize),
    /// No provider has it.
    Missing(IrisError),
}

/// The mathematical value of a step.
#[verifier::ext_equal]
pub enum OwnerStepView {
    Ask(usize),
    Found(usize),
    Missing(IrisErrorView),
}

impl View for OwnerStep {
    type V = OwnerStepView;

    open spec fn view(&self) -> OwnerStepView {
        match *self {
            OwnerStep::Ask(i) => OwnerStepView::Ask(i),
            OwnerStep::Found(i) => OwnerStepView::Found(i),
            OwnerStep::Missing(error) => OwnerStepView::Missing(error@),
        }
    }
}

/// The step to the provider at an index, of so many.
pub open spec fn ask_from(i: int, count: usize, thread_id: Seq<char>) -> OwnerStepView {
    if i < count {
        OwnerStepView::Ask(i as usize)
    } else {
        OwnerStepView::Missing(IrisErrorView::NotFound("thread not found: "@ + thread_id))
    }
}

/// Starts the search for the provider of a thread.
pub fn find_owner(count: usize, thread_id: &str) -> (r: OwnerStep)
    ensures
        r@ == ask_from(0, count, thread_id@),
{
    ask_owner(0, count, thread_id)
}

fn ask_owner(i: usize, count: usize, thread_id: &str) -> (r: OwnerStep)
    ensures
        r@ == ask_from(i as int, count, thread_id@),
{
    if i < count {
        OwnerStep::Ask(i)
    } else {
        OwnerStep::Missing(IrisError::NotFound(prefixed("thread not found: ", thread_id)))
    }
}

/// Goes on with the search when the provider at an index has listed its threads.
pub fn owner_listed(i: usize, count: usize, threads: &Vec<Thread>, thread_id: &str) -> (r: OwnerStep)
    requires
        i < count,
    ensures
        r@ == (if owns(views(threads@), thread_id@) {
            OwnerStepView::Found(i)
        } else {
            ask_from(i + 1, count, thread_id@)
        }),
{
    let ghost all = views(threads@);
    let mut j: usize = 0;
    while j < threads.len()
        invariant
            j <= threads@.len(),
            all == views(threads@),
            forall|k: int| 0 <= k < j ==> uuid_text(#[trigger] all[k].id.value) != thread_id@,
        decreases threads@.len() - j,
    {
        assert(all[j as int] == threads@[j as int]@);
        if str_eq(threads[j].id.text().as_str(), thread_id) {
            assert(uuid_text(all[j as int].id.value) == thread_id@);
            return OwnerStep::Found(i);
        }
        j += 1;
    }
    ask_owner(i + 1, count, thread_id)
}

/// Where an identifier first stands: its index, or the length.
pub open spec fn id_place(ids: Seq<Seq<char>>, id: Seq<char>) -> int
    decreases ids.len(),
{
    if ids.len() == 0 || ids[0] == id {
        0
    } else {
        1 + id_place(ids.drop_first(), id)
    }
}

/// The index of the provider with an identifier.
pub open spec fn provider_place(ids: Seq<Seq<char>>, id: Seq<char>) -> Result<usize, IrisErrorView> {
    if id_place(ids, id) < ids.len() {
        Ok(id_place(ids, id) as usize)
    } else {
        Err(IrisErrorView::ProviderNotFound(id))
    }
}

/// The index of the provider with an identifier.
pub fn provider_by_id(ids: &Vec<String>, id: &str) -> (r: Result<usize, IrisError>)
    ensures
        (match r {
            Ok(i) => Ok::<usize, IrisErrorView>(i),
            Err(error) => Err(error@),
        }) == provider_place(views(ids@), id@),
{
    let ghost all = views(ids@);
    let mut i: usize = 0;
    assert(all.skip(0) =~= all);
    while i < ids.len()
        invariant
            i <= ids@.len(),
            all == views(ids@),
            id_place(all, id@) == i + id_place(all.skip(i as int), id@),
        decreases ids@.len() - i,
    {
        assert(all.skip(i as int)[0] == ids@[i as int]@);
        if str_eq(ids[i].as_str(), id) {
            return Ok(i);
        }
        assert(all.skip(i as int).drop_first() =~= all.skip(i + 1));
        i += 1;
    }
    Err(IrisError::ProviderNotFound(id.to_owned()))
}

/// The indices of the providers that a message may go to: all, or those with the identifier.
pub open spec fn matching(ids: Seq<Seq<char>>, provider: Option<Seq<char>>) -> Seq<usize>
    decreases ids.len(),
{
    if ids.len() == 0 {
        seq![]
    } else {
        let front = matching(ids.drop_last(), provider);
        if provider is None || ids.last() == provider->0 {
            front.push((ids.len() - 1) as usize)
        } else {
            front
        }
    }
}

/// The providers that a message may go to, unless there is none.
pub open spec fn send_routes(ids: Seq<Seq<char>>, provider: Option<Seq<char>>) -> Result<
    Seq<usize>,
    Seq<char>,
> {
    if matching(ids, provider).len() == 0 {
        Err(
            "provider not available: "@ + (match provider {
                Some(provider) => provider,
                None => seq![],
            }),
        )
    } else {
        Ok(matching(ids, provider))
    }
}

/// The providers that a message may go to, in the order in which they are tried.
pub fn matching_providers(ids: &Vec<String>, provider: Option<&str>) -> (r: Result<Vec<usize>, String>)
    ensures
        (match r {
            Ok(routes) => Ok::<Seq<usize>, Seq<char>>(routes@),
            Err(error) => Err(error@),
        }) == send_routes(
            views(ids@),
            match provider {
                Some(provider) => Some(provider@),
                None => None,
            },
        ),
{
    let ghost all = views(ids@);
    let ghost wanted = match provider {
        Some(provider) => Some(provider@),
        None => None,
    };
    let mut routes: Vec<usize> = Vec::new();
    let mut i: usize = 0;
    assert(all.take(0) =~= seq![]);
    while i < ids.len()
        invariant
            i <= ids@.len(),
            all == views(ids@),
            wanted == (match provider {
                Some(provider) => Some(provider@),
                None => None,
            }),
            routes@ == matching(all.take(i as int), wanted),
        decreases ids@.len() - i,
    {
        let ghost next = all.take(i + 1);
        assert(next.drop_last() =~= all.take(i as int));
        assert(next.last() == ids@[i as int]@);
        let fits = match provider {
            None => true,
            Some(provider) => str_eq(ids[i].as_str(), provider),
        };
        if fits {
            routes.push(i);
        }
        i += 1;
    }
    assert(all.take(all.len() as int) =~= all);
    if routes.len() == 0 {
        let message = prefixed(
            "provider not available: ",
            match provider {
                Some(provider) => provider,
                None => "",
            },
        );
        proof {
            reveal_strlit("");
            assert(""@ =~= seq![]);
        }
        return Err(message);
    }
    Ok(routes)
}

/// How sending goes on when a provider refused a message.
#[derive(Debug)]
pub enum SendStep {
    /// The provider at this place of the route is tried.
    Try(usize),
    /// No provider is left.
    Refused(String),
}

/// How sending goes on when the provider at a place of a route refused.
pub fn send_refused(place: usize, routes: usize) -> (r: SendStep)
    requires
        place < routes,
    ensures
        place + 1 < routes ==> r == SendStep::Try((place + 1) as usize),
        place + 1 == routes ==> (r matches SendStep::Refused(message) && message@
            == "no provider accepted send_message"@),
{
    if place + 1 < routes {
        SendStep::Try(place + 1)
    } else {
        SendStep::Refused("no provider accepted send_message".to_owned())
    }
}

/// The paths that planned attachments read, in order.
pub open spec fn paths_of(planned: Seq<PlannedAttachmentView>) -> Seq<Seq<char>>
    decreases planned.len(),
{
    if planned.len() == 0 {
        seq![]
    } else {
        let front = paths_of(planned.drop_last());
        match planned.last() {
            PlannedAttachmentView::LocalFile { path, .. } => front.push(path),
            PlannedAttachmentView::Stored(_) => front,
        }
    }
}

/// The paths that planned attachments read, in order.
pub fn local_paths(planned: &Vec<PlannedAttachment>) -> (r: Vec<String>)
    ensures
        views(r@) == paths_of(views(planned@)),
{
    let ghost all = views(planned@);
    let mut paths: Vec<String> = Vec::new();
    let mut i: usize = 0;
    assert(all.take(0) =~= seq![]);
    assert(views(paths@) =~= seq![]);
    while i < planned.len()
        invariant
            i <= planned@.len(),
            all == views(planned@),
            views(paths@) == paths_of(all.take(i as int)),
        decreases planned@.len() - i,
    {
        let ghost next = all.take(i + 1);
        assert(next.drop_last() =~= all.take(i as int));
        assert(next.last() == planned@[i as int]@);
        let ghost known = views(paths@);
        match &planned[i] {
            PlannedAttachment::LocalFile { path, .. } => {
                paths.push(path.clone());
                assert(views(paths@) =~= known.push(path@));
            },
            PlannedAttachment::Stored(_) => {},
        }
        i += 1;
    }
    assert(all.take(all.len() as int) =~= all);
    paths
}

/// What reading a file gave.
#[derive(Debug)]
pub enum FileRead {
    /// The contents.
    Bytes(Vec<u8>),
    /// The error of the file system.
    Failed(String),
}

/// The mathematical value of a read.
#[verifier::ext_equal]
pub enum FileReadView {
    Bytes(Seq<u8>),
    Failed(Seq<char>),
}

impl View for FileRead {
    type V = FileReadView;

    open spec fn view(&self) -> FileReadView {
        match *self {
            FileRead::Bytes(bytes) => FileReadView::Bytes(bytes@),
            FileRead::Failed(error) => FileReadView::Failed(error@),
        }
    }
}

/// The attachment that a local file makes.
pub open spec fn file_attachment(
    path: Seq<char>,
    mime_type: Seq<char>,
    filename: Option<Seq<char>>,
    read: FileReadView,
) -> Result<OutboundAttachmentView, Seq<char>> {
    match read {
        FileReadView::Failed(error) => Err("cannot read attachment "@ + path + ": "@ + error),
        FileReadView::Bytes(bytes) => if bytes.len() == 0 {
            Err("attachment file is empty: "@ + path)
        } else {
            Ok(OutboundAttachmentView::Bytes { mime_type, filename, bytes })
        },
    }
}

/// The attachments that a plan makes of what was read: the first file that failed or is empty is
/// the error.
pub open spec fn read_plan(planned: Seq<PlannedAttachmentView>, reads: Seq<FileReadView>) -> Result<
    Seq<OutboundAttachmentView>,
    Seq<char>,
>
    decreases planned.len(),
{
    if planned.len() == 0 {
        Ok(seq![])
    } else {
        match planned.last() {
            PlannedAttachmentView::Stored(id) => match read_plan(planned.drop_last(), reads) {
                Err(error) => Err(error),
                Ok(front) => Ok(front.push(OutboundAttachmentView::Stored(id))),
            },
            PlannedAttachmentView::LocalFile { path, mime_type, filename } => {
                match read_plan(planned.drop_last(), reads.drop_last()) {
                    Err(error) => Err(error),
                    Ok(front) => match file_attachment(path, mime_type, filename, reads.last()) {
                        Err(error) => Err(error),
                        Ok(attachment) => Ok(front.push(attachment)),
                    },
                }
            },
        }
    }
}

proof fn lemma_paths_prefix(planned: Seq<PlannedAttachmentView>, i: int)
    requires
        0 <= i <= planned.len(),
    ensures
        paths_of(planned.take(i)).len() <= paths_of(planned).len(),
        paths_of(planned).len() <= paths_of(planned.take(i)).len() + planned.len() - i,
    decreases planned.len() - i,
{
    if i < planned.len() {
        lemma_paths_prefix(planned, i + 1);
        assert(planned.take(i + 1).drop_last() =~= planned.take(i));
    } else {
        assert(planned.take(i) =~= planned);
    }
}

/// What failed at some point of a plan stays failed.
proof fn lemma_plan_prefix(planned: Seq<PlannedAttachmentView>, reads: Seq<FileReadView>, i: int)
    requires
        0 <= i <= planned.len(),
        reads.len() == paths_of(planned).len(),
        read_plan(planned.take(i), reads.take(paths_of(planned.take(i)).len() as int)) is Err,
    ensures
        read_plan(planned, reads) == read_plan(
            planned.take(i),
            reads.take(paths_of(planned.take(i)).len() as int),
        ),
    decreases planned.len(),
{
    if i == planned.len() {
        assert(planned.take(i) =~= planned);
        assert(reads.take(reads.len() as int) =~= reads);
    } else {
        let front = planned.drop_last();
        assert(front.take(i) =~= planned.take(i));
        lemma_paths_prefix(front, i);
        let used = paths_of(planned.take(i)).len() as int;
        match planned.last() {
            PlannedAttachmentView::Stored(_) => {
                lemma_plan_prefix(front, reads, i);
            },
            PlannedAttachmentView::LocalFile { .. } => {
                assert(reads.drop_last().take(used) =~= reads.take(used));
                lemma_plan_prefix(front, reads.drop_last(), i);
            },
        }
    }
}

/// The attachments that a plan makes of what its files hold, which were read in the order of the
/// plan.
pub fn read_attachments(planned: Vec<PlannedAttachment>, reads: Vec<FileRead>) -> (r: Result<
    Vec<OutboundAttachment>,
    String,
>)
    requires
        reads@.len() == paths_of(views(planned@)).len(),
    ensures
        view_list(r) == read_plan(views(planned@), views(reads@)),
{
    let ghost all = views(planned@);
    let ghost contents = views(reads@);
    let mut rest = reads;
    let mut backwards: Vec<FileRead> = Vec::new();
    let ghost given = rest@;
    while rest.len() > 0
        invariant
            rest@.len() + backwards@.len() == given.len(),
            rest@ == given.take(rest@.len() as int),
            forall|j: int|
                0 <= j < backwards@.len() ==> #[trigger] backwards@[j] == given[given.len() - 1 - j],
        decreases rest@.len(),
    {
        let ghost n = rest@.len() as int;
        if let Some(read) = rest.pop() {
            assert(rest@ =~= given.take(n - 1));
            backwards.push(read);
        }
    }
    let mut out: Vec<OutboundAttachment> = Vec::new();
    let ghost mut used: int = 0;
    assert(all.take(0) =~= seq![]);
    assert(views(out@) =~= seq![]);
    assert(contents.take(0) =~= seq![]);
    for item in it: planned
        invariant
            it.seq() == planned@,
            all == views(planned@),
            contents == views(given),
            given == reads@,
            given.len() == paths_of(all).len(),
            used == paths_of(all.take(it.index())).len(),
            0 <= used <= given.len(),
            backwards@.len() == given.len() - used,
            forall|j: int|
                0 <= j < backwards@.len() ==> #[trigger] backwards@[j] == given[given.len() - 1 - j],
            read_plan(all.take(it.index()), contents.take(used)) == Ok::<
                Seq<OutboundAttachmentView>,
                Seq<char>,
            >(views(out@)),
    {
        let ghost i = it.index();
        let ghost next = all.take(i + 1);
        let ghost known = views(out@);
        proof {
            assert(next.drop_last() =~= all.take(i));
            assert(next.last() == item@);
            lemma_paths_prefix(all, i + 1);
        }
        match item {
            PlannedAttachment::Stored(id) => {
                out.push(OutboundAttachment::Stored(id));
                assert(views(out@) =~= known.push(OutboundAttachmentView::Stored(id)));
            },
            PlannedAttachment::LocalFile { path, mime_type, filename } => {
                let ghost now = contents.take(used + 1);
                assert(now.drop_last() =~= contents.take(used));
                let read = backwards.pop();
                match read {
                    Some(FileRead::Bytes(bytes)) => {
                        assert(now.last() == FileReadView::Bytes(bytes@));
                        if bytes.len() == 0 {
                            proof {
                                lemma_plan_prefix(all, contents, i + 1);
                            }
                            return Err(prefixed("attachment file is empty: ", path.as_str()));
                        }
                        let ghost made = OutboundAttachmentView::Bytes {
                            mime_type: mime_type@,
                            filename: view_opt(filename),
                            bytes: bytes@,
                        };
                        out.push(OutboundAttachment::Bytes { mime_type, filename, bytes });
                        assert(views(out@) =~= known.push(made));
                    },
                    Some(FileRead::Failed(error)) => {
                        assert(now.last() == FileReadView::Failed(error@));
                        let mut message = prefixed("cannot read attachment ", path.as_str());
                        message.append(": ");
                        message.append(error.as_str());
                        proof {
                            lemma_plan_prefix(all, contents, i + 1);
                        }
                        return Err(message);
                    },
                    None => {
                        assert(false);
                    },
                }
                proof {
                    used = used + 1;
                }
            },
        }
    }
    assert(all.take(all.len() as int) =~= all);
    assert(contents.take(contents.len() as int) =~= contents);
    Ok(out)
}

/// Whether an attachment is what was planned, whatever its file holds.
pub open spec fn follows(planned: PlannedAttachmentView, made: OutboundAttachmentView) -> bool {
    match planned {
        PlannedAttachmentView::Stored(id) => made == OutboundAttachmentView::Stored(id),
        PlannedAttachmentView::LocalFile { mime_type, filename, .. } => made
            matches OutboundAttachmentView::Bytes { mime_type: sent, filename: named, .. } && sent
            == mime_type && named == filename,
    }
}

/// The attachments that are sent stand in the order of the plan, each with the type and the name
/// that were planned for it.
pub proof fn law_attachments_follow_the_plan(
    planned: Seq<PlannedAttachmentView>,
    reads: Seq<FileReadView>,
)
    requires
        read_plan(planned, reads) is Ok,
    ensures
        read_plan(planned, reads)->Ok_0.len() == planned.len(),
        forall|i: int|
            0 <= i < planned.len() ==> follows(
                #[trigger] planned[i],
                read_plan(planned, reads)->Ok_0[i],
            ),
    decreases planned.len(),
{
    if planned.len() > 0 {
        let front = planned.drop_last();
        let made = read_plan(planned, reads)->Ok_0;
        let rest = match planned.last() {
            PlannedAttachmentView::Stored(_) => reads,
            PlannedAttachmentView::LocalFile { .. } => reads.drop_last(),
        };
        law_attachments_follow_the_plan(front, rest);
        assert forall|i: int| 0 <= i < planned.len() implies follows(
            #[trigger] planned[i],
            made[i],
        ) by {
            if i < front.len() {
                assert(front[i] == planned[i]);
                assert(read_plan(front, rest)->Ok_0[i] == made[i]);
            }
        }
    }
}

/// Where a store keeps its files: the configured directory, or one below the local data directory.
pub open spec fn store_directory(configured: Option<Seq<char>>, local: Option<Seq<char>>, name: Seq<char>) -> Seq<
    char,
> {
    match configured {
        Some(directory) => directory,
        None => below(
            below(
                match local {
                    Some(local) => local,
                    None => "./.iris"@,
                },
                "iris"@,
            ),
            name,
        ),
    }
}

/// Where a store keeps its files: the configured directory, or one below the local data directory.
pub fn data_directory(configured: Option<&str>, local: Option<&str>, name: &str) -> (r: String)
    ensures
        r@ == store_directory(
            match configured {
                Some(directory) => Some(directory@),
                None => None,
            },
            match local {
                Some(local) => Some(local@),
                None => None,
            },
            name@,
        ),
{
    match configured {
        Some(directory) => directory.to_owned(),
        None => {
            let local = match local {
                Some(local) => local,
                None => "./.iris",
            };
            path_below(path_below(local, "iris").as_str(), name)
        },
    }
}

/// A provider in the list of providers.
pub fn provider_line(id: &str, provider_type: &str, name: &str) -> (r: String)
    ensures
        r@ == "  "@ + id@ + " ("@ + provider_type@ + ") — "@ + name@,
{
    let mut out = prefixed("  ", id);
    out.append(" (");
    out.append(provider_type);
    out.append(") — ");
    out.append(name);
    out
}

/// A provider in the answer to a request for the providers.
pub open spec fn provider_view(id: Seq<char>, provider_type: Seq<char>, name: Seq<char>) -> JsonView {
    JsonView::Object(
        seq![
            ("id"@, JsonView::Text(id)),
            ("name"@, JsonView::Text(name)),
            ("provider_type"@, JsonView::Text(provider_type)),
        ],
    )
}

/// A provider in the answer to a request for the providers.
pub fn provider_json(id: &str, provider_type: &str, name: &str) -> (r: Json)
    ensures
        r@ == provider_view(id@, provider_type@, name@),
{
    let mut members: Vec<(String, Json)> = Vec::new();
    members.push(member("id", json_text(id)));
    members.push(member("name", json_text(name)));
    members.push(member("provider_type", json_text(provider_type)));
    assert(member_views(members@) =~= provider_view(id@, provider_type@, name@)->Object_0);
    json_object(members)
}

/// An operation that the command line runs.
#[derive(Clone, Copy, Debug, PartialEq, Eq, Structural)]
pub enum Operation {
    ListMessages,
    ListThreads,
    ListContacts,
    SendMessage,
    AuditQuery,
    IngestBatch,
    SubscribeEvents,
}

/// The operation that a name stands for.
pub open spec fn operation_named(name: Seq<char>) -> Result<Operation, Seq<char>> {
    if name == "list_messages"@ {
        Ok(Operation::ListMessages)
    } else if name == "list_threads"@ {
        Ok(Operation::ListThreads)
    } else if name == "list_contacts"@ {
        Ok(Operation::ListContacts)
    } else if name == "send_message"@ {
        Ok(Operation::SendMessage)
    } else if name == "audit_query"@ {
        Ok(Operation::AuditQuery)
    } else if name == "ingest_batch"@ {
        Ok(Operation::IngestBatch)
    } else if name == "subscribe_events"@ {
        Ok(Operation::SubscribeEvents)
    } else {
        Err("generated operation is not implemented by the CLI runtime: "@ + name)
    }
}

/// The operation that a name stands for.
pub fn cli_operation(name: &str) -> (r: Result<Operation, String>)
    ensures
        read_result(r) == operation_named(name@),
{
    if str_eq(name, "list_messages") {
        Ok(Operation::ListMessages)
    } else if str_eq(name, "list_threads") {
        Ok(Operation::ListThreads)
    } else if str_eq(name, "list_contacts") {
        Ok(Operation::ListContacts)
    } else if str_eq(name, "send_message") {
        Ok(Operation::SendMessage)
    } else if str_eq(name, "audit_query") {
        Ok(Operation::AuditQuery)
    } else if str_eq(name, "ingest_batch") {
        Ok(Operation::IngestBatch)
    } else if str_eq(name, "subscribe_events") {
        Ok(Operation::SubscribeEvents)
    } else {
        Err(prefixed("generated operation is not implemented by the CLI runtime: ", name))
    }
}

/// A source is let in where it is configured and has a secret, and refused otherwise.
pub proof fn law_sources_need_a_secret(
    source: Seq<char>,
    sources: Seq<Seq<char>>,
    secret_sources: Seq<Seq<char>>,
)
    ensures
        source_refusal(source, sources, secret_sources) is None <==> sources.contains(source)
            && secret_sources.contains(source),
        !sources.contains(source) ==> source_refusal(source, sources, secret_sources) == Some(
            "ingest source is not configured: "@ + source,
        ),
        sources.contains(source) && !secret_sources.contains(source) ==> source_refusal(
            source,
            sources,
            secret_sources,
        ) == Some("ingest source secret is not configured: "@ + source),
{
}

/// A batch is answered with how and when it was committed; one whose replay key stands for other
/// content is not.
pub proof fn law_batches_are_answered_with_their_commit(committed_at: Timestamp)
    ensures
        ingest_answer(IngestOutcome::ReplayConflict) == Err::<JsonView, Seq<char>>(
            "replay key conflicts with an existing batch"@,
        ),
        ingest_answer(IngestOutcome::Applied { committed_at }) matches Ok(
            JsonView::Object(members),
        ) && members.len() == 2 && members[0] == ("committed_at"@, time_view(committed_at))
            && members[1] == ("outcome"@, JsonView::Text("applied"@)),
        ingest_answer(IngestOutcome::AlreadyApplied { committed_at }) matches Ok(
            JsonView::Object(members),
        ) && members.len() == 2 && members[0] == ("committed_at"@, time_view(committed_at))
            && members[1] == ("outcome"@, JsonView::Text("already_applied"@)),
{
}

/// An action is named as it stands in JSON, and by no other name.
pub proof fn law_actions_are_named_as_they_are_written(action: AuditAction, name: Seq<char>)
    ensures
        action_named(action.wire_name()) == Ok::<AuditAction, Seq<char>>(action),
        action_named(name) == Ok::<AuditAction, Seq<char>>(action) ==> name == action.wire_name(),
{
    reveal_strlit("normalize");
    reveal_strlit("send");
    reveal_strlit("fetch_attachment");
    assert("normalize"@.len() == 9 && "send"@.len() == 4 && "fetch_attachment"@.len() == 16);
}

/// A query asks for what its arguments say, and is refused where it would end before it begins.
pub proof fn law_queries_ask_for_what_they_say(
    provider: Option<Seq<char>>,
    action: Option<AuditAction>,
    since: Option<Timestamp>,
    until: Option<Timestamp>,
    source_id: Option<Seq<char>>,
    limit: Option<u32>,
)
    ensures
        ({
            let r = audit_selection(provider, action, since, until, source_id, limit);
            &&& r is Err <==> (since matches Some(from) && until matches Some(to) && to.ticks()
                < from.ticks())
            &&& r matches Err(error) ==> error == "since must be before or equal to until"@
            &&& r matches Ok(filter) ==> {
                &&& filter.provider == provider
                &&& filter.action == action
                &&& filter.since == since
                &&& filter.until == until
                &&& filter.source_id == source_id
                &&& limit matches Some(n) ==> filter.limit == Some(n as usize)
                &&& limit is None ==> filter.limit is None
            }
        }),
{
    if let Some(from) = since {
        if let Some(to) = until {
            law_earlier_points_come_first(to, from);
        }
    }
}

/// Where the action and both times of a query can be read, the query asks for them; where one of
/// them cannot, the query is refused with its error, the action's before those of the times.
pub proof fn law_queries_are_refused_with_the_first_error(
    args: AuditQueryArgs,
    action: Option<AuditAction>,
    since: Option<(i64, u32)>,
    until: Option<(i64, u32)>,
    error: Seq<char>,
    other: Result<Option<(i64, u32)>, Seq<char>>,
)
    ensures
        query_selection(
            args,
            match action {
                Some(action) => Some(Ok(action)),
                None => None,
            },
            Ok(since),
            Ok(until),
        ) == audit_selection(
            view_opt(args.provider),
            action,
            match since {
                Some(at) => Some(Timestamp::at(at.0, at.1)),
                None => None,
            },
            match until {
                Some(at) => Some(Timestamp::at(at.0, at.1)),
                None => None,
            },
            view_opt(args.source_id),
            args.limit,
        ),
        query_selection(args, Some(Err(error)), other, other) == Err::<FilterView, Seq<char>>(
            error,
        ),
        query_selection(args, None, Err(error), other) == Err::<FilterView, Seq<char>>(error),
        query_selection(args, None, Ok(since), Err(error)) == Err::<FilterView, Seq<char>>(error),
{
}

/// A provider is found at the first place where its ID stands, and nowhere else.
pub proof fn law_providers_are_found_by_their_id(ids: Seq<Seq<char>>, id: Seq<char>, k: int)
    requires
        ids.len() <= usize::MAX,
    ensures
        0 <= k < ids.len() && ids[k] == id && (forall|j: int| 0 <= j < k ==> #[trigger] ids[j] != id)
            ==> provider_place(ids, id) == Ok::<usize, IrisErrorView>(k as usize),
        !ids.contains(id) ==> provider_place(ids, id) == Err::<usize, IrisErrorView>(
            IrisErrorView::ProviderNotFound(id),
        ),
{
    lemma_id_place(ids, id, k);
}

proof fn lemma_id_place(ids: Seq<Seq<char>>, id: Seq<char>, k: int)
    ensures
        0 <= k < ids.len() && ids[k] == id && (forall|j: int| 0 <= j < k ==> #[trigger] ids[j] != id)
            ==> id_place(ids, id) == k,
        !ids.contains(id) ==> id_place(ids, id) == ids.len(),
    decreases ids.len(),
{
    if ids.len() > 0 {
        let rest = ids.drop_first();
        lemma_id_place(rest, id, k - 1);
        assert forall|j: int| 0 <= j < rest.len() implies #[trigger] rest[j] == ids[j + 1] by {}
        if !ids.contains(id) {
            assert(ids[0] != id);
            if rest.contains(id) {
                let j = choose|j: int| 0 <= j < rest.len() && rest[j] == id;
                assert(ids[j + 1] == id);
            }
        }
    }
}

/// A message is sent through the providers of the given ID, or through all of them where none is
/// given, in their order; where there is none it is refused.
pub proof fn law_messages_are_routed_by_their_provider(
    ids: Seq<Seq<char>>,
    provider: Option<Seq<char>>,
    i: usize,
)
    requires
        ids.len() <= usize::MAX,
    ensures
        matching(ids, provider).contains(i) <==> i < ids.len() && (provider matches Some(id)
            ==> ids[i as int] == id),
        forall|j: int, k: int|
            0 <= j < k < matching(ids, provider).len() ==> (#[trigger] matching(ids, provider)[j])
                < (#[trigger] matching(ids, provider)[k]),
        matching(ids, provider).len() > 0 ==> send_routes(ids, provider) == Ok::<
            Seq<usize>,
            Seq<char>,
        >(matching(ids, provider)),
        matching(ids, provider).len() == 0 ==> send_routes(ids, provider) is Err,
    decreases ids.len(),
{
    if ids.len() > 0 {
        let front = ids.drop_last();
        let n = ids.len() - 1;
        law_messages_are_routed_by_their_provider(front, provider, i);
        let known = matching(front, provider);
        let all = matching(ids, provider);
        assert(i < n ==> front[i as int] == ids[i as int]);
        assert forall|k: int| 0 <= k < known.len() implies (#[trigger] known[k]) < n by {
            law_messages_are_routed_by_their_provider(front, provider, known[k]);
            assert(known.contains(known[k]));
        }
        if provider is None || ids.last() == provider->0 {
            assert(all =~= known.push(n as usize));
            assert(all.last() == n as usize);
            if known.contains(i) {
                let k = choose|k: int| 0 <= k < known.len() && known[k] == i;
                assert(all[k] == i);
            }
            if all.contains(i) && i != n {
                let k = choose|k: int| 0 <= k < all.len() && all[k] == i;
                assert(known[k] == i);
            }
            if i == n {
                assert(all[all.len() - 1] == i);
            }
        } else {
            assert(all == known);
        }
    }
}

/// The paths that a plan reads are those of its local files, in their order.
pub proof fn law_a_plan_reads_its_local_files(planned: Seq<PlannedAttachmentView>)
    ensures
        paths_of(planned) == planned.filter(
            |attachment: PlannedAttachmentView| attachment is LocalFile,
        ).map_values(|attachment: PlannedAttachmentView| attachment->path),
    decreases planned.len(),
{
    reveal(Seq::filter);
    let ok = |attachment: PlannedAttachmentView| attachment is LocalFile;
    let f = |attachment: PlannedAttachmentView| attachment->path;
    if planned.len() > 0 {
        law_a_plan_reads_its_local_files(planned.drop_last());
        if ok(planned.last()) {
            assert(planned.filter(ok).map_values(f) =~= planned.drop_last().filter(ok).map_values(
                f,
            ).push(f(planned.last())));
        }
    } else {
        assert(planned.filter(ok).map_values(f) =~= seq![]);
    }
}

/// A local file is attached with the bytes that were read for it, those of its own place among the
/// local files; where the reading failed or gave nothing, the plan fails.
pub proof fn law_files_are_attached_with_their_own_bytes(
    planned: Seq<PlannedAttachmentView>,
    reads: Seq<FileReadView>,
    i: int,
)
    requires
        reads.len() == paths_of(planned).len(),
        0 <= i < planned.len(),
        planned[i] is LocalFile,
    ensures
        ({
            let k = paths_of(planned.take(i)).len() as int;
            &&& 0 <= k < reads.len()
            &&& read_plan(planned, reads) matches Ok(made) ==> {
                &&& reads[k] matches FileReadView::Bytes(bytes) && bytes.len() > 0 && (
                made[i] matches OutboundAttachmentView::Bytes { bytes: sent, .. } && sent == bytes)
            }
        }),
    decreases planned.len(),
{
    let front = planned.drop_last();
    let n = planned.len() - 1;
    if i < n {
        assert(front[i] == planned[i]);
        assert(front.take(i) =~= planned.take(i));
        if planned.last() is LocalFile {
            law_files_are_attached_with_their_own_bytes(front, reads.drop_last(), i);
            if let Ok(made) = read_plan(front, reads.drop_last()) {
                law_attachments_follow_the_plan(front, reads.drop_last());
            }
        } else {
            law_files_are_attached_with_their_own_bytes(front, reads, i);
            if let Ok(made) = read_plan(front, reads) {
                law_attachments_follow_the_plan(front, reads);
            }
        }
    } else {
        assert(planned.take(i) =~= front);
        if let Ok(made) = read_plan(front, reads.drop_last()) {
            law_attachments_follow_the_plan(front, reads.drop_last());
        }
    }
}

/// Data stands in the configured directory, or else below the local one, or else below one of the
/// current directory.
pub proof fn law_data_stands_in_the_configured_directory(
    directory: Seq<char>,
    local: Seq<char>,
    name: Seq<char>,
)
    ensures
        store_directory(Some(directory), Some(local), name) == directory,
        store_directory(Some(directory), None, name) == directory,
        store_directory(None, Some(local), name) == below(below(local, "iris"@), name),
        store_directory(None, None, name) == below(below("./.iris"@, "iris"@), name),
{
}

/// The name of an operation.
pub open spec fn name_of_operation(operation: Operation) -> Seq<char> {
    match operation {
        Operation::ListMessages => "list_messages"@,
        Operation::ListThreads => "list_threads"@,
        Operation::ListContacts => "list_contacts"@,
        Operation::SendMessage => "send_message"@,
        Operation::AuditQuery => "audit_query"@,
        Operation::IngestBatch => "ingest_batch"@,
        Operation::SubscribeEvents => "subscribe_events"@,
    }
}

/// Each operation has a name of its own, and no other name stands for it.
pub proof fn law_operations_have_names_of_their_own(operation: Operation, name: Seq<char>)
    ensures
        operation_named(name_of_operation(operation)) == Ok::<Operation, Seq<char>>(operation),
        operation_named(name) == Ok::<Operation, Seq<char>>(operation) ==> name
            == name_of_operation(operation),
{
    reveal_strlit("list_messages");
    reveal_strlit("list_threads");
    reveal_strlit("list_contacts");
    reveal_strlit("send_message");
    reveal_strlit("audit_query");
    reveal_strlit("ingest_batch");
    reveal_strlit("subscribe_events");
    assert("list_messages"@.len() == 13
        && "list_messages"@[0] == 'l'
        && "list_messages"@[5] == 'm');
    assert("list_threads"@.len() == 12 && "list_threads"@[0] == 'l' && "list_threads"@[5] == 't');
    assert("list_contacts"@.len() == 13
        && "list_contacts"@[0] == 'l'
        && "list_contacts"@[5] == 'c');
    assert("send_message"@.len() == 12 && "send_message"@[0] == 's' && "send_message"@[5] == 'm');
    assert("audit_query"@.len() == 11 && "audit_query"@[0] == 'a' && "audit_query"@[5] == '_');
    assert("ingest_batch"@.len() == 12 && "ingest_batch"@[0] == 'i' && "ingest_batch"@[5] == 't');
    assert("subscribe_events"@.len() == 16
        && "subscribe_events"@[0] == 's'
        && "subscribe_events"@[5] == 'r');
}

/// The owner of a thread is sought from the first provider to the last, each asked in turn; where
/// none is left the thread is not found. A provider owns a thread where it lists one of its UUID.
pub proof fn law_every_provider_is_asked_in_turn(
    i: int,
    count: usize,
    thread_id: Seq<char>,
    threads: Seq<ThreadView>,
)
    requires
        0 <= i,
    ensures
        i < count ==> ask_from(i, count, thread_id) == OwnerStepView::Ask(i as usize),
        i >= count ==> ask_from(i, count, thread_id) == OwnerStepView::Missing(
            IrisErrorView::NotFound("thread not found: "@ + thread_id),
        ),
        owns(threads, thread_id) <==> exists|k: int|
            0 <= k < threads.len() && uuid_text((#[trigger] threads[k]).id.value) == thread_id,
{
    if owns(threads, thread_id) {
        let k = choose|k: int|
            0 <= k < threads.len() && uuid_text(#[trigger] threads[k].id.value) == thread_id;
        assert(uuid_text(threads[k].id.value) == thread_id);
    }
}

/// A time is read where it is given, and is the one that its text stands for.
pub proof fn law_times_are_read_where_they_are_given(text: Seq<char>)
    ensures
        moment_named(None) == Ok::<Option<(i64, u32)>, Seq<char>>(None),
        rfc3339_parsed(text) matches Ok(at) ==> moment_named(Some(text)) == Ok::<
            Option<(i64, u32)>,
            Seq<char>,
        >(Some(at)),
        rfc3339_parsed(text) matches Err(error) ==> moment_named(Some(text)) == Err::<
            Option<(i64, u32)>,
            Seq<char>,
        >(error),
{
}

} // verus!
