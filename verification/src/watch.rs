//! The client side of the event stream: server-sent events in, lines of JSON out.
//!
//! Every `message` JSON becomes one output line, `error` frames become diagnostics, and the exit
//! policy is: non-zero when the selected (provider-filtered) stream terminates in error, or when
//! the unfiltered aggregate's last branch terminates in error.

use vstd::prelude::*;
use vstd::utf8::{
    decode_utf8, encode_utf8, is_continuation_byte, valid_first_scalar, valid_utf8,
};
use crate::contacts::lemma_contains_either;
use crate::error::prefixed;
use crate::json::{json_object, json_opt_text, member, member_views, opt_text_view, Json, JsonView};
use crate::text::{
    blank, chars_of, cut_len, cut_length, decode_lossy, is_blank, join, joined,
    lemma_cut_is_a_boundary, lemma_valid_is_not_cut, lossy_text, split_once, str_eq, string_of,
    strip_prefix, trim, trimmed, view_opt, views,
};

verus! {

/// Default Iris server base URL.
pub const DEFAULT_SERVER_URL: &'static str = "http://127.0.0.1:3000";

/// Environment variable overriding the server base URL.
pub const SERVER_URL_ENV: &'static str = "IRIS_SERVER_URL";

/// Exit code reported when the watch stream terminates in error.
pub const WATCH_EXIT_ERROR: u8 = 1;

/// The server base URL of a setting: the default where it is blank or missing.
pub open spec fn server_url_of(env: Option<Seq<char>>) -> Seq<char> {
    match env {
        Some(value) if !blank(value) => trimmed(value),
        _ => "http://127.0.0.1:3000"@,
    }
}

/// Resolve the server base URL from `IRIS_SERVER_URL` or the default.
///
/// Empty or whitespace-only values fall back to the default.
pub fn server_url_from_env(env: Option<&str>) -> (r: String)
    ensures
        r@ == server_url_of(
            match env {
                Some(value) => Some(value@),
                None => None,
            },
        ),
{
    match env {
        Some(value) => if is_blank(value) {
            "http://127.0.0.1:3000".to_owned()
        } else {
            trim(value)
        },
        None => "http://127.0.0.1:3000".to_owned(),
    }
}

/// One parsed SSE frame.
#[derive(Debug, PartialEq, Eq)]
pub enum SseFrame {
    /// `event: message` with raw JSON data.
    Message(String),
    /// `event: error` with raw JSON data.
    Error(String),
    /// A comment line (`: …`), e.g. heartbeats.
    Comment,
}

/// The mathematical value of a frame.
#[verifier::ext_equal]
pub enum SseFrameView {
    Message(Seq<char>),
    Error(Seq<char>),
    Comment,
}

impl View for SseFrame {
    type V = SseFrameView;

    open spec fn view(&self) -> SseFrameView {
        match *self {
            SseFrame::Message(data) => SseFrameView::Message(data@),
            SseFrame::Error(data) => SseFrameView::Error(data@),
            SseFrame::Comment => SseFrameView::Comment,
        }
    }
}

/// Incremental SSE frame parser.
///
/// Feeds bytes; yields complete frames. A frame is a block of `field: value` lines closed by a
/// blank line. `event:` names the event (defaulting to `message`); `data:` lines accumulate and
/// join with a line feed. Lines starting with `:` are comments.
#[derive(Debug)]
pub struct SseParser {
    /// The bytes of a character that the end of the last chunk cut.
    tail: Vec<u8>,
    buffer: Vec<char>,
    event: Option<String>,
    data_lines: Vec<String>,
    /// Whether a comment line arrived since the last yielded frame.
    pending_comment: bool,
}

/// The mathematical value of a parser.
#[verifier::ext_equal]
pub struct SseView {
    pub tail: Seq<u8>,
    pub buffer: Seq<char>,
    pub event: Option<Seq<char>>,
    pub data: Seq<Seq<char>>,
    pub comment: bool,
}

impl View for SseParser {
    type V = SseView;

    closed spec fn view(&self) -> SseView {
        SseView {
            tail: self.tail@,
            buffer: self.buffer@,
            event: view_opt(self.event),
            data: views(self.data_lines@),
            comment: self.pending_comment,
        }
    }
}

/// A parser before anything was fed.
pub open spec fn fresh_parser() -> SseView {
    SseView { tail: seq![], buffer: seq![], event: None, data: seq![], comment: false }
}

/// Where the first line break character stands: its index, or the length.
pub open spec fn first_break(s: Seq<char>) -> int
    decreases s.len(),
{
    if s.len() == 0 || s[0] == '\r' || s[0] == '\n' {
        0
    } else {
        1 + first_break(s.drop_first())
    }
}

/// How long the line break at an index is: nothing while it may still become a pair.
pub open spec fn break_len(s: Seq<char>, at: int) -> int {
    if at >= s.len() {
        0
    } else if s[at] == '\n' {
        1
    } else if at + 1 == s.len() {
        0
    } else if s[at + 1] == '\n' {
        2
    } else {
        1
    }
}

/// The frame that accumulated fields make.
pub open spec fn frame_of(event: Option<Seq<char>>, data: Seq<Seq<char>>) -> Option<SseFrameView> {
    let name = match event {
        Some(name) => name,
        None => "message"@,
    };
    if data.len() == 0 {
        None
    } else if name == "message"@ {
        Some(SseFrameView::Message(joined(data, "\n"@)))
    } else if name == "error"@ {
        Some(SseFrameView::Error(joined(data, "\n"@)))
    } else {
        None
    }
}

/// What a blank line closes: a frame, or else a pending comment.
pub open spec fn closed(state: SseView) -> (Seq<SseFrameView>, SseView) {
    let after = SseView { event: None, data: seq![], ..state };
    match frame_of(state.event, state.data) {
        Some(frame) => (seq![frame], after),
        None => if state.comment {
            (seq![SseFrameView::Comment], SseView { comment: false, ..after })
        } else {
            (seq![], after)
        },
    }
}

/// The name and the value of a line.
pub open spec fn field_of(line: Seq<char>) -> (Seq<char>, Seq<char>) {
    let at = crate::text::first_index(line, ':');
    if line.contains(':') {
        let value = line.skip(at + 1);
        (
            line.take(at),
            if value.len() > 0 && value[0] == ' ' {
                value.drop_first()
            } else {
                value
            },
        )
    } else {
        (line, seq![])
    }
}

/// What a line does.
pub open spec fn line_fed(state: SseView, line: Seq<char>) -> (Seq<SseFrameView>, SseView) {
    if line.len() == 0 {
        closed(state)
    } else if line[0] == ':' {
        (seq![], SseView { comment: true, ..state })
    } else {
        let (name, value) = field_of(line);
        if name == "event"@ {
            (seq![], SseView { event: Some(value), ..state })
        } else if name == "data"@ {
            (seq![], SseView { data: state.data.push(value), ..state })
        } else {
            (seq![], state)
        }
    }
}

/// What the complete lines in the buffer do.
pub open spec fn drained(state: SseView) -> (Seq<SseFrameView>, SseView)
    decreases state.buffer.len(),
{
    let at = first_break(state.buffer);
    let len = break_len(state.buffer, at);
    if 0 <= at < state.buffer.len() && len > 0 {
        let (frames, next) = line_fed(
            SseView { buffer: state.buffer.skip(at + len), ..state },
            state.buffer.take(at),
        );
        let (more, last) = drained(SseView { buffer: state.buffer.skip(at + len), ..next });
        (frames + more, last)
    } else {
        (seq![], state)
    }
}

/// What a piece of text does.
pub open spec fn fed(state: SseView, text: Seq<char>) -> (Seq<SseFrameView>, SseView) {
    drained(SseView { buffer: state.buffer + text, ..state })
}

/// Whether bytes begin a character that goes on behind them, and are nothing else.
pub open spec fn waits(tail: Seq<u8>) -> bool {
    cut_len(tail) == tail.len()
}

/// What bytes do: those of a character that their end cuts wait for the next chunk.
pub open spec fn fed_bytes(state: SseView, bytes: Seq<u8>) -> (Seq<SseFrameView>, SseView) {
    let whole = bytes.len() - cut_len(bytes);
    fed(SseView { tail: bytes.skip(whole), ..state }, lossy_text(bytes.take(whole)))
}

/// What a chunk of bytes does. It may go on with a character that waits; if it does not, the
/// character stays cut and is taken as it is.
pub open spec fn fed_chunk(state: SseView, chunk: Seq<u8>) -> (Seq<SseFrameView>, SseView) {
    if state.tail.len() > 0 && chunk.len() > 0 && !is_continuation_byte(chunk[0]) {
        let (frames, next) = fed(SseView { tail: seq![], ..state }, lossy_text(state.tail));
        let (more, last) = fed_bytes(next, chunk);
        (frames + more, last)
    } else {
        fed_bytes(state, state.tail + chunk)
    }
}

/// What chunks of bytes do, one after the other.
pub open spec fn fed_chunks(state: SseView, chunks: Seq<Seq<u8>>) -> (Seq<SseFrameView>, SseView)
    decreases chunks.len(),
{
    if chunks.len() == 0 {
        (seq![], state)
    } else {
        let (frames, next) = fed_chunk(state, chunks[0]);
        let (more, last) = fed_chunks(next, chunks.drop_first());
        (frames + more, last)
    }
}

/// The bytes of chunks.
pub open spec fn bytes_of(chunks: Seq<Seq<u8>>) -> Seq<u8>
    decreases chunks.len(),
{
    if chunks.len() == 0 {
        seq![]
    } else {
        chunks[0] + bytes_of(chunks.drop_first())
    }
}

/// A text without the line break characters at its end.
pub open spec fn without_breaks(s: Seq<char>) -> Seq<char>
    decreases s.len(),
{
    if s.len() > 0 && (s.last() == '\r' || s.last() == '\n') {
        without_breaks(s.drop_last())
    } else {
        s
    }
}

/// What the end of the text does: what is left counts as a line, and what is open is closed.
pub open spec fn flushed(state: SseView) -> (Seq<SseFrameView>, SseView) {
    if state.buffer.len() > 0 {
        let (frames, next) = line_fed(
            SseView { buffer: seq![], ..state },
            without_breaks(state.buffer),
        );
        let (more, last) = closed(next);
        (frames + more, last)
    } else {
        closed(state)
    }
}

/// What the end of the stream does: a character that stays cut is taken as it is.
pub open spec fn finished(state: SseView) -> (Seq<SseFrameView>, SseView) {
    if state.tail.len() > 0 {
        let (frames, next) = fed(SseView { tail: seq![], ..state }, lossy_text(state.tail));
        let (more, last) = flushed(next);
        (frames + more, last)
    } else {
        flushed(state)
    }
}

proof fn lemma_first_break(s: Seq<char>)
    ensures
        0 <= first_break(s) <= s.len(),
        first_break(s) < s.len() ==> s[first_break(s)] == '\r' || s[first_break(s)] == '\n',
        forall|i: int| 0 <= i < first_break(s) ==> s[i] != '\r' && s[i] != '\n',
    decreases s.len(),
{
    if s.len() > 0 && s[0] != '\r' && s[0] != '\n' {
        let rest = s.drop_first();
        lemma_first_break(rest);
        assert forall|i: int| 0 <= i < first_break(s) implies s[i] != '\r' && s[i] != '\n' by {
            if i > 0 {
                assert(rest[i - 1] == s[i]);
            }
        }
    }
}

/// A line changes nothing in the buffer, and does not depend on it.
proof fn lemma_line_ignores_buffer(state: SseView, line: Seq<char>, buffer: Seq<char>)
    ensures
        line_fed(state, line).1.buffer == state.buffer,
        line_fed(SseView { buffer, ..state }, line).0 == line_fed(state, line).0,
        line_fed(SseView { buffer, ..state }, line).1 == (SseView {
            buffer,
            ..line_fed(state, line).1
        }),
{
}

/// Text may arrive in pieces: the frames and the state behind them are the same.
pub proof fn law_text_may_arrive_in_pieces(state: SseView, first: Seq<char>, second: Seq<char>)
    ensures
        fed(state, first + second).0 == fed(state, first).0 + fed(fed(state, first).1, second).0,
        fed(state, first + second).1 == fed(fed(state, first).1, second).1,
{
    assert(state.buffer + (first + second) =~= (state.buffer + first) + second);
    lemma_pieces(SseView { buffer: state.buffer + first, ..state }, second);
}

proof fn lemma_pieces(state: SseView, second: Seq<char>)
    ensures
        ({
            let whole = drained(SseView { buffer: state.buffer + second, ..state });
            let part = drained(state);
            let rest = drained(SseView { buffer: part.1.buffer + second, ..part.1 });
            &&& whole.0 == part.0 + rest.0
            &&& whole.1 == rest.1
        }),
    decreases state.buffer.len(),
{
    let buffer = state.buffer;
    let long = buffer + second;
    let at = first_break(buffer);
    lemma_first_break(buffer);
    lemma_first_break(long);
    let whole = drained(SseView { buffer: long, ..state });
    let part = drained(state);
    let rest = drained(SseView { buffer: part.1.buffer + second, ..part.1 });
    let len = break_len(buffer, at);
    if at < buffer.len() && len > 0 {
        assert(long[at] == buffer[at]);
        assert(first_break(long) == at) by {
            let other = first_break(long);
            if other < at {
                assert(long[other] == buffer[other]);
            }
            if at < other {
                assert(long[at] != '\r' && long[at] != '\n');
            }
        }
        assert(break_len(long, at) == len) by {
            if buffer[at] == '\r' {
                assert(long[at + 1] == buffer[at + 1]);
            }
        }
        let line = buffer.take(at);
        assert(long.take(at) =~= line);
        assert(long.skip(at + len) =~= buffer.skip(at + len) + second);
        let tail = buffer.skip(at + len);
        lemma_line_ignores_buffer(SseView { buffer: tail, ..state }, line, tail + second);
        let (frames, next) = line_fed(SseView { buffer: tail, ..state }, line);
        let inner = SseView { buffer: tail, ..next };
        assert(line_fed(SseView { buffer: tail + second, ..state }, line).1 == (SseView {
            buffer: tail + second,
            ..next
        }));
        lemma_pieces(inner, second);
        let inner_part = drained(inner);
        let inner_whole = drained(SseView { buffer: tail + second, ..inner });
        assert(part.0 == frames + inner_part.0);
        assert(whole.0 == frames + inner_whole.0);
        assert(frames + (inner_part.0 + rest.0) =~= (frames + inner_part.0) + rest.0);
    } else {
        assert(part.1 == state);
        assert(whole.0 =~= part.0 + rest.0);
    }
}

/// The bytes that wait take no part in what text does.
proof fn lemma_draining_ignores_the_tail(state: SseView, tail: Seq<u8>)
    ensures
        drained(state).1.tail == state.tail,
        drained(SseView { tail, ..state }).0 == drained(state).0,
        drained(SseView { tail, ..state }).1 == (SseView { tail, ..drained(state).1 }),
    decreases state.buffer.len(),
{
    let at = first_break(state.buffer);
    let len = break_len(state.buffer, at);
    lemma_first_break(state.buffer);
    if at < state.buffer.len() && len > 0 {
        let rest = state.buffer.skip(at + len);
        let line = state.buffer.take(at);
        let other = SseView { tail, ..state };
        let (frames, next) = line_fed(SseView { buffer: rest, ..state }, line);
        assert(line_fed(SseView { buffer: rest, ..other }, line) == (
            frames,
            SseView { tail, ..next },
        ));
        lemma_draining_ignores_the_tail(SseView { buffer: rest, ..next }, tail);
    }
}

/// What bytes do that are valid as a whole.
proof fn lemma_valid_bytes(state: SseView, bytes: Seq<u8>)
    requires
        valid_utf8(bytes),
    ensures
        fed_bytes(state, bytes).0 == fed(state, decode_utf8(bytes)).0,
        fed_bytes(state, bytes).1 == (SseView {
            tail: seq![],
            ..fed(state, decode_utf8(bytes)).1
        }),
{
    lemma_valid_is_not_cut(bytes);
    assert(bytes.take(bytes.len() as int) =~= bytes);
    assert(bytes.skip(bytes.len() as int) =~= seq![]);
    lemma_draining_ignores_the_tail(
        SseView { buffer: state.buffer + decode_utf8(bytes), ..state },
        seq![],
    );
}

/// What waits behind some bytes.
proof fn lemma_tail_behind_bytes(state: SseView, bytes: Seq<u8>)
    ensures
        0 <= cut_len(bytes) <= bytes.len(),
        fed_bytes(state, bytes).1.tail == bytes.skip(bytes.len() - cut_len(bytes)),
        waits(fed_bytes(state, bytes).1.tail),
{
    let at = bytes.len() - cut_len(bytes);
    let tail = bytes.skip(at);
    lemma_draining_ignores_the_tail(
        SseView { tail, buffer: state.buffer + lossy_text(bytes.take(at)), ..state },
        tail,
    );
    assert forall|i: int| 0 <= i < tail.len() implies tail[i] == bytes[at + i] by {}
}

/// Nothing waits in a new parser, and nothing but the beginning of one character waits behind a
/// chunk.
pub proof fn law_only_a_cut_character_waits(state: SseView, chunk: Seq<u8>)
    ensures
        waits(fresh_parser().tail),
        waits(fed_chunk(state, chunk).1.tail),
{
    lemma_tail_behind_bytes(state, state.tail + chunk);
    let (_, next) = fed(SseView { tail: seq![], ..state }, lossy_text(state.tail));
    lemma_tail_behind_bytes(next, chunk);
}

/// Bytes that are valid behind a character's beginning go on with that character.
proof fn lemma_goes_on(tail: Seq<u8>, chunk: Seq<u8>)
    requires
        waits(tail),
        tail.len() > 0,
        chunk.len() > 0,
        valid_utf8(tail + chunk),
    ensures
        is_continuation_byte(chunk[0]),
{
    let bytes = tail + chunk;
    assert(valid_first_scalar(bytes));
    assert(bytes[0] == tail[0]);
    assert(bytes[tail.len() as int] == chunk[0]);
}

/// Valid bytes do not begin within a character.
proof fn lemma_begins(bytes: Seq<u8>)
    requires
        bytes.len() > 0,
        valid_utf8(bytes),
    ensures
        !is_continuation_byte(bytes[0]),
{
    assert(valid_first_scalar(bytes));
}

/// Valid bytes may be cut anywhere, also within a character.
proof fn lemma_bytes_part(state: SseView, known: Seq<u8>, second: Seq<u8>)
    requires
        valid_utf8(known + second),
    ensures
        fed_bytes(state, known + second).0 == fed_bytes(state, known).0 + fed_chunk(
            fed_bytes(state, known).1,
            second,
        ).0,
        fed_bytes(state, known + second).1 == fed_chunk(fed_bytes(state, known).1, second).1,
        valid_utf8(fed_bytes(state, known).1.tail + second),
{
    let bytes = known + second;
    let n = known.len() as int;
    let at = n - cut_len(known);
    assert(bytes.take(n) =~= known);
    lemma_cut_is_a_boundary(bytes, n);
    vstd::utf8::valid_utf8_split(bytes, at);
    vstd::utf8::decode_utf8_split(bytes, at);
    let whole = bytes.subrange(0, at);
    let rest = bytes.subrange(at, bytes.len() as int);
    assert(known.take(at) =~= whole);
    assert(known.skip(at) + second =~= rest);
    let text = decode_utf8(whole);
    let more = decode_utf8(rest);
    let opened = SseView { buffer: state.buffer + text, ..state };
    let (frames, next) = fed_bytes(state, known);
    lemma_draining_ignores_the_tail(opened, known.skip(at));
    assert(next == (SseView { tail: known.skip(at), ..fed(state, text).1 }));
    assert(next.tail + second == rest);
    lemma_tail_behind_bytes(state, known);
    if next.tail.len() > 0 && second.len() > 0 {
        lemma_goes_on(next.tail, second);
    }
    lemma_valid_bytes(next, rest);
    lemma_valid_bytes(state, bytes);
    law_text_may_arrive_in_pieces(state, text, more);
    let reached = fed(state, text).1;
    lemma_draining_ignores_the_tail(
        SseView { buffer: reached.buffer + more, ..reached },
        known.skip(at),
    );
}

/// An empty chunk does what no text does.
proof fn lemma_empty_chunk(state: SseView)
    requires
        waits(state.tail),
    ensures
        fed_chunk(state, seq![]) == fed(state, seq![]),
        fed(state, seq![]).1.tail == state.tail,
{
    let bytes = state.tail + seq![];
    assert(bytes =~= state.tail);
    assert(bytes.skip(0) =~= state.tail);
    assert(bytes.take(0) =~= seq![]);
    assert(valid_utf8(bytes.take(0)));
    assert(decode_utf8(bytes.take(0)) =~= seq![]);
    lemma_draining_ignores_the_tail(
        SseView { buffer: state.buffer + seq![], ..state },
        state.tail,
    );
}

/// A chunk that is valid by itself leaves what waits behind: it makes no difference whether an
/// empty chunk came before.
proof fn lemma_empty_chunk_before(state: SseView, chunk: Seq<u8>)
    requires
        waits(state.tail),
        valid_utf8(chunk),
    ensures
        fed_chunk(state, chunk).0 == fed_chunk(state, seq![]).0 + fed_chunk(
            fed_chunk(state, seq![]).1,
            chunk,
        ).0,
        fed_chunk(state, chunk).1 == fed_chunk(fed_chunk(state, seq![]).1, chunk).1,
{
    lemma_empty_chunk(state);
    let none = Seq::<char>::empty();
    let (frames, next) = fed(state, none);
    if chunk.len() == 0 {
        assert(chunk =~= seq![]);
        lemma_empty_chunk(next);
        law_text_may_arrive_in_pieces(state, none, none);
        assert(none + none =~= none);
    } else if state.tail.len() == 0 {
        assert(state.tail + chunk =~= chunk);
        assert(next.tail + chunk =~= chunk);
        let text = decode_utf8(chunk);
        lemma_valid_bytes(state, chunk);
        lemma_valid_bytes(next, chunk);
        law_text_may_arrive_in_pieces(state, none, text);
        assert(none + text =~= text);
    } else {
        lemma_begins(chunk);
        let text = lossy_text(state.tail);
        let without = SseView { tail: seq![], ..state };
        lemma_draining_ignores_the_tail(
            SseView { buffer: state.buffer + none, ..state },
            seq![],
        );
        law_text_may_arrive_in_pieces(without, none, text);
        assert(none + text =~= text);
        assert(fed(without, none).1 == (SseView { tail: seq![], ..next }));
        let (cut, reached) = fed(SseView { tail: seq![], ..next }, text);
        let (more, _) = fed_bytes(reached, chunk);
        assert((frames + cut) + more =~= frames + (cut + more));
    }
}

/// A stream may be cut anywhere, also within a character: the frames are those of the whole. The
/// chunks may go on with a character that waits, or leave it cut; so may what follows the first.
pub proof fn law_chunks_reassemble(state: SseView, first: Seq<u8>, second: Seq<u8>)
    requires
        waits(state.tail),
        valid_utf8(state.tail + (first + second)) || valid_utf8(first + second),
    ensures
        fed_chunk(state, first + second).0 == fed_chunk(state, first).0 + fed_chunk(
            fed_chunk(state, first).1,
            second,
        ).0,
        fed_chunk(state, first + second).1 == fed_chunk(fed_chunk(state, first).1, second).1,
        ({
            let tail = fed_chunk(state, first).1.tail;
            valid_utf8(tail + second) || valid_utf8(second)
        }),
{
    let chunk = first + second;
    let known = state.tail + first;
    assert(known + second =~= state.tail + chunk);
    if valid_utf8(state.tail + chunk) {
        if state.tail.len() > 0 && chunk.len() > 0 {
            lemma_goes_on(state.tail, chunk);
            if first.len() > 0 {
                assert(chunk[0] == first[0]);
            }
        }
        lemma_bytes_part(state, known, second);
    } else if first.len() > 0 {
        if state.tail.len() == 0 {
            assert(state.tail + chunk =~= chunk);
        }
        lemma_begins(chunk);
        assert(chunk[0] == first[0]);
        let (frames, next) = fed(SseView { tail: seq![], ..state }, lossy_text(state.tail));
        lemma_bytes_part(next, first, second);
        let (more, reached) = fed_bytes(next, first);
        let (rest, _) = fed_chunk(reached, second);
        assert((frames + more) + rest =~= frames + (more + rest));
    } else {
        assert(first =~= seq![]);
        assert(chunk =~= second);
        lemma_empty_chunk_before(state, second);
    }
}

/// Two chunks of which each is valid give, one after the other, what they give as one, whatever
/// state the parser is in.
pub proof fn law_valid_chunks_may_be_joined(state: SseView, first: Seq<u8>, second: Seq<u8>)
    requires
        waits(state.tail),
        valid_utf8(first),
        valid_utf8(second),
    ensures
        fed_chunk(state, first + second).0 == fed_chunk(state, first).0 + fed_chunk(
            fed_chunk(state, first).1,
            second,
        ).0,
        fed_chunk(state, first + second).1 == fed_chunk(fed_chunk(state, first).1, second).1,
{
    vstd::utf8::valid_utf8_concat(first, second);
    law_chunks_reassemble(state, first, second);
}

/// However a stream is cut into chunks, the frames are those of the whole.
pub proof fn law_any_chunks_reassemble(state: SseView, chunks: Seq<Seq<u8>>)
    requires
        chunks.len() > 0,
        waits(state.tail),
        valid_utf8(state.tail + bytes_of(chunks)) || valid_utf8(bytes_of(chunks)),
    ensures
        fed_chunks(state, chunks) == fed_chunk(state, bytes_of(chunks)),
    decreases chunks.len(),
{
    let rest = chunks.drop_first();
    let (frames, next) = fed_chunk(state, chunks[0]);
    if rest.len() == 0 {
        assert(bytes_of(rest) =~= seq![]);
        assert(chunks[0] + bytes_of(rest) =~= chunks[0]);
        assert(fed_chunks(next, rest) == (Seq::<SseFrameView>::empty(), next));
        assert(frames + seq![] =~= frames);
    } else {
        law_chunks_reassemble(state, chunks[0], bytes_of(rest));
        law_only_a_cut_character_waits(state, chunks[0]);
        law_any_chunks_reassemble(next, rest);
    }
}

/// A text with a pair of return and feed in place of every line feed.
pub open spec fn with_pairs(s: Seq<char>) -> Seq<char>
    decreases s.len(),
{
    if s.len() == 0 {
        seq![]
    } else if s[0] == '\n' {
        seq!['\r', '\n'] + with_pairs(s.drop_first())
    } else {
        seq![s[0]] + with_pairs(s.drop_first())
    }
}

proof fn lemma_with_pairs(s: Seq<char>, at: int)
    requires
        0 <= at <= s.len(),
        forall|i: int| 0 <= i < at ==> s[i] != '\n',
    ensures
        with_pairs(s) == s.take(at) + with_pairs(s.skip(at)),
    decreases at,
{
    if at == 0 {
        assert(s.skip(0) =~= s);
        assert(s.take(0) + with_pairs(s) =~= with_pairs(s));
    } else {
        let rest = s.drop_first();
        assert forall|i: int| 0 <= i < at - 1 implies rest[i] != '\n' by {
            assert(rest[i] == s[i + 1]);
        }
        lemma_with_pairs(rest, at - 1);
        assert(rest.skip(at - 1) =~= s.skip(at));
        assert(seq![s[0]] + (rest.take(at - 1) + with_pairs(s.skip(at))) =~= s.take(at)
            + with_pairs(s.skip(at)));
    }
}

proof fn lemma_pairs_drain_alike(state: SseView)
    requires
        !state.buffer.contains('\r'),
    ensures
        drained(SseView { buffer: with_pairs(state.buffer), ..state }) == drained(state),
    decreases state.buffer.len(),
{
    let s = state.buffer;
    let pairs = with_pairs(s);
    let at = first_break(s);
    lemma_first_break(s);
    lemma_first_break(pairs);
    assert forall|i: int| 0 <= i < s.len() implies s[i] != '\r' by {
        assert(s.contains(s[i]));
    }
    lemma_with_pairs(s, at);
    if at < s.len() {
        let rest = s.skip(at + 1);
        assert(s.skip(at).drop_first() =~= rest);
        assert(s.skip(at)[0] == '\n');
        assert(pairs =~= s.take(at) + (seq!['\r', '\n'] + with_pairs(rest)));
        assert(first_break(pairs) == at) by {
            let other = first_break(pairs);
            assert(pairs[at] == '\r');
            if other < at {
                assert(pairs[other] == s[other]);
            }
            if at < other {
                assert(pairs[at] != '\r');
            }
        }
        assert(pairs[at + 1] == '\n');
        assert(pairs.take(at) =~= s.take(at));
        assert(pairs.skip(at + 2) =~= with_pairs(rest));
        let line = s.take(at);
        let (frames, next) = line_fed(SseView { buffer: rest, ..state }, line);
        lemma_line_ignores_buffer(SseView { buffer: rest, ..state }, line, with_pairs(rest));
        let inner = SseView { buffer: rest, ..next };
        assert forall|i: int| 0 <= i < rest.len() implies rest[i] != '\r' by {
            assert(rest[i] == s[at + 1 + i]);
        }
        lemma_pairs_drain_alike(inner);
    } else {
        assert(s.skip(at) =~= seq![]);
        assert(s.take(at) + seq![] =~= s);
    }
}

/// Whether no line that waits for its frame holds a carriage return.
pub open spec fn free_of_returns(data: Seq<Seq<char>>) -> bool {
    forall|i: int| 0 <= i < data.len() ==> !(#[trigger] data[i]).contains('\r')
}

/// The data of a frame.
pub open spec fn data_of(frame: SseFrameView) -> Seq<char> {
    match frame {
        SseFrameView::Message(data) => data,
        SseFrameView::Error(data) => data,
        SseFrameView::Comment => seq![],
    }
}

proof fn lemma_joined_is_free(data: Seq<Seq<char>>)
    requires
        free_of_returns(data),
    ensures
        !joined(data, "\n"@).contains('\r'),
    decreases data.len(),
{
    reveal_strlit("\n");
    if data.len() > 1 {
        let front = data.drop_last();
        assert forall|i: int| 0 <= i < front.len() implies !(#[trigger] front[i]).contains(
            '\r',
        ) by {
            assert(front[i] == data[i]);
        }
        lemma_joined_is_free(front);
        let first = joined(front, "\n"@);
        let whole = joined(data, "\n"@);
        let last = data.last();
        assert(!data[data.len() - 1].contains('\r'));
        assert forall|i: int| 0 <= i < whole.len() implies whole[i] != '\r' by {
            if i < first.len() {
                assert(whole[i] == first[i]);
                assert(first.contains(first[i]));
            } else if i > first.len() {
                assert(whole[i] == last[i - first.len() - 1]);
                assert(last.contains(last[i - first.len() - 1]));
            } else {
                assert(whole[i] == '\n');
            }
        }
    } else if data.len() == 1 {
        assert(!data[0].contains('\r'));
    }
}

/// No frame holds a carriage return, however the lines end.
pub proof fn law_frames_hold_no_returns(state: SseView)
    requires
        free_of_returns(state.data),
    ensures
        free_of_returns(drained(state).1.data),
        forall|i: int|
            0 <= i < drained(state).0.len() ==> !data_of(#[trigger] drained(state).0[i]).contains(
                '\r',
            ),
    decreases state.buffer.len(),
{
    let s = state.buffer;
    let at = first_break(s);
    let len = break_len(s, at);
    lemma_first_break(s);
    if at < s.len() && len > 0 {
        let rest = s.skip(at + len);
        let line = s.take(at);
        let opened = SseView { buffer: rest, ..state };
        let (frames, next) = line_fed(opened, line);
        lemma_joined_is_free(state.data);
        assert forall|i: int| 0 <= i < frames.len() implies !data_of(
            #[trigger] frames[i],
        ).contains('\r') by {
            assert(line.len() == 0);
        }
        assert(free_of_returns(next.data)) by {
            let (name, value) = field_of(line);
            assert forall|i: int| 0 <= i < value.len() implies value[i] != '\r' by {
                let colon = crate::text::first_index(line, ':');
                if line.contains(':') {
                    crate::text::lemma_first_index(line, ':');
                    let tail = line.skip(colon + 1);
                    if tail.len() > 0 && tail[0] == ' ' {
                        assert(value[i] == line[colon + 2 + i]);
                    } else {
                        assert(value[i] == line[colon + 1 + i]);
                    }
                }
            }
        }
        law_frames_hold_no_returns(SseView { buffer: rest, ..next });
        let more = drained(SseView { buffer: rest, ..next }).0;
        assert forall|i: int| 0 <= i < drained(state).0.len() implies !data_of(
            #[trigger] drained(state).0[i],
        ).contains('\r') by {
            if i < frames.len() {
                assert(drained(state).0[i] == frames[i]);
            } else {
                assert(drained(state).0[i] == more[i - frames.len()]);
            }
        }
    }
}

/// A stream whose lines end with a pair of return and feed has the same frames as the one whose
/// lines end with a feed alone, and none of them holds a carriage return.
pub proof fn law_line_ends_make_no_difference(text: Seq<char>)
    requires
        !text.contains('\r'),
    ensures
        fed_chunk(fresh_parser(), encode_utf8(with_pairs(text))) == fed_chunk(
            fresh_parser(),
            encode_utf8(text),
        ),
        forall|i: int|
            #![trigger fed_chunk(fresh_parser(), encode_utf8(text)).0[i]]
            0 <= i < fed_chunk(fresh_parser(), encode_utf8(text)).0.len() ==> !data_of(
                fed_chunk(fresh_parser(), encode_utf8(text)).0[i],
            ).contains('\r'),
{
    let pairs = with_pairs(text);
    vstd::utf8::encode_utf8_valid_utf8(text);
    vstd::utf8::encode_utf8_valid_utf8(pairs);
    vstd::utf8::encode_utf8_decode_utf8(text);
    vstd::utf8::encode_utf8_decode_utf8(pairs);
    let fresh = fresh_parser();
    assert(fresh.tail + encode_utf8(text) =~= encode_utf8(text));
    assert(fresh.tail + encode_utf8(pairs) =~= encode_utf8(pairs));
    lemma_valid_bytes(fresh, encode_utf8(text));
    lemma_valid_bytes(fresh, encode_utf8(pairs));
    assert(fresh.buffer + text =~= text);
    assert(fresh.buffer + pairs =~= pairs);
    let state = SseView { buffer: text, ..fresh };
    lemma_pairs_drain_alike(state);
    law_frames_hold_no_returns(state);
}

/// Whether no line of a text is a comment.
pub open spec fn free_of_comments(text: Seq<char>) -> bool {
    forall|i: int|
        0 <= i < text.len() && #[trigger] text[i] == ':' ==> i > 0 && text[i - 1] != '\r' && text[i
            - 1] != '\n'
}

/// Complete lines that are no comments leave no comment pending, and leave of the buffer what
/// holds no complete line.
proof fn lemma_drained_state(state: SseView)
    ensures
        drained(drained(state).1) == (Seq::<SseFrameView>::empty(), drained(state).1),
        free_of_comments(state.buffer) && !state.comment ==> !drained(state).1.comment
            && free_of_comments(drained(state).1.buffer),
    decreases state.buffer.len(),
{
    let buffer = state.buffer;
    let at = first_break(buffer);
    let len = break_len(buffer, at);
    lemma_first_break(buffer);
    if at < buffer.len() && len > 0 {
        let rest = buffer.skip(at + len);
        let line = buffer.take(at);
        lemma_line_ignores_buffer(SseView { buffer: rest, ..state }, line, rest);
        let (_, next) = line_fed(SseView { buffer: rest, ..state }, line);
        let inner = SseView { buffer: rest, ..next };
        if free_of_comments(buffer) && !state.comment {
            assert forall|i: int| 0 <= i < rest.len() && #[trigger] rest[i] == ':' implies i > 0
                && rest[i - 1] != '\r' && rest[i - 1] != '\n' by {
                assert(buffer[at + len + i] == ':');
                if i > 0 {
                    assert(rest[i - 1] == buffer[at + len + i - 1]);
                }
            }
            if line.len() > 0 {
                assert(line[0] == buffer[0]);
            }
            assert(!next.comment);
        }
        lemma_drained_state(inner);
        assert(drained(state).1 == drained(inner).1);
    }
}

/// What is left of a text once its complete lines are gone is one line, and perhaps a carriage
/// return.
proof fn lemma_left_over(buffer: Seq<char>)
    requires
        break_len(buffer, first_break(buffer)) == 0,
    ensures
        first_break(buffer) == buffer.len() || first_break(buffer) + 1 == buffer.len(),
        first_break(buffer) < buffer.len() ==> buffer.last() == '\r',
        without_breaks(buffer) == buffer.take(first_break(buffer)),
{
    lemma_first_break(buffer);
    let at = first_break(buffer);
    if at < buffer.len() {
        assert(buffer.drop_last() =~= buffer.take(at));
        if at > 0 {
            assert(buffer.take(at).last() == buffer[at - 1]);
        }
        assert(without_breaks(buffer.take(at)) == buffer.take(at));
    } else {
        assert(buffer.take(at) =~= buffer);
        if at > 0 {
            assert(buffer.last() == buffer[at - 1]);
        }
    }
}

/// Where complete lines are gone, the end does what two line feeds do. Left out is a comment that
/// is pending beside a frame while no line is open: the second line feed would show it.
pub proof fn law_the_end_is_a_blank_line(state: SseView)
    requires
        drained(state) == (Seq::<SseFrameView>::empty(), state),
        state.buffer.len() > 0 || !state.comment || frame_of(state.event, state.data) is None,
    ensures
        flushed(state) == fed(state, seq!['\n', '\n']),
{
    let feeds = seq!['\n', '\n'];
    let buffer = state.buffer;
    let long = buffer + feeds;
    let at = first_break(buffer);
    lemma_first_break(buffer);
    lemma_first_break(long);
    let whole = SseView { buffer: long, ..state };
    assert(break_len(buffer, at) == 0) by {
        if at < buffer.len() && break_len(buffer, at) > 0 {
            let rest = buffer.skip(at + break_len(buffer, at));
            let (_, next) = line_fed(SseView { buffer: rest, ..state }, buffer.take(at));
            lemma_draining_shrinks(SseView { buffer: rest, ..next });
        }
    }
    lemma_left_over(buffer);
    let line = buffer.take(at);
    assert(first_break(long) == at) by {
        let other = first_break(long);
        if other < at {
            assert(long[other] == buffer[other]);
        }
        if at < other {
            assert(long[at] != '\r' && long[at] != '\n');
        }
    }
    assert(long.take(at) =~= line);
    let len = break_len(long, at);
    assert(long.skip(at + len) =~= seq!['\n']);
    let one = seq!['\n'];
    assert(first_break(one) == 0);
    assert(break_len(one, 0) == 1);
    assert(one.take(0) =~= seq![]);
    assert(one.skip(1) =~= seq![]);
    let empty = Seq::<char>::empty();
    lemma_line_ignores_buffer(SseView { buffer: empty, ..state }, line, one);
    let (frames, next) = line_fed(SseView { buffer: empty, ..state }, line);
    let then = SseView { buffer: one, ..next };
    assert(line_fed(SseView { buffer: one, ..state }, line) == (frames, then));
    lemma_line_ignores_buffer(next, empty, empty);
    let (more, last) = line_fed(SseView { buffer: empty, ..next }, empty);
    assert(next.buffer == empty);
    assert(SseView { buffer: empty, ..next } == next);
    let end = SseView { buffer: empty, ..last };
    assert(last.buffer == empty);
    assert(drained(end) == (Seq::<SseFrameView>::empty(), end));
    assert(drained(then).0 =~= more);
    assert(drained(then).1 == last);
    assert(drained(whole).0 =~= frames + more);
    assert(drained(whole).1 == last);
    if buffer.len() == 0 {
        assert(line =~= empty);
        assert(SseView { buffer: empty, ..state } == state);
        assert(more =~= seq![]);
        assert(frames + more =~= frames);
    }
}

/// Draining never lengthens what waits in the buffer.
proof fn lemma_draining_shrinks(state: SseView)
    ensures
        drained(state).1.buffer.len() <= state.buffer.len(),
    decreases state.buffer.len(),
{
    let at = first_break(state.buffer);
    let len = break_len(state.buffer, at);
    lemma_first_break(state.buffer);
    if at < state.buffer.len() && len > 0 {
        let rest = state.buffer.skip(at + len);
        let (_, next) = line_fed(SseView { buffer: rest, ..state }, state.buffer.take(at));
        lemma_draining_shrinks(SseView { buffer: rest, ..next });
    }
}

/// A text without comments gives, up to its end, the frames of the text with two line feeds behind
/// it; and a stream that has ended gives nothing more.
pub proof fn law_the_end_closes_what_is_open(text: Seq<char>)
    requires
        free_of_comments(text),
    ensures
        ({
            let (frames, open) = fed_chunk(fresh_parser(), encode_utf8(text));
            let (more, ended) = finished(open);
            &&& frames + more == fed_chunk(
                fresh_parser(),
                encode_utf8(text + seq!['\n', '\n']),
            ).0
            &&& finished(ended) == (Seq::<SseFrameView>::empty(), ended)
        }),
{
    let feeds = seq!['\n', '\n'];
    let longer = text + feeds;
    let fresh = fresh_parser();
    vstd::utf8::encode_utf8_valid_utf8(text);
    vstd::utf8::encode_utf8_valid_utf8(longer);
    vstd::utf8::encode_utf8_decode_utf8(text);
    vstd::utf8::encode_utf8_decode_utf8(longer);
    assert(fresh.tail + encode_utf8(text) =~= encode_utf8(text));
    assert(fresh.tail + encode_utf8(longer) =~= encode_utf8(longer));
    lemma_valid_bytes(fresh, encode_utf8(text));
    lemma_valid_bytes(fresh, encode_utf8(longer));
    let state = SseView { buffer: text, ..fresh };
    assert(fresh.buffer + text =~= text);
    lemma_drained_state(state);
    lemma_draining_ignores_the_tail(state, seq![]);
    let (frames, open) = fed_chunk(fresh, encode_utf8(text));
    assert(open == fed(fresh, text).1);
    law_text_may_arrive_in_pieces(fresh, text, feeds);
    law_the_end_is_a_blank_line(open);
    let (more, ended) = finished(open);
    assert(!ended.comment && ended.buffer.len() == 0 && ended.data.len() == 0) by {
        if open.buffer.len() > 0 {
            lemma_no_comment_left(open.buffer);
        }
    }
}

/// A line without its end begins as it did.
proof fn lemma_no_comment_left(buffer: Seq<char>)
    requires
        free_of_comments(buffer),
    ensures
        without_breaks(buffer).len() > 0 ==> without_breaks(buffer)[0] != ':',
    decreases buffer.len(),
{
    if buffer.len() > 0 && (buffer.last() == '\r' || buffer.last() == '\n') {
        let front = buffer.drop_last();
        assert forall|i: int| 0 <= i < front.len() && #[trigger] front[i] == ':' implies i > 0
            && front[i - 1] != '\r' && front[i - 1] != '\n' by {
            assert(buffer[i] == ':');
        }
        lemma_no_comment_left(front);
    }
}

impl Default for SseParser {
    fn default() -> (r: SseParser)
        ensures
            r@ == fresh_parser(),
    {
        SseParser::new()
    }
}

impl SseParser {
    /// Create an empty parser.
    pub fn new() -> (r: SseParser)
        ensures
            r@ == fresh_parser(),
    {
        let r = SseParser {
            tail: Vec::new(),
            buffer: Vec::new(),
            event: None,
            data_lines: Vec::new(),
            pending_comment: false,
        };
        assert(r@ =~= fresh_parser());
        r
    }

    /// Feed raw bytes; return every complete frame they closed.
    ///
    /// Lines may end with LF, CRLF, or a lone CR. A trailing lone CR at the buffer edge waits for
    /// the next byte in case it is the first half of a CRLF pair split across chunks, and so does a
    /// character whose bytes are split across chunks.
    pub fn feed(&mut self, chunk: &[u8]) -> (r: Vec<SseFrame>)
        ensures
            views(r@) == fed_chunk(old(self)@, chunk@).0,
            final(self)@ == fed_chunk(old(self)@, chunk@).1,
            waits(final(self)@.tail),
    {
        let ghost given = self@;
        let mut bytes: Vec<u8> = Vec::new();
        std::mem::swap(&mut bytes, &mut self.tail);
        assert(self.tail@ =~= seq![]);
        proof {
            law_only_a_cut_character_waits(given, chunk@);
        }
        if bytes.len() > 0 && chunk.len() > 0 && !(0x80 <= chunk[0] && chunk[0] <= 0xbf) {
            let text = decode_lossy(bytes.as_slice());
            let mut frames = self.feed_text(text.as_str());
            let ghost known = frames@;
            let mut own: Vec<u8> = Vec::new();
            own.extend_from_slice(chunk);
            assert(own@ =~= chunk@);
            let mut more = self.feed_bytes(own);
            let ghost rest = more@;
            frames.append(&mut more);
            assert(views(frames@) =~= views(known) + views(rest));
            return frames;
        }
        bytes.extend_from_slice(chunk);
        assert(bytes@ =~= given.tail + chunk@);
        self.feed_bytes(bytes)
    }

    /// Process bytes behind which nothing waits yet.
    fn feed_bytes(&mut self, bytes: Vec<u8>) -> (r: Vec<SseFrame>)
        ensures
            views(r@) == fed_bytes(old(self)@, bytes@).0,
            final(self)@ == fed_bytes(old(self)@, bytes@).1,
    {
        let ghost given = self@;
        let ghost all = bytes@;
        let mut bytes = bytes;
        let cut: usize = cut_length(bytes.as_slice());
        let whole: usize = bytes.len() - cut;
        self.tail = bytes.split_off(whole);
        assert(bytes@ =~= all.take(whole as int));
        assert(self.tail@ =~= all.skip(whole as int));
        let text = decode_lossy(bytes.as_slice());
        self.feed_text(text.as_str())
    }

    /// Process text; return every complete frame it closed.
    fn feed_text(&mut self, text: &str) -> (r: Vec<SseFrame>)
        ensures
            views(r@) == fed(old(self)@, text@).0,
            final(self)@ == fed(old(self)@, text@).1,
    {
        let ghost given = self@;
        let mut more = chars_of(text);
        self.buffer.append(&mut more);
        let mut frames: Vec<SseFrame> = Vec::new();
        let ghost expected = fed(given, text@);
        assert(self@ =~= (SseView { buffer: given.buffer + text@, ..given }));
        assert(views(frames@) =~= seq![]);
        assert(views(frames@) + drained(self@).0 =~= expected.0);
        loop
            invariant
                expected.0 == views(frames@) + drained(self@).0,
                expected.1 == drained(self@).1,
            ensures
                views(frames@) == expected.0,
                self@ == expected.1,
            decreases self.buffer@.len(),
        {
            let ghost before = self@;
            let at: usize = self.find_break();
            let len: usize = if at >= self.buffer.len() {
                0
            } else if self.buffer[at] == '\n' {
                1
            } else if at + 1 == self.buffer.len() {
                0
            } else if self.buffer[at + 1] == '\n' {
                2
            } else {
                1
            };
            assert(len == break_len(before.buffer, at as int));
            if len == 0 {
                assert(drained(before).0 =~= seq![]);
                assert(views(frames@) + seq![] =~= views(frames@));
                break;
            }
            let line = string_of(vstd::slice::slice_subrange(self.buffer.as_slice(), 0, at));
            let rest = self.buffer.split_off(at + len);
            self.buffer = rest;
            let ghost cut = self@;
            let ghost so_far = frames@;
            proof {
                assert(line@ =~= before.buffer.take(at as int));
                assert(cut.buffer =~= before.buffer.skip(at + len));
                lemma_line_ignores_buffer(cut, line@, cut.buffer);
            }
            self.feed_line(line.as_str(), &mut frames);
            proof {
                let (out, next) = line_fed(cut, line@);
                assert(drained(before).0 == out + drained(self@).0);
                assert(views(so_far) + (out + drained(self@).0) =~= (views(so_far) + out)
                    + drained(self@).0);
            }
        }
        frames
    }

    fn find_break(&self) -> (r: usize)
        ensures
            r == first_break(self@.buffer),
            r <= self.buffer@.len(),
    {
        let ghost all = self.buffer@;
        let mut i: usize = 0;
        while i < self.buffer.len() && self.buffer[i] != '\r' && self.buffer[i] != '\n'
            invariant
                i <= self.buffer@.len(),
                all == self.buffer@,
                forall|j: int| 0 <= j < i ==> all[j] != '\r' && all[j] != '\n',
            decreases self.buffer@.len() - i,
        {
            i += 1;
        }
        proof {
            lemma_first_break(all);
            let found = first_break(all);
            if found < i {
                assert(all[found] != '\r' && all[found] != '\n');
            }
            if i < found {
                assert(all[i as int] != '\r' && all[i as int] != '\n');
            }
        }
        i
    }

    /// Process one complete line.
    fn feed_line(&mut self, line: &str, frames: &mut Vec<SseFrame>)
        ensures
            views(final(frames)@) == views(old(frames)@) + line_fed(old(self)@, line@).0,
            final(self)@ == line_fed(old(self)@, line@).1,
    {
        let ghost given = self@;
        let ghost so_far = frames@;
        proof {
            reveal_strlit(":");
            reveal_strlit(" ");
            assert(views(so_far) + seq![] =~= views(so_far));
        }
        if line.is_empty() {
            self.close_frame(frames);
            return;
        }
        if let Some(_comment) = strip_prefix(line, ":") {
            assert(line@.take(1)[0] == ':');
            self.pending_comment = true;
            return;
        }
        proof {
            if line@[0] == ':' {
                assert(line@.take(1) =~= ":"@);
            }
        }
        let (field, value) = match split_once(line, ':') {
            Some((field, value)) => match strip_prefix(value, " ") {
                Some(stripped) => {
                    assert(value@.take(1)[0] == ' ');
                    assert(value@.skip(1) =~= value@.drop_first());
                    (field, stripped)
                },
                None => {
                    proof {
                        if value@.len() > 0 && value@[0] == ' ' {
                            assert(value@.take(1) =~= " "@);
                        }
                    }
                    (field, value)
                },
            },
            None => {
                proof {
                    reveal_strlit("");
                    assert(""@ =~= seq![]);
                }
                (line, "")
            },
        };
        assert((field@, value@) == field_of(line@));
        if str_eq(field, "event") {
            self.event = Some(value.to_owned());
        } else if str_eq(field, "data") {
            let ghost before = self.data_lines@;
            let copy = value.to_owned();
            self.data_lines.push(copy);
            assert(views(self.data_lines@) =~= views(before).push(value@));
        }
    }

    /// Flush a partially-buffered frame at end-of-stream, if any.
    pub fn finish(&mut self) -> (r: Vec<SseFrame>)
        ensures
            views(r@) == finished(old(self)@).0,
            final(self)@ == finished(old(self)@).1,
    {
        if self.tail.len() > 0 {
            let ghost given = self@;
            let mut tail: Vec<u8> = Vec::new();
            std::mem::swap(&mut tail, &mut self.tail);
            assert(self.tail@ =~= seq![]);
            let text = decode_lossy(tail.as_slice());
            let mut frames = self.feed_text(text.as_str());
            let ghost known = frames@;
            let mut more = self.flush();
            let ghost rest = more@;
            frames.append(&mut more);
            assert(views(frames@) =~= views(known) + views(rest));
            return frames;
        }
        self.flush()
    }

    fn flush(&mut self) -> (r: Vec<SseFrame>)
        ensures
            views(r@) == flushed(old(self)@).0,
            final(self)@ == flushed(old(self)@).1,
    {
        let ghost given = self@;
        let mut frames: Vec<SseFrame> = Vec::new();
        assert(views(frames@) =~= seq![]);
        if self.buffer.len() > 0 {
            let mut n: usize = self.buffer.len();
            assert(given.buffer.take(n as int) =~= given.buffer);
            while n > 0 && (self.buffer[n - 1] == '\r' || self.buffer[n - 1] == '\n')
                invariant
                    n <= self.buffer@.len(),
                    self@ == given,
                    given.buffer == self.buffer@,
                    without_breaks(given.buffer) == without_breaks(given.buffer.take(n as int)),
                decreases n,
            {
                assert(given.buffer.take(n as int).drop_last() =~= given.buffer.take(n - 1));
                n -= 1;
            }
            let line = string_of(vstd::slice::slice_subrange(self.buffer.as_slice(), 0, n));
            assert(line@ =~= without_breaks(given.buffer));
            self.buffer = Vec::new();
            assert(self@ =~= (SseView { buffer: seq![], ..given }));
            self.feed_line(line.as_str(), &mut frames);
            let ghost first = frames@;
            assert(views(first) =~= line_fed(SseView { buffer: seq![], ..given }, line@).0);
        }
        self.close_frame(&mut frames);
        assert(views(frames@) =~= flushed(given).0);
        frames
    }

    /// Closes a frame if there is one, or else surfaces a pending comment.
    fn close_frame(&mut self, frames: &mut Vec<SseFrame>)
        ensures
            views(final(frames)@) == views(old(frames)@) + closed(old(self)@).0,
            final(self)@ == closed(old(self)@).1,
    {
        let ghost so_far = frames@;
        let ghost given = self@;
        match self.take_frame() {
            Some(frame) => {
                frames.push(frame);
                assert(views(frames@) =~= views(so_far) + seq![frame@]);
            },
            None => if self.pending_comment {
                frames.push(SseFrame::Comment);
                self.pending_comment = false;
                assert(views(frames@) =~= views(so_far) + seq![SseFrameView::Comment]);
            } else {
                assert(views(frames@) =~= views(so_far) + seq![]);
            },
        }
    }

    /// Consume accumulated fields into one frame, if there is data.
    fn take_frame(&mut self) -> (r: Option<SseFrame>)
        ensures
            view_opt(r) == frame_of(old(self)@.event, old(self)@.data),
            final(self)@ == (SseView { event: None, data: seq![], ..old(self)@ }),
    {
        let ghost given = self@;
        let mut event: Option<String> = None;
        std::mem::swap(&mut event, &mut self.event);
        let mut data_lines: Vec<String> = Vec::new();
        std::mem::swap(&mut data_lines, &mut self.data_lines);
        assert(views(self.data_lines@) =~= seq![]);
        let name = match event {
            Some(name) => name,
            None => "message".to_owned(),
        };
        assert(given.data.len() == data_lines@.len());
        if data_lines.len() == 0 {
            return None;
        }
        let data = join(&data_lines, "\n");
        if str_eq(name.as_str(), "message") {
            Some(SseFrame::Message(data))
        } else if str_eq(name.as_str(), "error") {
            Some(SseFrame::Error(data))
        } else {
            None
        }
    }
}

/// What to watch.
#[derive(Debug, PartialEq, Eq)]
pub struct WatchArgs {
    /// Watch only this provider.
    pub provider: Option<String>,
    /// Watch only this thread.
    pub thread_id: Option<String>,
    /// Go on behind this opaque replay cursor.
    pub cursor: Option<String>,
    /// Include the opaque replay cursor alongside each streamed message. This concerns the output
    /// alone and is no part of the request.
    pub include_cursor: bool,
}

/// The mathematical value of a watch's arguments.
#[verifier::ext_equal]
pub struct WatchView {
    pub provider: Option<Seq<char>>,
    pub thread_id: Option<Seq<char>>,
    pub cursor: Option<Seq<char>>,
    pub include_cursor: bool,
}

impl View for WatchArgs {
    type V = WatchView;

    open spec fn view(&self) -> WatchView {
        WatchView {
            provider: view_opt(self.provider),
            thread_id: view_opt(self.thread_id),
            cursor: view_opt(self.cursor),
            include_cursor: self.include_cursor,
        }
    }
}

/// A parameter of a query, where it is given.
pub open spec fn query_part(name: Seq<char>, value: Option<Seq<char>>) -> Seq<(Seq<char>, Seq<char>)> {
    match value {
        Some(value) => seq![(name, value)],
        None => seq![],
    }
}

/// The query of a watch request.
pub open spec fn watch_query_of(args: WatchView) -> Seq<(Seq<char>, Seq<char>)> {
    query_part("provider"@, args.provider) + query_part("thread_id"@, args.thread_id) + query_part(
        "cursor"@,
        args.cursor,
    )
}

/// The parameters of a watch in JSON.
pub open spec fn watch_parameters_of(args: WatchView) -> JsonView {
    JsonView::Object(
        seq![
            ("cursor"@, opt_text_view(args.cursor)),
            ("provider"@, opt_text_view(args.provider)),
            ("thread_id"@, opt_text_view(args.thread_id)),
        ],
    )
}

impl WatchArgs {
    /// The parameters of the watch in JSON.
    pub fn parameters_json(&self) -> (r: Json)
        ensures
            r@ == watch_parameters_of(self@),
    {
        let mut members: Vec<(String, Json)> = Vec::new();
        members.push(member("cursor", json_opt_text(&self.cursor)));
        members.push(member("provider", json_opt_text(&self.provider)));
        members.push(member("thread_id", json_opt_text(&self.thread_id)));
        assert(member_views(members@) =~= watch_parameters_of(self@)->Object_0);
        json_object(members)
    }
}

/// Flags that concern the output alone do not enter the request.
pub proof fn law_output_flags_stay_out_of_the_request(args: WatchView, other: bool)
    ensures
        watch_query_of(WatchView { include_cursor: other, ..args }) == watch_query_of(args),
        watch_parameters_of(WatchView { include_cursor: other, ..args }) == watch_parameters_of(
            args,
        ),
{
}

/// The URL of the event stream.
pub fn watch_url(url_base: &str) -> (r: String)
    ensures
        r@ == url_base@ + "/v1/events"@,
{
    prefixed(url_base, "/v1/events")
}

/// The query of a watch request.
pub fn watch_query(args: &WatchArgs) -> (r: Vec<(String, String)>)
    ensures
        r@.map_values(|pair: (String, String)| (pair.0@, pair.1@)) == watch_query_of(args@),
{
    let mut query: Vec<(String, String)> = Vec::new();
    if let Some(provider) = &args.provider {
        query.push(("provider".to_owned(), provider.clone()));
    }
    if let Some(thread_id) = &args.thread_id {
        query.push(("thread_id".to_owned(), thread_id.clone()));
    }
    if let Some(cursor) = &args.cursor {
        query.push(("cursor".to_owned(), cursor.clone()));
    }
    assert(query@.map_values(|pair: (String, String)| (pair.0@, pair.1@)) =~= watch_query_of(
        args@,
    ));
    query
}

/// The diagnostic for a request that the server refused.
pub fn http_error_line(status: &str, body: &str) -> (r: String)
    ensures
        r@ == "watch: HTTP "@ + status@ + ": "@ + body@,
{
    let mut line = prefixed("watch: HTTP ", status);
    line.append(": ");
    line.append(body);
    line
}

/// What a request that the server refused ends the watch with: the diagnostic and the exit code.
pub fn refused_request(status: &str, body: &str) -> (r: (String, u8))
    ensures
        r.0@ == "watch: HTTP "@ + status@ + ": "@ + body@,
        r.1 == WATCH_EXIT_ERROR,
{
    (http_error_line(status, body), WATCH_EXIT_ERROR)
}

/// What to do about a frame.
#[derive(Debug, PartialEq, Eq)]
pub enum WatchAction {
    /// Write this line to the output.
    Output(String),
    /// Write this line to the diagnostics, and stop where told to.
    Diagnose { line: String, stop: bool },
    /// Nothing.
    Ignore,
}

/// The mathematical value of an action.
#[verifier::ext_equal]
pub enum WatchActionView {
    Output(Seq<char>),
    Diagnose { line: Seq<char>, stop: bool },
    Ignore,
}

impl View for WatchAction {
    type V = WatchActionView;

    open spec fn view(&self) -> WatchActionView {
        match *self {
            WatchAction::Output(line) => WatchActionView::Output(line@),
            WatchAction::Diagnose { line, stop } => WatchActionView::Diagnose { line: line@, stop },
            WatchAction::Ignore => WatchActionView::Ignore,
        }
    }
}

/// What to do about a frame: a filtered stream stops at its error.
pub open spec fn action_of(filtered: bool, frame: SseFrameView) -> WatchActionView {
    match frame {
        SseFrameView::Message(data) => WatchActionView::Output(data),
        SseFrameView::Error(data) => WatchActionView::Diagnose {
            line: "watch: error frame: "@ + data,
            stop: filtered,
        },
        SseFrameView::Comment => WatchActionView::Ignore,
    }
}

/// What to do about frames, up to the one that stops the watch.
pub open spec fn actions_of(filtered: bool, frames: Seq<SseFrameView>) -> Seq<WatchActionView>
    decreases frames.len(),
{
    if frames.len() == 0 {
        seq![]
    } else {
        let action = action_of(filtered, frames[0]);
        if action matches WatchActionView::Diagnose { stop: true, .. } {
            seq![action]
        } else {
            seq![action] + actions_of(filtered, frames.drop_first())
        }
    }
}

/// Whether a stream that stood in error, or did not, stands in error behind frames: a filtered one
/// once an error came, an aggregate while nothing but comments follows an error.
pub open spec fn error_after(filtered: bool, before: bool, frames: Seq<SseFrameView>) -> bool
    decreases frames.len(),
{
    if filtered {
        before || has_error(frames)
    } else if frames.len() == 0 {
        before
    } else {
        match frames.last() {
            SseFrameView::Message(_) => false,
            SseFrameView::Error(_) => true,
            SseFrameView::Comment => error_after(filtered, before, frames.drop_last()),
        }
    }
}

/// Whether an error is among frames.
pub open spec fn has_error(frames: Seq<SseFrameView>) -> bool {
    exists|i: int| 0 <= i < frames.len() && #[trigger] frames[i] is Error
}

/// It makes no difference in which portions the frames come: whether the stream stands in error is
/// told by the frames alone.
pub proof fn law_portions_of_frames_add_up(
    filtered: bool,
    before: bool,
    first: Seq<SseFrameView>,
    second: Seq<SseFrameView>,
)
    ensures
        error_after(filtered, before, first + second) == error_after(
            filtered,
            error_after(filtered, before, first),
            second,
        ),
    decreases second.len(),
{
    let whole = first + second;
    if filtered {
        if has_error(whole) {
            let i = choose|i: int| 0 <= i < whole.len() && #[trigger] whole[i] is Error;
            if i < first.len() {
                assert(first[i] is Error);
            } else {
                assert(second[i - first.len()] is Error);
            }
        }
        if has_error(first) {
            let i = choose|i: int| 0 <= i < first.len() && #[trigger] first[i] is Error;
            assert(whole[i] is Error);
        }
        if has_error(second) {
            let i = choose|i: int| 0 <= i < second.len() && #[trigger] second[i] is Error;
            assert(whole[first.len() + i] is Error);
        }
    } else if second.len() == 0 {
        assert(whole =~= first);
    } else {
        assert(whole.last() == second.last());
        assert(whole.drop_last() =~= first + second.drop_last());
        law_portions_of_frames_add_up(filtered, before, first, second.drop_last());
    }
}

/// An aggregate fails only where its last branch does: a message behind the last error makes the
/// end a success, and an error behind the last message a failure.
pub proof fn law_an_aggregate_ends_as_its_last_frame_does(
    before: bool,
    frames: Seq<SseFrameView>,
    i: int,
)
    requires
        0 <= i < frames.len(),
        !(frames[i] is Comment),
        forall|j: int| i < j < frames.len() ==> (#[trigger] frames[j]) is Comment,
    ensures
        error_after(false, before, frames) == (frames[i] is Error),
    decreases frames.len(),
{
    if i < frames.len() - 1 {
        assert(frames[frames.len() - 1] is Comment);
        let front = frames.drop_last();
        assert forall|j: int| i < j < front.len() implies (#[trigger] front[j]) is Comment by {
            assert(frames[j] is Comment);
        }
        law_an_aggregate_ends_as_its_last_frame_does(before, front, i);
    }
}

/// The course of a watch.
#[derive(Debug)]
pub struct WatchRun {
    /// Whether the stream is filtered to one provider.
    pub filtered: bool,
    /// Whether the stream stands in error: a filtered one once an error came, an aggregate while no
    /// message follows its last error.
    pub in_error: bool,
}

impl WatchRun {
    /// Starts a watch.
    pub fn start(args: &WatchArgs) -> (r: WatchRun)
        ensures
            r.filtered == (args@.provider is Some),
            !r.in_error,
    {
        WatchRun { filtered: args.provider.is_some(), in_error: false }
    }

    /// Handle one parsed frame: a filtered stream stops at its error.
    pub fn handle_frame(&mut self, frame: SseFrame) -> (r: WatchAction)
        ensures
            r@ == action_of(old(self).filtered, frame@),
            final(self).filtered == old(self).filtered,
            final(self).in_error == error_after(
                old(self).filtered,
                old(self).in_error,
                seq![frame@],
            ),
    {
        proof {
            let frames = seq![frame@];
            assert(frames[0] == frame@);
            assert(frames.drop_last() =~= seq![]);
            assert(error_after(self.filtered, self.in_error, frames.drop_last()) == self.in_error) by {
                assert(!has_error(frames.drop_last()));
            }
        }
        match frame {
            SseFrame::Message(data) => {
                if !self.filtered {
                    self.in_error = false;
                }
                WatchAction::Output(data)
            },
            SseFrame::Error(data) => {
                self.in_error = true;
                WatchAction::Diagnose {
                    line: prefixed("watch: error frame: ", data.as_str()),
                    stop: self.filtered,
                }
            },
            SseFrame::Comment => WatchAction::Ignore,
        }
    }

    /// Handle the frames that a chunk closed, up to the one that stops the watch.
    pub fn handle_frames(&mut self, frames: Vec<SseFrame>) -> (r: Vec<WatchAction>)
        ensures
            views(r@) == actions_of(old(self).filtered, views(frames@)),
            final(self).filtered == old(self).filtered,
            final(self).in_error == error_after(
                old(self).filtered,
                old(self).in_error,
                views(frames@),
            ),
    {
        let ghost all = views(frames@);
        let ghost filtered = self.filtered;
        let ghost saw = self.in_error;
        let mut actions: Vec<WatchAction> = Vec::new();
        assert(all.skip(0) =~= all);
        assert(all.take(0) =~= seq![]);
        assert(!has_error(all.take(0)));
        assert(views(actions@) + actions_of(filtered, all) =~= actions_of(filtered, all));
        for frame in it: frames
            invariant
                it.seq() == frames@,
                all == views(frames@),
                self.filtered == filtered,
                filtered == old(self).filtered,
                saw == old(self).in_error,
                views(actions@) + actions_of(filtered, all.skip(it.index())) == actions_of(
                    filtered,
                    all,
                ),
                self.in_error == error_after(filtered, saw, all.take(it.index())),
        {
            let ghost i = it.index();
            let ghost known = views(actions@);
            let ghost rest = all.skip(i);
            assert(rest[0] == all[i]);
            assert(all[i] == frame@);
            assert(rest.drop_first() =~= all.skip(i + 1));
            proof {
                law_portions_of_frames_add_up(filtered, saw, all.take(i), seq![frame@]);
                assert(all.take(i) + seq![frame@] =~= all.take(i + 1));
                if filtered && frame@ is Error {
                    assert(all[i] is Error);
                    assert(all.take(i + 1)[i] is Error);
                }
            }
            let action = self.handle_frame(frame);
            let stop = match &action {
                WatchAction::Diagnose { stop, .. } => *stop,
                _ => false,
            };
            let ghost made = action@;
            actions.push(action);
            assert(views(actions@) =~= known.push(made));
            if stop {
                assert(views(actions@) =~= known + seq![made]);
                return actions;
            }
            assert(known.push(made) + actions_of(filtered, all.skip(i + 1)) =~= known + (seq![made]
                + actions_of(filtered, all.skip(i + 1))));
        }
        assert(all.skip(all.len() as int) =~= seq![]);
        assert(all.take(all.len() as int) =~= all);
        assert(views(actions@) + seq![] =~= views(actions@));
        actions
    }

    /// The exit code where the stream ended: non-zero where it stands in error.
    pub fn exit_code(&self) -> (r: u8)
        ensures
            r == (if self.in_error {
                WATCH_EXIT_ERROR
            } else {
                0
            }),
    {
        if self.in_error {
            WATCH_EXIT_ERROR
        } else {
            0
        }
    }
}

/// The lines that actions write to the output.
pub open spec fn outputs_of(actions: Seq<WatchActionView>) -> Seq<Seq<char>>
    decreases actions.len(),
{
    if actions.len() == 0 {
        seq![]
    } else {
        (match actions[0] {
            WatchActionView::Output(line) => seq![line],
            _ => seq![],
        }) + outputs_of(actions.drop_first())
    }
}

/// The data of the messages among frames.
pub open spec fn messages_of(frames: Seq<SseFrameView>) -> Seq<Seq<char>>
    decreases frames.len(),
{
    if frames.len() == 0 {
        seq![]
    } else {
        (match frames[0] {
            SseFrameView::Message(data) => seq![data],
            _ => seq![],
        }) + messages_of(frames.drop_first())
    }
}

/// Every message is written unchanged as one line, in order, as long as no error stops the watch.
pub proof fn law_messages_are_written_unchanged(filtered: bool, frames: Seq<SseFrameView>)
    requires
        !filtered || !has_error(frames),
    ensures
        outputs_of(actions_of(filtered, frames)) == messages_of(frames),
    decreases frames.len(),
{
    if frames.len() > 0 {
        let rest = frames.drop_first();
        assert(frames[0] is Error ==> has_error(frames));
        if has_error(rest) {
            let i = choose|i: int| 0 <= i < rest.len() && #[trigger] rest[i] is Error;
            assert(frames[i + 1] is Error);
        }
        law_messages_are_written_unchanged(filtered, rest);
        let action = action_of(filtered, frames[0]);
        let actions = actions_of(filtered, frames);
        assert(actions[0] == action);
        assert(actions.drop_first() =~= actions_of(filtered, rest));
    }
}

/// The server is the one that the environment names, or else the local one.
pub proof fn law_the_environment_names_the_server(env: Seq<char>)
    ensures
        !blank(env) ==> server_url_of(Some(env)) == trimmed(env),
        blank(env) ==> server_url_of(Some(env)) == "http://127.0.0.1:3000"@,
        server_url_of(None) == "http://127.0.0.1:3000"@,
{
}

/// A line is read once it ends, and what it says depends on nothing behind it.
pub proof fn law_a_line_is_read_once_it_ends(state: SseView, line: Seq<char>)
    requires
        state.buffer.len() == 0,
        !line.contains('\r'),
        !line.contains('\n'),
    ensures
        fed(state, line.push('\n')) == line_fed(state, line),
        fed(state, line).0.len() == 0,
        fed(state, line).1 == (SseView { buffer: line, ..state }),
{
    let none = Seq::<char>::empty();
    let text = line.push('\n');
    assert(state.buffer + text =~= text);
    assert(state.buffer + line =~= line);
    lemma_first_break(text);
    lemma_first_break(line);
    assert forall|i: int| 0 <= i < line.len() implies text[i] != '\r' && text[i] != '\n' by {
        assert(text[i] == line[i]);
        assert(line.contains(line[i]));
    }
    let at = first_break(text);
    assert(text[line.len() as int] == '\n');
    assert(at == line.len());
    let n = first_break(line);
    if n < line.len() {
        assert(line.contains(line[n]));
    }
    assert(text.take(at) =~= line);
    assert(text.skip(at + 1) =~= none);
    assert(state.buffer =~= none);
    assert(state == (SseView { buffer: none, ..state }));
    lemma_line_ignores_buffer(state, line, none);
    let (frames, next) = line_fed(state, line);
    assert(drained(next) == (Seq::<SseFrameView>::empty(), next));
    assert(frames + Seq::<SseFrameView>::empty() =~= frames);
}

/// A field of a line is named before the first colon and has for value what stands behind, without
/// one space; a line that begins with a colon is a comment, and fields of other names say nothing.
pub proof fn law_fields_are_named_before_the_colon(
    state: SseView,
    name: Seq<char>,
    value: Seq<char>,
)
    requires
        name.len() > 0,
        !name.contains(':'),
    ensures
        ({
            let close = line_fed(state, name + seq![':'] + value);
            let apart = line_fed(state, name + seq![':', ' '] + value);
            let comment = line_fed(state, seq![':'] + value);
            &&& apart.0.len() == 0
            &&& name == "data"@ ==> apart.1 == (SseView { data: state.data.push(value), ..state })
            &&& name == "event"@ ==> apart.1 == (SseView { event: Some(value), ..state })
            &&& name != "data"@ && name != "event"@ ==> apart.1 == state
            &&& value.len() == 0 || value[0] != ' ' ==> close == apart
            &&& comment.0.len() == 0 && comment.1 == (SseView { comment: true, ..state })
        }),
{
    reveal_strlit("data");
    reveal_strlit("event");
    assert("data"@.len() == 4 && "event"@.len() == 5);
    let close = name + seq![':'] + value;
    let apart = name + seq![':', ' '] + value;
    let n = name.len() as int;
    assert(close[n] == ':' && apart[n] == ':');
    assert forall|i: int| 0 <= i < n implies close[i] != ':' && apart[i] != ':' by {
        assert(close[i] == name[i] && apart[i] == name[i]);
        assert(name.contains(name[i]));
    }
    crate::text::lemma_first_index_unique(close, ':', n);
    crate::text::lemma_first_index_unique(apart, ':', n);
    assert(close.take(n) =~= name);
    assert(apart.take(n) =~= name);
    assert(close.skip(n + 1) =~= value);
    assert(apart.skip(n + 1) =~= seq![' '] + value);
    assert((seq![' '] + value).drop_first() =~= value);
    assert(close[0] == name[0] && apart[0] == name[0]);
    assert(name.contains(name[0]));
}

/// A blank line closes a frame: the data lines with line ends between them, as a message where no
/// event is named or `message` is, as an error where `error` is, and as nothing otherwise.
pub proof fn law_a_blank_line_closes_a_frame(state: SseView)
    ensures
        ({
            let (frames, next) = line_fed(state, seq![]);
            let data = joined(state.data, seq!['\n']);
            let told = state.data.len() > 0;
            let message = told && (state.event is None || state.event == Some("message"@));
            let error = told && state.event == Some("error"@);
            &&& message ==> frames == seq![SseFrameView::Message(data)]
            &&& error ==> frames == seq![SseFrameView::Error(data)]
            &&& !message && !error && state.comment ==> frames == seq![SseFrameView::Comment]
                && !next.comment
            &&& !message && !error && !state.comment ==> frames.len() == 0
            &&& next.event is None && next.data.len() == 0
            &&& next.buffer == state.buffer && next.tail == state.tail
        }),
{
    reveal_strlit("\n");
    reveal_strlit("message");
    reveal_strlit("error");
    assert("message"@.len() == 7 && "error"@.len() == 5);
    assert("\n"@ =~= seq!['\n']);
}

/// A message is written out, an error is told and stops a watch that is narrowed to one provider,
/// and a comment does nothing.
pub proof fn law_frames_are_answered_by_their_kind(filtered: bool, data: Seq<char>)
    ensures
        action_of(filtered, SseFrameView::Message(data)) == WatchActionView::Output(data),
        action_of(filtered, SseFrameView::Error(data)) == (WatchActionView::Diagnose {
            line: "watch: error frame: "@ + data,
            stop: filtered,
        }),
        action_of(filtered, SseFrameView::Comment) == WatchActionView::Ignore,
{
}

/// A watch asks for the provider, the thread and the cursor that it is given, each under its name,
/// and for nothing else.
pub proof fn law_a_watch_asks_for_what_it_is_given(args: WatchView, name: Seq<char>, value: Seq<char>)
    ensures
        watch_query_of(args).contains((name, value)) <==> {
            ||| name == "provider"@ && args.provider == Some(value)
            ||| name == "thread_id"@ && args.thread_id == Some(value)
            ||| name == "cursor"@ && args.cursor == Some(value)
        },
        watch_query_of(args).len() <= 3,
{
    let a = query_part("provider"@, args.provider);
    let b = query_part("thread_id"@, args.thread_id);
    let c = query_part("cursor"@, args.cursor);
    let pair = (name, value);
    lemma_contains_either(a + b, c, pair);
    lemma_contains_either(a, b, pair);
    if args.provider is Some {
        assert(a[0] == ("provider"@, args.provider->0));
    }
    if args.thread_id is Some {
        assert(b[0] == ("thread_id"@, args.thread_id->0));
    }
    if args.cursor is Some {
        assert(c[0] == ("cursor"@, args.cursor->0));
    }
}

/// The parameters of a watch tell what it is given, and null for what it is not.
pub proof fn law_the_parameters_tell_what_a_watch_is_given(args: WatchView)
    ensures
        ({
            let members = watch_parameters_of(args)->Object_0;
            &&& watch_parameters_of(args) is Object && members.len() == 3
            &&& members[0].0 == "cursor"@ && members[1].0 == "provider"@ && members[2].0
                == "thread_id"@
            &&& args.cursor matches Some(value) ==> members[0].1 == JsonView::Text(value)
            &&& args.cursor is None ==> members[0].1 == JsonView::Null
            &&& args.provider matches Some(value) ==> members[1].1 == JsonView::Text(value)
            &&& args.provider is None ==> members[1].1 == JsonView::Null
            &&& args.thread_id matches Some(value) ==> members[2].1 == JsonView::Text(value)
            &&& args.thread_id is None ==> members[2].1 == JsonView::Null
        }),
{
}

} // verus!
