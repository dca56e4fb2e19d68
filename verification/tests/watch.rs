//! The client side of the event stream.

use iris::json::{Json, JsonNumber};
use iris::watch::{
    http_error_line, refused_request, server_url_from_env, watch_query, watch_url, SseFrame,
    SseParser, WatchAction, WatchArgs, WatchRun, DEFAULT_SERVER_URL, WATCH_EXIT_ERROR,
};

/// Frames parse from a complete chunk.
#[test]
fn parser_extracts_message_and_error_frames() {
    let mut parser = SseParser::new();
    let frames = parser.feed(
        b"event: message\ndata: {\"body\":\"hi\"}\n\nevent: error\ndata: {\"code\":\"slow_consumer\"}\n\n",
    );
    assert_eq!(
        frames,
        vec![
            SseFrame::Message("{\"body\":\"hi\"}".into()),
            SseFrame::Error("{\"code\":\"slow_consumer\"}".into()),
        ]
    );
}

/// Frames split across arbitrary chunk boundaries reassemble.
#[test]
fn parser_handles_split_chunks() {
    let mut parser = SseParser::new();
    assert!(parser.feed(b"event: mes").is_empty());
    assert!(parser.feed(b"sage\ndata: {\"a\":").is_empty());
    assert_eq!(
        parser.feed(b"1}\n\n"),
        vec![SseFrame::Message("{\"a\":1}".into())]
    );
}

/// Comment lines (heartbeats) surface as Comment frames.
#[test]
fn parser_surfaces_comments() {
    let mut parser = SseParser::new();
    assert_eq!(parser.feed(b": heartbeat\n\n"), vec![SseFrame::Comment]);
}

/// The default event name is `message`.
#[test]
fn parser_defaults_event_to_message() {
    let mut parser = SseParser::new();
    assert_eq!(
        parser.feed(b"data: {\"x\":true}\n\n"),
        vec![SseFrame::Message("{\"x\":true}".into())]
    );
}

/// Multi-line data joins with newlines.
#[test]
fn parser_joins_multiline_data() {
    let mut parser = SseParser::new();
    assert_eq!(
        parser.feed(b"data: line1\ndata: line2\n\n"),
        vec![SseFrame::Message("line1\nline2".into())]
    );
}

/// A truncated final frame flushes at end-of-stream.
#[test]
fn parser_finish_flushes_partial_frame() {
    let mut parser = SseParser::new();
    assert!(parser
        .feed(b"event: error\ndata: {\"code\":\"provider_failed\"}")
        .is_empty());
    assert_eq!(
        parser.finish(),
        vec![SseFrame::Error("{\"code\":\"provider_failed\"}".into())]
    );
}

/// CR-only line endings (some proxies) still terminate lines.
#[test]
fn parser_handles_cr_newlines() {
    let mut parser = SseParser::new();
    assert!(parser.feed(b"event: message\r").is_empty());
    assert_eq!(
        parser.feed(b"data: {\"ok\":1}\n\n"),
        vec![SseFrame::Message("{\"ok\":1}".into())]
    );
}

/// A pair of CR and LF that is split between chunks is one line break.
#[test]
fn parser_keeps_a_split_line_break_together() {
    let mut parser = SseParser::new();
    assert!(parser.feed(b"data: a\r").is_empty());
    assert!(parser.feed(b"\n").is_empty());
    assert_eq!(parser.feed(b"\r\n"), vec![SseFrame::Message("a".into())]);
}

/// Bytes that are no UTF-8 become replacement characters.
#[test]
fn parser_replaces_invalid_bytes() {
    let mut parser = SseParser::new();
    assert_eq!(
        parser.feed(b"data: a\xffb\n\n"),
        vec![SseFrame::Message("a\u{fffd}b".into())]
    );
}

/// Unknown events are dropped with their data.
#[test]
fn parser_drops_unknown_events() {
    let mut parser = SseParser::default();
    assert!(parser.feed(b"event: other\ndata: x\n\n").is_empty());
    assert_eq!(parser.feed(b"data: y\n\n"), vec![SseFrame::Message("y".into())]);
}

/// The server URL comes from the environment with a sane default.
#[test]
fn server_url_defaults_and_env_override() {
    assert_eq!(server_url_from_env(None), DEFAULT_SERVER_URL);
    assert_eq!(
        server_url_from_env(Some("  ")),
        DEFAULT_SERVER_URL,
        "blank env falls back to the default"
    );
    assert_eq!(
        server_url_from_env(Some(" http://iris.internal:9091 ")),
        "http://iris.internal:9091"
    );
}

fn args(provider: Option<&str>, thread_id: Option<&str>) -> WatchArgs {
    WatchArgs {
        provider: provider.map(ToOwned::to_owned),
        thread_id: thread_id.map(ToOwned::to_owned),
        cursor: None,
        include_cursor: false,
    }
}

/// Runs a whole stream: the lines of the output, the diagnostics and the exit code.
fn watch(args: &WatchArgs, chunks: &[&[u8]]) -> (Vec<String>, Vec<String>, u8) {
    let mut parser = SseParser::new();
    let mut run = WatchRun::start(args);
    let mut out = Vec::new();
    let mut err = Vec::new();
    let mut frames_of_chunks: Vec<Vec<SseFrame>> = Vec::new();
    for chunk in chunks {
        frames_of_chunks.push(parser.feed(chunk));
    }
    frames_of_chunks.push(parser.finish());
    for frames in frames_of_chunks {
        for action in run.handle_frames(frames) {
            match action {
                WatchAction::Output(line) => out.push(line),
                WatchAction::Diagnose { line, stop } => {
                    err.push(line);
                    if stop {
                        return (out, err, run.exit_code());
                    }
                }
                WatchAction::Ignore => {}
            }
        }
    }
    (out, err, run.exit_code())
}

/// Messages become lines of JSON, and a clean end is a success.
#[test]
fn watch_round_trips_messages_end_to_end() {
    let (out, err, code) = watch(
        &args(None, None),
        &[b"event: message\ndata: {\"body\":\"wrong thread\"}\n\n",
          b": keep-alive\n\nevent: message\ndata: {\"body\":\"e2e body\"}\n\n"],
    );
    assert_eq!(code, 0);
    assert_eq!(out, vec!["{\"body\":\"wrong thread\"}", "{\"body\":\"e2e body\"}"]);
    assert!(err.is_empty(), "stderr: {err:?}");
}

/// Aggregate error at end-of-stream: non-zero exit, the diagnostics carry the error, and the
/// output still has prior messages.
#[test]
fn watch_aggregate_error_exits_nonzero() {
    let (out, err, code) = watch(
        &args(None, None),
        &[b"data: {\"body\":\"e2e body\"}\n\nevent: error\ndata: {\"code\":\"telegram_conflict\"}\n\n"],
    );
    assert_eq!(code, WATCH_EXIT_ERROR);
    assert_eq!(out, vec!["{\"body\":\"e2e body\"}"]);
    assert!(err[0].contains("error frame"), "stderr: {err:?}");
    assert!(err[0].contains("telegram_conflict"), "stderr: {err:?}");
}

/// An aggregate goes on behind the error of one of its branches, and fails only where the last
/// branch does.
#[test]
fn watch_aggregate_goes_on_behind_an_error() {
    let all = args(None, None);
    let (out, err, code) = watch(&all, &[b"event: error\ndata: x\n\ndata: later\n\n"]);
    assert_eq!(code, 0);
    assert_eq!(out, vec!["later"]);
    assert_eq!(err, vec!["watch: error frame: x"]);
    let (_, _, code) = watch(&all, &[b"event: error\ndata: x\n\n", b": keep-alive\n\n"]);
    assert_eq!(code, WATCH_EXIT_ERROR, "a comment is no branch");
    let (_, _, code) = watch(&all, &[b"event: error\ndata: x\n\n", b"data: later\n\n", b": x\n\n"]);
    assert_eq!(code, 0, "portions add up");
    let (_, _, code) =
        watch(&all, &[b"event: error\ndata: x\n\ndata: m\n\nevent: error\ndata: y\n\n"]);
    assert_eq!(code, WATCH_EXIT_ERROR);
}

/// A character whose bytes are split across chunks reassembles.
#[test]
fn parser_handles_split_characters() {
    let mut parser = SseParser::new();
    assert!(parser.feed(b"data: \xC3").is_empty());
    assert_eq!(parser.feed(b"\xA9\n\n"), vec![SseFrame::Message("\u{e9}".into())]);

    let text = "data: a\u{20ac}\u{1f600}z\u{e9}\n\n";
    for size in 1..text.len() {
        let mut parser = SseParser::new();
        let frames: Vec<SseFrame> =
            text.as_bytes().chunks(size).flat_map(|chunk| parser.feed(chunk)).collect();
        assert_eq!(frames, vec![SseFrame::Message("a\u{20ac}\u{1f600}z\u{e9}".into())], "{size}");
        assert!(parser.finish().is_empty());
    }
}

/// Bytes that are no characters become replacement characters, also at the end of the stream.
#[test]
fn parser_replaces_what_is_no_character() {
    let mut parser = SseParser::new();
    assert!(parser.feed(b"data: \xC3").is_empty());
    assert_eq!(parser.feed(b"x\n\n"), vec![SseFrame::Message("\u{fffd}x".into())]);
    assert!(parser.feed(b"data: y\rdata: \xE2\x82").is_empty());
    assert_eq!(parser.finish(), vec![SseFrame::Message("y\n\u{fffd}".into())]);
}

/// LF and CRLF streams give the same frames.
#[test]
fn parser_reads_pairs_like_line_feeds() {
    let text = "event: error\ndata: {\"a\":1}\n\n: ping\n\ndata: one\ndata: two\n\n";
    let feeds = SseParser::new().feed(text.as_bytes());
    assert_eq!(
        feeds,
        vec![
            SseFrame::Error("{\"a\":1}".into()),
            SseFrame::Comment,
            SseFrame::Message("one\ntwo".into()),
        ]
    );
    assert_eq!(SseParser::new().feed(text.replace('\n', "\r\n").as_bytes()), feeds);
}

/// Filtered (provider=) stream error: immediate non-zero exit.
#[test]
fn watch_filtered_error_exits_nonzero() {
    let (out, err, code) = watch(
        &args(Some("fake"), None),
        &[b"data: first\n\nevent: error\ndata: x\n\ndata: never\n\n"],
    );
    assert_eq!(code, WATCH_EXIT_ERROR);
    assert_eq!(out, vec!["first"]);
    assert!(err[0].contains("error frame"), "stderr: {err:?}");
}

/// HTTP-level failure (unknown provider): the status and the body go to the diagnostics, and the
/// watch fails.
#[test]
fn watch_http_error_reports_to_stderr() {
    let (line, code) = refused_request(
        "422 Unprocessable Entity",
        "{\"code\":\"unsupported_realtime_provider\"}",
    );
    assert_eq!(code, WATCH_EXIT_ERROR);
    assert_eq!(
        line,
        "watch: HTTP 422 Unprocessable Entity: {\"code\":\"unsupported_realtime_provider\"}"
    );
}

/// Whatever the server answers, a refused request ends the watch with a failure.
#[test]
fn refused_requests_fail_with_their_answer() {
    assert_eq!(
        refused_request("503 Service Unavailable", ""),
        ("watch: HTTP 503 Service Unavailable: ".to_owned(), 1)
    );
    assert_eq!(
        http_error_line("401 Unauthorized", "no token"),
        refused_request("401 Unauthorized", "no token").0
    );
}

/// A character that stays cut does not change how the chunks behind it are read.
#[test]
fn parser_joins_chunks_behind_a_cut_character() {
    let fed = |chunks: &[&[u8]]| {
        let mut parser = SseParser::new();
        let mut frames = parser.feed(b"data: \xe2\x82");
        for chunk in chunks {
            frames.extend(parser.feed(chunk));
        }
        frames.extend(parser.finish());
        frames
    };
    let whole = fed(&[b"a\r\n\r\ndata: b\n\n"]);
    assert_eq!(
        whole,
        vec![SseFrame::Message("\u{fffd}a".into()), SseFrame::Message("b".into())]
    );
    assert_eq!(fed(&[b"a\r", b"\n\r\ndata: b\n\n"]), whole);
    assert_eq!(fed(&[b"", b"a\r\n", b"\r\ndata: b", b"\n\n"]), whole);
    assert_eq!(fed(&[b"\xac\n\n"]), vec![SseFrame::Message("\u{20ac}".into())]);
}

/// The end of a stream closes what two line feeds would, and a second end gives nothing.
#[test]
fn the_end_closes_an_open_frame_once() {
    for text in ["data: a", "data: a\r", "data: a\n", "event: error\ndata: a", "data: a\n\n", ""] {
        let mut parser = SseParser::new();
        let mut frames = parser.feed(text.as_bytes());
        frames.extend(parser.finish());
        let mut other = SseParser::new();
        assert_eq!(frames, other.feed(format!("{text}\n\n").as_bytes()), "{text:?}");
        assert!(parser.finish().is_empty(), "{text:?}");
    }
}

/// The thread filter passes through as a query parameter.
#[test]
fn watch_passes_thread_filter_query() {
    let query = watch_query(&args(None, Some("00000000-0000-0000-0000-000000000042")));
    assert_eq!(
        query,
        vec![("thread_id".to_owned(), "00000000-0000-0000-0000-000000000042".to_owned())]
    );
    let query = watch_query(&args(Some("fake"), Some("t")));
    assert_eq!(
        query,
        vec![
            ("provider".to_owned(), "fake".to_owned()),
            ("thread_id".to_owned(), "t".to_owned()),
        ]
    );
    assert_eq!(watch_url("http://127.0.0.1:3000"), "http://127.0.0.1:3000/v1/events");
}

/// The arguments of `iris watch`, as the command line reads them.
fn parse(line: &[&str]) -> WatchArgs {
    let text = |name: &'static str| clap::Arg::new(name).long(name);
    let watch = clap::Command::new("watch")
        .arg(text("cursor"))
        .arg(text("include-cursor").action(clap::ArgAction::SetTrue));
    let matches = clap::Command::new("iris")
        .subcommand(watch)
        .try_get_matches_from(line)
        .expect("the flags parse");
    let (_, given) = matches.subcommand().expect("a subcommand");
    WatchArgs {
        provider: None,
        thread_id: None,
        cursor: given.get_one::<String>("cursor").cloned(),
        include_cursor: given.get_flag("include-cursor"),
    }
}

#[test]
fn generated_watch_preserves_cursor_and_keeps_output_flag_out_of_request() {
    let args = parse(&["iris", "watch", "--cursor", "inc.7"]);
    assert_eq!(args.cursor.as_deref(), Some("inc.7"));
    assert!(!args.include_cursor);

    let parameters = args.parameters_json();
    assert_eq!(parameters.get_str("cursor"), Some("inc.7"));
    assert!(
        parameters.get("include_cursor").is_none(),
        "CLI-only output flags must not enter the request schema"
    );
    assert_eq!(watch_query(&args), vec![("cursor".to_owned(), "inc.7".to_owned())]);

    let args = parse(&["iris", "watch", "--include-cursor"]);
    assert!(args.include_cursor);
    assert_eq!(args.cursor, None);
    assert!(args.parameters_json().get("include_cursor").is_none());
    assert!(watch_query(&args).is_empty());
}

#[test]
fn watch_parameters_are_null_where_nothing_is_given() {
    let parameters = args(Some("fake"), None).parameters_json();
    assert_eq!(parameters.render(), r#"{"cursor":null,"provider":"fake","thread_id":null}"#);
    assert_ne!(parameters, Json::Number(JsonNumber::Unsigned(0)));
}
