//! What the command line decides.

use iris::codegen::{codegen_command, command_from, iris_generate_config, CodegenCommand};
use iris::ids::Uuid;
use iris::ingest::IngestOutcome;
use iris::operations::{
    admit_source, cli_operation, data_directory, find_owner, ingest_result, local_paths,
    matching_providers, owner_listed, provider_by_id, provider_line, read_attachments,
    send_refused, FileRead, Operation, OwnerStep, SendStep,
};
use iris::error::IrisError;
use iris::mock::MockProvider;
use iris::outbound::OutboundAttachment;
use iris::time::Timestamp;
use iris::wire::plan_attachments;

fn new_id() -> Uuid {
    Uuid { value: uuid::Uuid::new_v4().as_u128() }
}

/// The attachments of `--attach` and `--attach-mime` values, over a file system in memory.
fn cli_attachments(
    attach: &[String],
    attach_mime: &[String],
    files: &[(&str, &[u8])],
) -> Result<Vec<OutboundAttachment>, String> {
    let planned = plan_attachments(&attach.to_vec(), &attach_mime.to_vec())
        .map_err(|error| error.describe())?;
    let reads = local_paths(&planned)
        .iter()
        .map(|path| match files.iter().find(|(name, _)| name == path) {
            Some((_, bytes)) => FileRead::Bytes(bytes.to_vec()),
            None => FileRead::Failed("No such file or directory (os error 2)".to_owned()),
        })
        .collect();
    read_attachments(planned, reads)
}

#[test]
fn cli_attachments_reads_local_files_and_infers_mime() {
    let id = new_id();
    let attachments = cli_attachments(
        &["/tmp/photo.png".to_owned(), format!("iris://attachment/{}", id.text())],
        &[],
        &[("/tmp/photo.png", b"png-bytes")],
    )
    .unwrap();
    assert_eq!(
        attachments,
        vec![
            OutboundAttachment::Bytes {
                mime_type: "image/png".to_owned(),
                filename: Some("photo.png".to_owned()),
                bytes: b"png-bytes".to_vec(),
            },
            OutboundAttachment::Stored(id),
        ]
    );
}

#[test]
fn cli_attachments_applies_explicit_mime_overrides_in_order() {
    let id = new_id();
    let attachments = cli_attachments(
        &[
            "/tmp/a.dat".to_owned(),
            format!("iris://attachment/{}", id.text()),
            "/tmp/b.png".to_owned(),
        ],
        &["application/x-first".to_owned(), "image/tiff".to_owned()],
        &[("/tmp/a.dat", b"one"), ("/tmp/b.png", b"two")],
    )
    .unwrap();
    let mimes: Vec<_> = attachments
        .iter()
        .filter_map(|attachment| match attachment {
            OutboundAttachment::Bytes { mime_type, .. } => Some(mime_type.clone()),
            OutboundAttachment::Stored(_) => None,
        })
        .collect();
    // The stored ref consumed no --attach-mime value: both overrides landed on the local files in
    // order, the second overriding its .png inference.
    assert_eq!(mimes, vec!["application/x-first".to_owned(), "image/tiff".to_owned()]);
    assert_eq!(attachments[1], OutboundAttachment::Stored(id));
}

#[test]
fn cli_attachments_rejects_mime_cardinality_mismatch() {
    let stored = format!("iris://attachment/{}", new_id().text());
    // Two --attach-mime values for one local path + one stored ref.
    let error = cli_attachments(
        &["/tmp/a.png".to_owned(), stored],
        &["image/png".to_owned(), "image/png".to_owned()],
        &[("/tmp/a.png", b"x")],
    )
    .unwrap_err();
    assert!(error.contains("must match"), "{error}");
}

#[test]
fn cli_attachments_rejects_missing_and_empty_files() {
    let error = cli_attachments(&["/tmp/missing.png".to_owned()], &[], &[]).unwrap_err();
    assert_eq!(
        error,
        "cannot read attachment /tmp/missing.png: No such file or directory (os error 2)"
    );
    let error =
        cli_attachments(&["/tmp/empty.png".to_owned()], &[], &[("/tmp/empty.png", b"")]).unwrap_err();
    assert_eq!(error, "attachment file is empty: /tmp/empty.png");
}

#[test]
fn the_first_file_that_fails_is_reported() {
    let error = cli_attachments(
        &["/tmp/a.png".to_owned(), "/tmp/b.png".to_owned(), "/tmp/c.png".to_owned()],
        &[],
        &[("/tmp/a.png", b"x"), ("/tmp/b.png", b"")],
    )
    .unwrap_err();
    assert_eq!(error, "attachment file is empty: /tmp/b.png");
}

fn ids() -> Vec<String> {
    vec!["mock.ops".to_owned(), "mock.support".to_owned()]
}

#[test]
fn generated_cli_discovers_and_routes_to_named_mock_instances() {
    let line = provider_line("mock.ops", "mock", "Mock Provider");
    assert!(line.contains("mock.ops (mock)"), "{line}");
    assert_eq!(line, "  mock.ops (mock) — Mock Provider");
    let line = provider_line("mock.support", "mock", "Mock Provider");
    assert!(line.contains("mock.support (mock)"), "{line}");

    assert_eq!(matching_providers(&ids(), Some("mock.ops")), Ok(vec![0]));
    assert_eq!(matching_providers(&ids(), None), Ok(vec![0, 1]));
    let unknown = matching_providers(&ids(), Some("mock.unknown")).unwrap_err();
    assert_eq!(unknown, "provider not available: mock.unknown");
    assert_eq!(matching_providers(&vec![], None).unwrap_err(), "provider not available: ");
}

#[test]
fn sends_try_every_provider_in_turn() {
    assert!(matches!(send_refused(0, 2), SendStep::Try(1)));
    assert!(matches!(
        send_refused(1, 2),
        SendStep::Refused(ref message) if message == "no provider accepted send_message"
    ));
}

#[test]
fn providers_are_found_by_their_identifier_or_thread() {
    assert_eq!(provider_by_id(&ids(), "mock.support"), Ok(1));
    assert_eq!(
        provider_by_id(&ids(), "mock"),
        Err(IrisError::ProviderNotFound("mock".to_owned()))
    );
    let thread = Uuid { value: 7 };
    let listed = MockProvider::new().list_threads(thread, Timestamp::epoch(), None);
    assert!(matches!(find_owner(2, "x"), OwnerStep::Ask(0)));
    assert!(matches!(owner_listed(0, 2, &listed, &thread.text()), OwnerStep::Found(0)));
    assert!(matches!(owner_listed(0, 2, &listed, "x"), OwnerStep::Ask(1)));
    assert!(matches!(
        owner_listed(1, 2, &listed, "x"),
        OwnerStep::Missing(IrisError::NotFound(ref text)) if text == "thread not found: x"
    ));
    assert!(matches!(find_owner(0, "x"), OwnerStep::Missing(_)));
}

#[test]
fn batches_are_taken_from_configured_sources_alone() {
    let sources = vec!["alpha".to_owned(), "beta".to_owned()];
    let secrets = vec!["alpha".to_owned()];
    assert!(admit_source("alpha", &sources, &secrets).is_ok());
    assert_eq!(
        admit_source("beta", &sources, &secrets).unwrap_err(),
        "ingest source secret is not configured: beta"
    );
    assert_eq!(
        admit_source("gamma", &sources, &secrets).unwrap_err(),
        "ingest source is not configured: gamma"
    );
    let committed_at = Timestamp::parse_rfc3339("2026-08-13T12:00:00Z").unwrap();
    assert_eq!(
        ingest_result(&IngestOutcome::Applied { committed_at }).unwrap().render(),
        r#"{"committed_at":"2026-08-13T12:00:00Z","outcome":"applied"}"#
    );
    assert_eq!(
        ingest_result(&IngestOutcome::AlreadyApplied { committed_at }).unwrap().render(),
        r#"{"committed_at":"2026-08-13T12:00:00Z","outcome":"already_applied"}"#
    );
    assert_eq!(
        ingest_result(&IngestOutcome::ReplayConflict).unwrap_err(),
        "replay key conflicts with an existing batch"
    );
}

#[test]
fn stores_live_below_the_data_directory() {
    assert_eq!(data_directory(Some("/x"), Some("/data"), "audit"), "/x");
    assert_eq!(data_directory(None, Some("/data"), "audit"), "/data/iris/audit");
    assert_eq!(data_directory(None, None, "ingest"), "./.iris/iris/ingest");
}

#[test]
fn operations_are_known_by_their_names() {
    assert_eq!(cli_operation("subscribe_events"), Ok(Operation::SubscribeEvents));
    assert_eq!(cli_operation("ingest_batch"), Ok(Operation::IngestBatch));
    assert_eq!(
        cli_operation("other").unwrap_err(),
        "generated operation is not implemented by the CLI runtime: other"
    );
}

#[test]
fn the_generator_checks_or_writes() {
    assert_eq!(codegen_command(None), Ok(CodegenCommand::Check));
    assert_eq!(codegen_command(Some("write")), Ok(CodegenCommand::Write));
    assert_eq!(
        codegen_command(Some("a\"b")).unwrap_err(),
        "unknown command \"a\\\"b\"; expected `check` or `write`"
    );
    assert_eq!(command_from("check", "unused"), Ok(CodegenCommand::Check));
    assert_eq!(iris_generate_config().http_state_type, "crate::app::AppState");
}
