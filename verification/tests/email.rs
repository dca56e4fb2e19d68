//! The email provider.

use iris::email::envelope::{
    dedupe_contacts, list_contacts, list_messages, list_threads, EmailAddress, EmailEnvelope,
};
use iris::email::fetch::{
    imap_error, select_uids, FetchAction, FetchOptions, FetchRun, ImapStep,
};
use iris::email::parse::{
    content_source_id, envelope_from, parse_address_list, parse_email, parse_headers,
    parse_lossy_email, split_headers_body, HeaderAddress, HeaderTexts, MailPart, ParsedMail,
    PartBody,
};
use iris::email::reply::{
    build_reply_references, compose, compose_email, direct_target, format_msgid, outbound_message,
    reply_context, strip_brackets, thread_target, EmailReplyContext,
};
use iris::email::{
    metadata, EmailProvider, EmailProviderConfig, DEFAULT_MAX_MESSAGES, DEFAULT_PAGE_SIZE,
};
use iris::error::IrisError;
use iris::ids::Uuid;
use iris::maps::StringMap;
use iris::time::Timestamp;

const SAMPLE: &[u8] = b"Message-ID: <root@example.com>\r\nSubject: Status\r\nFrom: Alice <alice@example.com>\r\nTo: Bob <bob@example.com>\r\nCc: Carol <carol@example.com>\r\nDate: Tue, 14 Jul 2026 12:00:00 +0000\r\nContent-Type: multipart/mixed; boundary=demo\r\n\r\n--demo\r\nContent-Type: text/plain\r\n\r\nHello from email\r\n--demo\r\nContent-Type: text/plain\r\nContent-Disposition: attachment; filename=notes.txt\r\n\r\nsecret notes\r\n--demo--\r\n";

fn now() -> Timestamp {
    Timestamp::parse_rfc3339("2026-08-01T08:00:00Z").unwrap()
}

fn parsed(raw: &[u8]) -> EmailEnvelope {
    parse_email(raw, now())
}

#[test]
fn parses_message_contacts_and_attachments() {
    let email = parsed(SAMPLE);

    assert_eq!(email.source_id, "root@example.com");
    assert_eq!(email.subject.as_deref(), Some("Status"));
    assert_eq!(email.from[0].address, "alice@example.com");
    assert_eq!(email.to[0].address, "bob@example.com");
    assert_eq!(email.cc[0].address, "carol@example.com");
    assert_eq!(email.attachments.len(), 1);
    assert_eq!(email.attachments[0].filename.as_deref(), Some("notes.txt"));
    assert_eq!(email.attachments[0].mime_type, "text/plain");
    assert_eq!(email.attachments[0].size, Some(12));
    assert_eq!(email.attachments[0].url, "email:message:root@example.com:attachment:0");
    assert_eq!(email.date, Timestamp::parse_rfc3339("2026-07-14T12:00:00Z").unwrap());

    let message = email.to_message();
    assert_eq!(message.source, "email");
    assert_eq!(message.sender.source_id, "alice@example.com");
    assert!(message.body.contains("Hello from email"));
}

#[test]
fn references_define_stable_threads() {
    let email = parsed(
        b"Message-ID: <reply@example.com>\nReferences: <root@example.com> <mid@example.com>\nFrom: a@example.com\nTo: b@example.com\n\nbody",
    );

    assert_eq!(email.thread_key(), "root@example.com");
    assert!(email.matches_thread(&email.thread_id().text()));
}

#[test]
fn validates_required_credentials() {
    let error = EmailProvider::from_credentials(&StringMap::new()).expect_err("missing config");
    assert!(error.describe().contains("imap_host"));
}

#[test]
fn reply_references_include_original_message_id() {
    // Original message with no References chain: the reply still references the original
    // Message-ID.
    let original = parsed(
        b"Message-ID: <orig@example.com>\nFrom: a@example.com\nTo: b@example.com\n\nbody",
    );
    let refs = build_reply_references(&original);
    assert_eq!(refs, vec!["orig@example.com"]);
}

#[test]
fn reply_references_extend_existing_chain() {
    // Original message already has a References chain: the reply preserves the chain and appends
    // the original Message-ID.
    let original = parsed(
        b"Message-ID: <child@example.com>\nReferences: <root@example.com> <parent@example.com>\nFrom: a@example.com\nTo: b@example.com\n\nbody",
    );
    let refs = build_reply_references(&original);
    assert_eq!(
        refs,
        vec!["root@example.com", "parent@example.com", "child@example.com"]
    );
}

#[test]
fn reply_references_deduplicate_message_id() {
    // If the original Message-ID is already in its References chain, it is not duplicated.
    let original = parsed(
        b"Message-ID: <dup@example.com>\nReferences: <root@example.com> <dup@example.com>\nFrom: a@example.com\nTo: b@example.com\n\nbody",
    );
    let refs = build_reply_references(&original);
    assert_eq!(refs, vec!["root@example.com", "dup@example.com"]);
}

#[test]
fn reply_context_captures_message_id_and_references() {
    let original = parsed(
        b"Message-ID: <target@example.com>\nReferences: <root@example.com>\nFrom: bob@example.com\nTo: alice@example.com\n\nreply me",
    );
    let ctx = EmailReplyContext {
        recipient: original.from[0].address.clone(),
        subject: original.subject.clone(),
        thread_id: original.thread_id(),
        message_id: Some(original.source_id.clone()),
        references: build_reply_references(&original),
    };
    assert_eq!(ctx.message_id.as_deref(), Some("target@example.com"));
    assert_eq!(ctx.references, vec!["root@example.com", "target@example.com"]);

    let thread = original.thread_id().text();
    let found = reply_context(&vec![original], &thread, "alice@example.com").unwrap();
    assert_eq!(found, Some(ctx));
}

#[test]
fn format_msgid_wraps_and_normalizes() {
    assert_eq!(format_msgid("orig@example.com"), "<orig@example.com>");
    assert_eq!(format_msgid("<already@example.com>"), "<already@example.com>");
}

#[test]
fn bracketing_twice_changes_nothing() {
    assert_eq!(format_msgid(&format_msgid(" a@b ")), format_msgid(" a@b "));
    assert_eq!(strip_brackets(" <a@b> "), "a@b");
    assert_eq!(strip_brackets("<"), "<");
}

#[test]
fn smtp_emission_produces_valid_threading_headers() {
    // The fields of a composed email produce compliant headers in the serialized message.
    let emails = vec![parsed(
        b"Message-ID: <child@example.com>\nReferences: <root@example.com> <parent@example.com>\nSubject: test\nFrom: recipient@example.com\nTo: sender@example.com\n\nbody",
    )];
    let thread = emails[0].thread_id().text();
    let target = thread_target(&emails, &thread, "sender@example.com").unwrap();
    let email = compose_email("sender@example.com", &target, "reply body").unwrap();
    assert_eq!(email.subject, "Re: test");

    let mut builder = lettre::Message::builder()
        .from(email.from.parse().unwrap())
        .to(email.to.parse().unwrap())
        .subject(email.subject);
    builder = builder.in_reply_to(email.in_reply_to.unwrap());
    builder = builder.references(email.references.unwrap());
    let email = builder.body(email.body).unwrap();

    let buf = email.formatted();
    let text = String::from_utf8_lossy(&buf);
    let header_line = |prefix: &str| -> String {
        text.lines()
            .find(|line| line.starts_with(prefix))
            .map(|line| line.to_string())
            .unwrap_or_default()
    };

    assert_eq!(header_line("In-Reply-To:"), "In-Reply-To: <child@example.com>");
    assert_eq!(
        header_line("References:"),
        "References: <root@example.com> <parent@example.com> <child@example.com>"
    );
}

#[test]
fn select_uids_truncates_to_limit_keeping_most_recent() {
    let uids = vec![5, 2, 8, 1, 3];
    let opts = FetchOptions { limit: Some(3), ..Default::default() };
    let selected = select_uids(uids, &opts, 500);
    assert_eq!(selected, vec![3, 5, 8]);
}

#[test]
fn select_uids_caps_at_max_messages_when_no_limit() {
    let uids = vec![1, 2, 3, 4, 5, 6, 7, 8, 9, 10];
    let opts = FetchOptions::default();
    let selected = select_uids(uids, &opts, 5);
    assert_eq!(selected, vec![6, 7, 8, 9, 10]);
}

#[test]
fn select_uids_limit_does_not_exceed_max_messages() {
    let uids = vec![1, 2, 3, 4, 5, 6, 7, 8, 9, 10];
    let opts = FetchOptions { limit: Some(100), ..Default::default() };
    let selected = select_uids(uids, &opts, 5);
    assert_eq!(selected, vec![6, 7, 8, 9, 10]);
}

#[test]
fn select_uids_since_uid_filters_for_incremental_sync() {
    let uids = vec![1, 2, 3, 4, 5, 6, 7, 8, 9, 10];
    let opts = FetchOptions { since_uid: Some(4), ..Default::default() };
    let selected = select_uids(uids, &opts, 500);
    assert_eq!(selected, vec![5, 6, 7, 8, 9, 10]);
}

#[test]
fn select_uids_since_uid_with_limit() {
    let uids = vec![1, 2, 3, 4, 5, 6, 7, 8, 9, 10];
    let opts = FetchOptions { since_uid: Some(4), limit: Some(2) };
    let selected = select_uids(uids, &opts, 500);
    assert_eq!(selected, vec![9, 10]);
}

#[test]
fn select_uids_deduplicates() {
    let uids = vec![1, 1, 2, 2, 3];
    let opts = FetchOptions::default();
    let selected = select_uids(uids, &opts, 500);
    assert_eq!(selected, vec![1, 2, 3]);
}

#[test]
fn select_uids_empty_input() {
    let opts = FetchOptions { limit: Some(10), ..Default::default() };
    let selected = select_uids(Vec::new(), &opts, 500);
    assert!(selected.is_empty());
}

#[test]
fn email_config_defaults() {
    let config = EmailProviderConfig::default();
    assert_eq!(config.imap_port, 993);
    assert_eq!(config.smtp_port, 587);
    assert_eq!(config.mailbox, "INBOX");
    assert_eq!(config.page_size, DEFAULT_PAGE_SIZE);
    assert_eq!(config.max_messages, DEFAULT_MAX_MESSAGES);
}

fn credentials(more: &[(&str, &str)]) -> StringMap<String> {
    let mut creds = StringMap::new();
    creds.insert("imap_host".into(), "imap.example.com".into());
    creds.insert("smtp_host".into(), "smtp.example.com".into());
    creds.insert("username".into(), "alice@example.com".into());
    creds.insert("password".into(), "secret".into());
    creds.insert("from".into(), "alice@example.com".into());
    for (key, value) in more {
        creds.insert((*key).to_owned(), (*value).to_owned());
    }
    creds
}

#[test]
fn from_credentials_reads_pagination_settings() {
    let creds = credentials(&[("page_size", "25"), ("max_messages", "100")]);
    let provider = EmailProvider::from_credentials(&creds).expect("valid credentials");
    assert_eq!(provider.page_size, 25);
    assert_eq!(provider.max_messages, 100);
}

#[test]
fn from_credentials_uses_defaults_when_pagination_unset() {
    let creds = credentials(&[]);
    let provider = EmailProvider::from_credentials(&creds).expect("valid credentials");
    assert_eq!(provider.page_size, DEFAULT_PAGE_SIZE);
    assert_eq!(provider.max_messages, DEFAULT_MAX_MESSAGES);
}

#[test]
fn from_credentials_rejects_invalid_page_size() {
    let creds = credentials(&[("page_size", "not-a-number")]);
    let error = EmailProvider::from_credentials(&creds).expect_err("invalid page_size");
    assert!(error.describe().contains("page_size"));
}

#[test]
fn from_credentials_rejects_zero_page_size() {
    let creds = credentials(&[("page_size", "0")]);
    let error = EmailProvider::from_credentials(&creds).expect_err("zero page_size");
    assert!(error.describe().contains("page_size must be at least 1"));
}

#[test]
fn from_credentials_rejects_zero_max_messages() {
    let creds = credentials(&[("max_messages", "0")]);
    let error = EmailProvider::from_credentials(&creds).expect_err("zero max_messages");
    assert!(error.describe().contains("max_messages must be at least 1"));
}

#[test]
fn the_own_address_is_the_address_of_the_configured_mailbox() {
    let named = EmailProvider::from_credentials(&credentials(&[("from", "Alice <a@example.com>")]))
        .unwrap();
    assert_eq!(named.configured_from_address(), "a@example.com");
    assert_eq!(metadata().id, "email");
}

#[test]
fn emails_without_a_message_id_are_named_by_their_bytes() {
    let raw = b"From: a@example.com\nTo: b@example.com\n\nbody";
    let email = parsed(raw);
    assert_eq!(email.source_id, content_source_id(raw));
    assert!(email.source_id.starts_with("uuid-v5:"));
    assert_ne!(content_source_id(raw), content_source_id(b"other"));
    assert_eq!(email.date, now());
}

#[test]
fn a_parsed_email_becomes_an_envelope() {
    let mail = ParsedMail {
        message_id: None,
        subject: None,
        from: Some(vec![
            HeaderAddress { name: Some("Ann".into()), address: Some("ann@example.com".into()) },
            HeaderAddress { name: Some("Nobody".into()), address: None },
        ]),
        to: None,
        cc: None,
        date: Some(1_700_000_000),
        body_text: None,
        body_html: Some("<p>hi</p>".into()),
        attachments: Some(vec![MailPart {
            name: None,
            kind: Some(("image".into(), Some("png".into()))),
            body: PartBody::Multipart,
        }]),
        references: HeaderTexts::Other,
        in_reply_to: HeaderTexts::Many(vec!["first@example.com".into(), "second@x".into()]),
    };
    let email = envelope_from(mail, "fallback".into(), now());
    assert_eq!(email.source_id, "fallback");
    assert_eq!(email.from.len(), 1);
    assert_eq!(email.from[0].display(), "Ann <ann@example.com>");
    assert_eq!(email.date.seconds(), 1_700_000_000);
    assert_eq!(email.body, "<p>hi</p>");
    assert_eq!(email.attachments[0].mime_type, "image/png");
    assert_eq!(email.attachments[0].size, Some(0));
    assert_eq!(email.in_reply_to.as_deref(), Some("first@example.com"));
    assert_eq!(email.thread_key(), "first@example.com");
}

#[test]
fn broken_emails_are_read_line_by_line() {
    let raw = b"Subject: Hello\r\n\tworld\r\nMessage-Id: <x@example.com>\r\nTo: Bob <bob@example.com>, carol@example.com\r\n\r\nbody\r\n";
    let email = parse_lossy_email(raw, now());
    assert_eq!(email.subject.as_deref(), Some("Hello world"));
    assert_eq!(email.to.len(), 2);
    assert_eq!(email.to[0].name.as_deref(), Some("Bob"));
    assert_eq!(email.to[1].address, "carol@example.com");
    assert_eq!(split_headers_body("a: b\n\nbody"), ("a: b", "body"));
    assert_eq!(split_headers_body("a: b"), ("a: b", ""));
    let headers = parse_headers("A: 1\nB: 2\nA: 3");
    assert_eq!(headers[0], ("a".to_owned(), vec!["1".to_owned(), "3".to_owned()]));
    assert_eq!(parse_address_list("").len(), 0);
}

#[test]
fn listings_merge_the_emails_of_a_thread() {
    let emails = vec![
        parsed(b"Message-ID: <1@x>\nSubject: One\nFrom: a@x\nTo: me@x\nDate: Tue, 14 Jul 2026 12:00:00 +0000\n\nfirst"),
        parsed(b"Message-ID: <2@x>\nIn-Reply-To: <1@x>\nSubject: Re: One\nFrom: me@x\nTo: a@x\nDate: Tue, 14 Jul 2026 13:00:00 +0000\n\nsecond"),
        parsed(b"Message-ID: <3@x>\nSubject: Two\nFrom: b@x\nTo: me@x\nDate: Tue, 14 Jul 2026 14:00:00 +0000\n\nthird"),
    ];
    let threads = list_threads(&emails, None);
    assert_eq!(threads.len(), 2);
    assert_eq!(threads[0].source_id, "3@x");
    assert_eq!(list_threads(&emails, Some(1)).len(), 1);
    let thread = emails[0].thread_id().text();
    let messages = list_messages(&emails, &thread, None, None, "me@x");
    assert_eq!(messages.len(), 2);
    assert!(messages.iter().any(|message| message.is_outbound));
    let contacts = list_contacts(&emails, None);
    assert_eq!(contacts.len(), 3);
}

#[test]
fn contacts_are_the_same_whatever_the_case() {
    let ann = |address: &str| EmailAddress { name: None, address: address.to_owned() }.to_contact();
    let kept = dedupe_contacts(vec![ann("Ann@X"), ann("ann@x"), ann("bob@x")]);
    assert_eq!(kept.len(), 2);
    assert_eq!(kept[0].source_id, ann("Ann@X").source_id);
}

#[test]
fn pages_of_a_fetch_cover_the_selection() {
    let provider = EmailProvider::from_credentials(&credentials(&[("page_size", "2")])).unwrap();
    let mut run =
        FetchRun::start(&provider, vec![7, 3, 5, 3, 9], Some(11), &FetchOptions::default());
    let mut asked = Vec::new();
    while let FetchAction::Fetch(set) = run.action() {
        asked.push(set);
        run.received(Some(SAMPLE), now());
        run.received(None, now());
        run.page_done();
    }
    assert_eq!(asked, vec!["3,5".to_owned(), "7,9".to_owned()]);
    let result = run.finish();
    assert_eq!(result.messages.len(), 2);
    assert_eq!(result.uid_validity, Some(11));
    assert_eq!(result.last_uid, Some(9));
    assert!(matches!(imap_error(ImapStep::Connect, "x"), IrisError::Transport(_)
        | IrisError::Provider { .. }));
}

#[test]
fn direct_addresses_start_a_new_thread() {
    let target = direct_target("Bob <bob@example.com>").expect("an address");
    assert_eq!(target.recipient, "bob@example.com");
    assert_eq!(target.in_reply_to, None);
    assert!(direct_target("11111111-1111-1111-1111-111111111111").is_none());
    let error = thread_target(&vec![], "11111111-1111-1111-1111-111111111111", "me@x").unwrap_err();
    assert!(matches!(error, IrisError::NotFound(_) | IrisError::Config(_) | IrisError::Provider { .. }));
    let email = compose("me@x", Ok("me@x".into()), &target, Err("bad".into()), "hi");
    assert!(email.is_err());
    let id = Uuid { value: 5 };
    let message = outbound_message("me@x", &target, "hi", id, now());
    assert!(message.is_outbound);
    assert_eq!(message.id, id);
    assert_eq!(message.body, "hi");
}

#[test]
fn attachments_are_as_large_as_what_they_hold() {
    let raw = b"Message-ID: <parts@x>\r\nFrom: a@x\r\nContent-Type: multipart/mixed; boundary=demo\r\n\r\n--demo\r\nContent-Type: text/plain\r\n\r\nbody\r\n--demo\r\nContent-Type: text/plain; charset=utf-8\r\nContent-Disposition: attachment; filename=a.txt\r\n\r\ncaf\xc3\xa9\r\n--demo\r\nContent-Type: application/pdf\r\nContent-Transfer-Encoding: base64\r\nContent-Disposition: attachment; filename=b.pdf\r\n\r\nAAECAw==\r\n--demo\r\nContent-Type: message/rfc822\r\n\r\nFrom: b@x\r\n\r\nhi\r\n--demo--\r\n";
    let email = parsed(raw);
    let sizes: Vec<(Option<String>, Option<u64>)> =
        email.attachments.iter().map(|part| (part.filename.clone(), part.size)).collect();
    assert_eq!(sizes[0], (Some("a.txt".to_owned()), Some(5)));
    assert_eq!(sizes[1], (Some("b.pdf".to_owned()), Some(4)));
    assert_eq!(sizes[2], (None, Some("From: b@x\r\n\r\nhi".len() as u64)));
    assert_eq!(sizes.len(), 3);
    assert_eq!(PartBody::Text("café".to_owned()).size(), 5);
    assert_eq!(PartBody::Html("<p>".to_owned()).size(), 3);
    assert_eq!(PartBody::Binary(vec![0; 4]).size(), 4);
    assert_eq!(PartBody::InlineBinary(vec![0; 7]).size(), 7);
    assert_eq!(PartBody::Message(vec![0; 2]).size(), 2);
    assert_eq!(PartBody::Multipart.size(), 0);
}

#[test]
fn attachments_keep_their_ids_in_listings() {
    let emails = vec![parsed(SAMPLE)];
    let thread = emails[0].thread_id().text();
    let messages = list_messages(&emails, &thread, None, None, "me@x");
    assert_eq!(messages.len(), 1);
    assert_eq!(messages[0].attachments, emails[0].attachments);
}
