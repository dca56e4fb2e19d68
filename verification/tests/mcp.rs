//! The tool server.

use iris::audit::{AuditAction, AuditEvent, AuditTrail};
use iris::error::IrisError;
use iris::ids::Uuid;
use iris::json::{Json, JsonNumber};
use iris::mcp::paging::{
    page_contacts, page_messages, page_threads, parse_thread_cursor, provider_limit, ThreadCursor,
};
use iris::mcp::tools::{generated_tools, tool_named, Tool};
use iris::mcp::{
    answer, batch_argument, is_request_line, parse_error_response, tool_result, McpServer, RpcStep,
    SERVER_NAME,
};
use iris::mock::{MessageIds, MockProvider};
use iris::model::{Contact, Thread};
use iris::operations::{audit_filter, provider_by_id};
use iris::outbound::{OutboundMessage, StoredContents};
use iris::storage::AttachmentContent;
use iris::time::Timestamp;
use iris::wire::decode_attachments;

fn value(v: &serde_json::Value) -> Json {
    match v {
        serde_json::Value::Null => Json::Null,
        serde_json::Value::Bool(b) => Json::Bool(*b),
        serde_json::Value::Number(n) => match (n.as_u64(), n.as_i64()) {
            (Some(u), _) => Json::Number(JsonNumber::Unsigned(u)),
            (None, Some(i)) => Json::Number(JsonNumber::Negative(i)),
            (None, None) => Json::Number(JsonNumber::Decimal(n.to_string())),
        },
        serde_json::Value::String(s) => Json::Text(s.clone()),
        serde_json::Value::Array(items) => Json::Array(items.iter().map(value).collect()),
        serde_json::Value::Object(members) => {
            Json::Object(members.iter().map(|(k, v)| (k.clone(), value(v))).collect())
        }
    }
}

/// The JSON value that a text stands for.
fn json(text: &str) -> Json {
    value(&serde_json::from_str::<serde_json::Value>(text).expect("JSON text"))
}

fn now() -> Timestamp {
    Timestamp::parse_rfc3339("2026-08-14T12:00:00Z").unwrap()
}

fn new_id() -> Uuid {
    Uuid { value: uuid::Uuid::new_v4().as_u128() }
}

fn items<'a>(value: &'a Json, key: &str) -> &'a Vec<Json> {
    let Some(Json::Array(items)) = value.get(key) else {
        panic!("{key} is a list");
    };
    items
}

fn names(tools: &Json) -> Vec<&str> {
    items(tools, "tools").iter().map(|tool| tool.get_str("name").expect("tool name")).collect()
}

/// A server over the mock provider, an audit trail and a store.
struct World {
    server: McpServer,
    mock: MockProvider,
    store: Option<StoredContents>,
    audit: AuditTrail,
}

impl World {
    fn new() -> World {
        World {
            server: McpServer::new(),
            mock: MockProvider::new(),
            store: None,
            audit: AuditTrail::load(Vec::new()),
        }
    }

    fn handle(&mut self, request: &str) -> Json {
        match self.server.handle_jsonrpc(&json(request)) {
            RpcStep::Answer(response) => response,
            RpcStep::Call { id, params } => {
                let result = self.call(&params);
                answer(id, result.map(|text| tool_result(&text, false)))
            }
        }
    }

    fn call(&mut self, params: &Json) -> Result<String, String> {
        let null = Json::Null;
        let arguments = params.get("arguments").unwrap_or(&null);
        let limit = match arguments.get("limit") {
            Some(Json::Number(JsonNumber::Unsigned(n))) => Some(*n as u32),
            _ => None,
        };
        match tool_named(params.get_str("name").expect("a name"))? {
            Tool::ListThreads => {
                let threads = self.mock.list_threads(new_id(), now(), provider_limit(false, limit));
                let page = page_threads(threads, None, limit)?;
                let listed = page.iter().map(iris::ingest::thread_json).collect();
                Ok(Json::Array(listed).render())
            }
            Tool::ListContacts => {
                let page = page_contacts(self.mock.list_contacts(new_id()), None, limit)?;
                let listed = page.iter().map(iris::ingest::contact_json).collect();
                Ok(Json::Array(listed).render())
            }
            Tool::SendMessage => {
                let attachments = decode_attachments(arguments.get("attachments"))
                    .map_err(|error| error.describe())?;
                let message = OutboundMessage {
                    body: arguments.get_str("body").expect("a body").to_owned(),
                    attachments,
                };
                let provider = arguments.get_str("provider").expect("a provider");
                provider_by_id(&vec!["mock".to_owned()], provider)
                    .map_err(|error| error.describe())?;
                let ids = MessageIds { message: new_id(), thread: new_id(), sender: new_id() };
                let thread_id = arguments.get_str("thread_id").expect("a thread");
                let (sent, _) = self
                    .mock
                    .send_message(thread_id, &message, self.store.as_ref(), ids, now())
                    .map_err(|error| error.describe())?;
                Ok(iris::ingest::message_json(&sent).render())
            }
            Tool::AuditQuery => {
                let provider = arguments.get_str("provider").map(ToOwned::to_owned);
                let action = arguments
                    .get_str("action")
                    .map(iris::operations::parse_action)
                    .transpose()?;
                let filter = audit_filter(provider, action, None, None, None, limit)?;
                let entries = self.audit.query(&filter);
                let lines: Vec<String> = entries.iter().map(iris::audit::entry_line).collect();
                Ok(lines.join("\n"))
            }
            Tool::ListMessages | Tool::IngestBatch => panic!("not called here"),
        }
    }
}

#[test]
fn generated_tools_include_core_operations() {
    let tools = generated_tools();
    let names = names(&tools);
    assert!(names.contains(&"list_messages"));
    assert!(names.contains(&"list_threads"));
    assert!(names.contains(&"list_contacts"));
    assert!(names.contains(&"send_message"));
    assert!(names.contains(&"audit_query"));
}

#[test]
fn initialize_returns_mcp_server_info() {
    let response = World::new().handle(r#"{"jsonrpc":"2.0","id":1,"method":"initialize"}"#);
    assert_eq!(response.get_str("jsonrpc"), Some("2.0"));
    assert_eq!(response.get("id"), Some(&json("1")));
    let result = response.get("result").unwrap();
    assert_eq!(result.get("serverInfo").unwrap().get_str("name"), Some(SERVER_NAME));
    assert_eq!(result.get("capabilities").unwrap().get("tools"), Some(&json("{}")));
    assert_eq!(result.get_str("protocolVersion"), Some("2024-11-05"));
}

#[test]
fn tools_list_returns_all_generated_tools() {
    let response = World::new().handle(r#"{"jsonrpc":"2.0","id":2,"method":"tools/list"}"#);
    let names = names(response.get("result").unwrap());
    assert!(names.contains(&"list_messages"));
    assert!(names.contains(&"list_threads"));
    assert!(names.contains(&"list_contacts"));
    assert!(names.contains(&"send_message"));
    assert!(names.contains(&"audit_query"));
}

#[test]
fn tools_call_executes_against_mock_provider() {
    let response = World::new().handle(
        r#"{
            "jsonrpc":"2.0",
            "id":3,
            "method":"tools/call",
            "params":{"name":"list_threads","arguments":{"limit":1}}
        }"#,
    );
    assert_eq!(response.get("error"), None);
    let result = response.get("result").unwrap();
    assert_eq!(result.get("isError"), Some(&Json::Bool(false)));
    let text = items(result, "content")[0].get_str("text").expect("text content");
    let Json::Array(threads) = json(text) else {
        panic!("threads are a list");
    };
    assert_eq!(threads.len(), 1);
    assert_eq!(threads[0].get_str("source"), Some("mock"));
}

#[test]
fn tools_call_queries_audit_entries() {
    let mut world = World::new();
    let expected = world.audit.record(
        new_id(),
        AuditEvent {
            action: AuditAction::Send,
            provider: "telegram".into(),
            source_id: Some("outgoing-1".into()),
            timestamp: now(),
            metadata: json("{}"),
        },
    );
    world.audit.record(
        new_id(),
        AuditEvent {
            action: AuditAction::Normalize,
            provider: "telegram".into(),
            source_id: Some("incoming-1".into()),
            timestamp: now(),
            metadata: json("{}"),
        },
    );
    let response = world.handle(
        r#"{
            "jsonrpc": "2.0",
            "id": 4,
            "method": "tools/call",
            "params": {
                "name": "audit_query",
                "arguments": {"action": "send", "provider": "telegram"}
            }
        }"#,
    );
    let result = response.get("result").unwrap();
    assert_eq!(result.get("isError"), Some(&Json::Bool(false)));
    let text = items(result, "content")[0].get_str("text").unwrap();
    assert_eq!(text, iris::audit::entry_line(&expected));
}

#[test]
fn run_jsonrpc_handles_line_delimited_requests() {
    let input = r#"{"jsonrpc":"2.0","id":1,"method":"tools/list"}

{"jsonrpc":"2.0","id":2,"method":"tools/call","params":{"name":"list_contacts","arguments":{"limit":1}}}
"#;
    let mut world = World::new();
    let responses: Vec<Json> = input
        .lines()
        .filter(|line| is_request_line(line))
        .map(|line| world.handle(line))
        .collect();
    assert_eq!(responses.len(), 2);
    assert_eq!(names(responses[0].get("result").unwrap()).len(), 6);
    assert_eq!(
        responses[1].get("result").unwrap().get("isError"),
        Some(&Json::Bool(false))
    );
    assert_eq!(
        parse_error_response("expected value").render(),
        r#"{"error":{"code":-32700,"message":"parse error: expected value"},"id":null,"jsonrpc":"2.0"}"#
    );
}

#[test]
fn send_message_tool_accepts_inline_and_stored_attachments() {
    let stored = new_id();
    let mut world = World::new();
    world.store = Some(StoredContents {
        entries: vec![(
            stored,
            AttachmentContent {
                mime_type: "text/plain".to_string(),
                filename: Some("stored.txt".to_string()),
                bytes: b"stored-bytes".to_vec(),
            },
        )],
    });
    let response = world.handle(&format!(
        r#"{{
            "jsonrpc": "2.0",
            "id": 7,
            "method": "tools/call",
            "params": {{
                "name": "send_message",
                "arguments": {{
                    "thread_id": "11111111-1111-1111-1111-111111111111",
                    "body": "see files",
                    "provider": "mock",
                    "attachments": [
                        {{"mime_type": "image/png", "filename": "a.png", "data_base64": "aGk="}},
                        {{"stored_id": "{}"}}
                    ]
                }}
            }}
        }}"#,
        stored.text()
    ));
    assert_eq!(response.get("error"), None, "{response:?}");
    assert_eq!(response.get("result").unwrap().get("isError"), Some(&Json::Bool(false)));
    let sends = world.mock.recorded_sends();
    assert_eq!(sends.len(), 1);
    assert_eq!(sends[0].attachments.len(), 2);
    assert_eq!(sends[0].attachments[0].bytes, b"hi".to_vec());
    assert_eq!(sends[0].attachments[1].filename.as_deref(), Some("stored.txt"));
}

fn refused(attachments: &str) -> String {
    let response = World::new().handle(&format!(
        r#"{{
            "jsonrpc": "2.0",
            "id": 8,
            "method": "tools/call",
            "params": {{
                "name": "send_message",
                "arguments": {{
                    "thread_id": "11111111-1111-1111-1111-111111111111",
                    "body": "hello",
                    "attachments": {attachments}
                }}
            }}
        }}"#
    ));
    let error = response.get("error").expect("an error");
    assert_eq!(error.get("code"), Some(&json("-32000")));
    error.get_str("message").unwrap().to_owned()
}

#[test]
fn send_message_tool_rejects_mixed_attachment_union() {
    let message = refused(
        r#"[{
            "mime_type": "image/png",
            "data_base64": "aGk=",
            "stored_id": "22222222-2222-2222-2222-222222222222"
        }]"#,
    );
    assert!(message.contains("mixes"), "{message}");
}

#[test]
fn send_message_tool_rejects_invalid_stored_uuid() {
    let message = refused(r#"[{"stored_id": "not-a-uuid"}]"#);
    assert!(message.contains("invalid UUID"), "{message}");
}

#[test]
fn generated_send_message_schema_carries_declared_union() {
    let tools = generated_tools();
    let tool = items(&tools, "tools")
        .iter()
        .find(|tool| tool.get_str("name") == Some("send_message"))
        .expect("send_message tool");
    let attachments =
        tool.get("inputSchema").unwrap().get("properties").unwrap().get("attachments").unwrap();
    assert_eq!(attachments.get_str("type"), Some("array"));
    let variants = items(attachments.get("items").unwrap(), "oneOf");
    assert_eq!(variants.len(), 2);
    assert_eq!(variants[0].get("required"), Some(&json(r#"["mime_type", "data_base64"]"#)));
    assert_eq!(variants[0].get("additionalProperties"), Some(&Json::Bool(false)));
    assert_eq!(variants[1].get("required"), Some(&json(r#"["stored_id"]"#)));
    assert_eq!(variants[1].get("additionalProperties"), Some(&Json::Bool(false)));
}

#[test]
fn requests_are_refused_in_words() {
    let mut world = World::new();
    assert_eq!(
        world.handle(r#"{"id":"a"}"#).render(),
        r#"{"error":{"code":-32600,"message":"missing JSON-RPC method"},"id":"a","jsonrpc":"2.0"}"#
    );
    assert_eq!(
        world.handle(r#"{"id":1,"method":"other"}"#).render(),
        r#"{"error":{"code":-32000,"message":"unsupported MCP method: other"},"id":1,"jsonrpc":"2.0"}"#
    );
    assert_eq!(
        world.handle(r#"{"method":"notifications/initialized"}"#).render(),
        r#"{"id":null,"jsonrpc":"2.0","result":null}"#
    );
    let unknown =
        world.handle(r#"{"id":1,"method":"tools/call","params":{"name":"other"}}"#);
    assert_eq!(
        unknown.get("error").unwrap().get_str("message"),
        Some("unknown Iris MCP tool: other")
    );
    assert_eq!(batch_argument(&json("{}")).unwrap_err(), "missing ingest batch");
    assert_eq!(batch_argument(&json(r#"{"batch":7}"#)), Ok(json("7")));
    let server = McpServer::new();
    assert_eq!(
        server.admit_batch("alpha").unwrap_err(),
        "ingest source is not configured: alpha"
    );
    let server = server.with_ingest(vec!["alpha".into()], vec!["alpha".into()]);
    assert!(server.admit_batch("alpha").is_ok());
    let unstored = McpServer {
        has_ingest: false,
        ingest_sources: vec!["alpha".into()],
        ingest_secret_sources: vec!["alpha".into()],
    };
    assert_eq!(
        unstored.admit_batch("alpha").unwrap_err(),
        "ingest service is not configured"
    );
}

fn thread(id: u128, source: &str, at: &str) -> Thread {
    let mut threads = MockProvider::new().list_threads(Uuid { value: id }, now(), None);
    let mut thread = threads.remove(0);
    thread.source = source.to_owned();
    thread.last_message_at = Timestamp::parse_rfc3339(at).unwrap();
    thread
}

fn threads() -> Vec<Thread> {
    vec![
        thread(2, "b", "2026-08-14T10:00:00Z"),
        thread(1, "b", "2026-08-14T10:00:00Z"),
        thread(3, "a", "2026-08-14T10:00:00Z"),
        thread(4, "z", "2026-08-14T11:00:00Z"),
    ]
}

fn thread_ids(threads: Vec<Thread>) -> Vec<u128> {
    threads.into_iter().map(|thread| thread.id.value).collect()
}

#[test]
fn thread_pages_go_on_behind_their_cursor() {
    let all = page_threads(threads(), None, None).unwrap();
    let cursors: Vec<ThreadCursor> = all.iter().map(ThreadCursor::behind).collect();
    assert_eq!(thread_ids(all), vec![4, 3, 1, 2]);
    let read = parse_thread_cursor(&cursors[1].text()).unwrap();
    assert_eq!(read, cursors[1]);
    assert_eq!(thread_ids(page_threads(threads(), Some(&read), None).unwrap()), vec![1, 2]);
    assert_eq!(thread_ids(page_threads(threads(), Some(&read), Some(1)).unwrap()), vec![1]);
    let earlier = parse_thread_cursor("2026-08-14T11:00:00Z").unwrap();
    assert_eq!(
        thread_ids(page_threads(threads(), Some(&earlier), None).unwrap()),
        vec![3, 1, 2]
    );
    let gone = parse_thread_cursor(
        "2026-08-14T10:00:00Z|b|00000000-0000-0000-0000-000000000009",
    )
    .unwrap();
    assert_eq!(
        page_threads(threads(), Some(&gone), None).unwrap_err(),
        "thread cursor not found: 2026-08-14T10:00:00+00:00|b|00000000-0000-0000-0000-000000000009"
    );
    assert_eq!(
        parse_thread_cursor("a|b").unwrap_err(),
        "thread cursor must be RFC3339 or '<RFC3339>|<source>|<uuid>'"
    );
    assert!(parse_thread_cursor("bad").is_err());
    assert!(parse_thread_cursor("2026-08-14T10:00:00Z|b|bad").is_err());
    assert_eq!(provider_limit(true, Some(1)), None);
}

fn contact(id: u128, name: Option<&str>) -> Contact {
    let mut contact = MockProvider::new().list_contacts(Uuid { value: id }).remove(0);
    contact.display_name = name.map(ToOwned::to_owned);
    contact
}

#[test]
fn contact_pages_go_on_behind_their_cursor() {
    let all = || vec![contact(1, Some("Zoe")), contact(2, None), contact(3, Some("Ann"))];
    let order = |contacts: Vec<Contact>| -> Vec<u128> {
        contacts.into_iter().map(|contact| contact.id.value).collect()
    };
    assert_eq!(order(page_contacts(all(), None, None).unwrap()), vec![2, 3, 1]);
    let cursor = Uuid { value: 3 }.text();
    assert_eq!(order(page_contacts(all(), Some(&cursor), None).unwrap()), vec![1]);
    assert_eq!(
        page_contacts(all(), Some("00000000-0000-0000-0000-000000000009"), None).unwrap_err(),
        "contact cursor not found: 00000000-0000-0000-0000-000000000009"
    );
    assert!(page_contacts(all(), Some("bad"), None).is_err());
}

#[test]
fn message_pages_start_with_the_earliest() {
    let ids = MessageIds { message: new_id(), thread: new_id(), sender: new_id() };
    let mut messages = MockProvider::new().list_messages("t", ids, now(), None);
    let mut later = messages.remove(0);
    let mut earlier = later.clone();
    later.timestamp = Timestamp::parse_rfc3339("2026-08-14T12:00:01Z").unwrap();
    earlier.timestamp = Timestamp::parse_rfc3339("2026-08-14T12:00:00Z").unwrap();
    let page = page_messages(vec![later, earlier.clone()], Some(1));
    assert_eq!(page, vec![earlier]);
    assert!(matches!(
        provider_by_id(&vec![], "x"),
        Err(IrisError::ProviderNotFound(_))
    ));
}
