//! Tool server: operations as tools that agents call over JSON-RPC.

pub mod paging;
pub mod tools;

use vstd::prelude::*;
use crate::error::prefixed;
use crate::json::{
    integer_view, json_array, json_integer, json_object, json_text, member, member_views, Json,
    JsonNumberView, JsonView,
};
use crate::operations::{admit_source, source_refusal};
use crate::text::{blank, is_blank, str_eq, view_result, view_unit, views};
use self::tools::{generated_tools, tools_view};

verus! {

/// The name of the server.
pub const SERVER_NAME: &'static str = "iris";

/// The version of the server.
pub const SERVER_VERSION: &'static str = "0.1.0";

/// The code of a request without a method.
pub const INVALID_REQUEST: i64 = -32600;

/// The code of a line that is no JSON.
pub const PARSE_ERROR: i64 = -32700;

/// The code of a method that failed.
pub const METHOD_FAILED: i64 = -32000;

/// A response that succeeded.
pub open spec fn success_view(id: JsonView, result: JsonView) -> JsonView {
    JsonView::Object(
        seq![("id"@, id), ("jsonrpc"@, JsonView::Text("2.0"@)), ("result"@, result)],
    )
}

/// A response that succeeded.
pub fn success_response(id: Json, result: Json) -> (r: Json)
    ensures
        r@ == success_view(id@, result@),
{
    let ghost expected = success_view(id@, result@);
    let mut members: Vec<(String, Json)> = Vec::new();
    members.push(member("id", id));
    members.push(member("jsonrpc", json_text("2.0")));
    members.push(member("result", result));
    assert(member_views(members@) =~= expected->Object_0);
    json_object(members)
}

/// The body of an error.
pub open spec fn error_body(code: i64, message: Seq<char>) -> JsonView {
    JsonView::Object(
        seq![
            ("code"@, JsonView::Number(integer_view(code))),
            ("message"@, JsonView::Text(message)),
        ],
    )
}

/// A response that failed.
pub open spec fn error_view(id: JsonView, code: i64, message: Seq<char>) -> JsonView {
    JsonView::Object(
        seq![
            ("error"@, error_body(code, message)),
            ("id"@, id),
            ("jsonrpc"@, JsonView::Text("2.0"@)),
        ],
    )
}

/// A response that failed.
pub fn error_response(id: Json, code: i64, message: &str) -> (r: Json)
    ensures
        r@ == error_view(id@, code, message@),
{
    let ghost expected = error_view(id@, code, message@);
    let mut body: Vec<(String, Json)> = Vec::new();
    body.push(member("code", json_integer(code)));
    body.push(member("message", json_text(message)));
    assert(member_views(body@) =~= error_body(code, message@)->Object_0);
    let mut members: Vec<(String, Json)> = Vec::new();
    members.push(member("error", json_object(body)));
    members.push(member("id", id));
    members.push(member("jsonrpc", json_text("2.0")));
    assert(member_views(members@) =~= expected->Object_0);
    json_object(members)
}

/// The response to what a method gave.
pub open spec fn answered(id: JsonView, result: Result<JsonView, Seq<char>>) -> JsonView {
    match result {
        Ok(result) => success_view(id, result),
        Err(message) => error_view(id, METHOD_FAILED, message),
    }
}

/// The response to what a method gave.
pub fn answer(id: Json, result: Result<Json, String>) -> (r: Json)
    ensures
        r@ == answered(id@, view_result(result)),
{
    match result {
        Ok(result) => success_response(id, result),
        Err(message) => error_response(id, METHOD_FAILED, message.as_str()),
    }
}

/// The response to a line that is no JSON.
pub fn parse_error_response(error: &str) -> (r: Json)
    ensures
        r@ == error_view(JsonView::Null, PARSE_ERROR, "parse error: "@ + error@),
{
    error_response(Json::Null, PARSE_ERROR, prefixed("parse error: ", error).as_str())
}

/// Whether a line holds a request: blank lines are skipped.
pub fn is_request_line(line: &str) -> (r: bool)
    ensures
        r == !blank(line@),
{
    !is_blank(line)
}

/// The result of a tool, whose value is handed over as text.
pub open spec fn tool_result_view(text: Seq<char>, is_error: bool) -> JsonView {
    JsonView::Object(
        seq![
            (
                "content"@,
                JsonView::Array(
                    seq![
                        JsonView::Object(
                            seq![
                                ("text"@, JsonView::Text(text)),
                                ("type"@, JsonView::Text("text"@)),
                            ],
                        ),
                    ],
                ),
            ),
            ("isError"@, JsonView::Bool(is_error)),
        ],
    )
}

/// The result of a tool, whose value is handed over as text.
pub fn tool_result(text: &str, is_error: bool) -> (r: Json)
    ensures
        r@ == tool_result_view(text@, is_error),
{
    let mut part: Vec<(String, Json)> = Vec::new();
    part.push(member("text", json_text(text)));
    part.push(member("type", json_text("text")));
    assert(member_views(part@) =~= seq![
        ("text"@, JsonView::Text(text@)),
        ("type"@, JsonView::Text("text"@)),
    ]);
    let mut content: Vec<Json> = Vec::new();
    content.push(json_object(part));
    assert(views(content@) =~= tool_result_view(text@, is_error)->Object_0[0].1->Array_0);
    let mut members: Vec<(String, Json)> = Vec::new();
    members.push(member("content", json_array(content)));
    members.push(member("isError", Json::Bool(is_error)));
    assert(member_views(members@) =~= tool_result_view(text@, is_error)->Object_0);
    json_object(members)
}

/// What the server tells of itself.
pub open spec fn initialize_view() -> JsonView {
    JsonView::Object(
        seq![
            ("capabilities"@, JsonView::Object(seq![("tools"@, JsonView::Object(seq![]))])),
            ("protocolVersion"@, JsonView::Text("2024-11-05"@)),
            (
                "serverInfo"@,
                JsonView::Object(
                    seq![
                        ("name"@, JsonView::Text(SERVER_NAME@)),
                        ("version"@, JsonView::Text(SERVER_VERSION@)),
                    ],
                ),
            ),
        ],
    )
}

fn initialize_result() -> (r: Json)
    ensures
        r@ == initialize_view(),
{
    let none: Vec<(String, Json)> = Vec::new();
    assert(member_views(none@) =~= seq![]);
    let mut capabilities: Vec<(String, Json)> = Vec::new();
    capabilities.push(member("tools", json_object(none)));
    assert(member_views(capabilities@) =~= seq![("tools"@, JsonView::Object(seq![]))]);
    let mut info: Vec<(String, Json)> = Vec::new();
    info.push(member("name", json_text(SERVER_NAME)));
    info.push(member("version", json_text(SERVER_VERSION)));
    assert(member_views(info@) =~= seq![
        ("name"@, JsonView::Text(SERVER_NAME@)),
        ("version"@, JsonView::Text(SERVER_VERSION@)),
    ]);
    let mut members: Vec<(String, Json)> = Vec::new();
    members.push(member("capabilities", json_object(capabilities)));
    members.push(member("protocolVersion", json_text("2024-11-05")));
    members.push(member("serverInfo", json_object(info)));
    assert(member_views(members@) =~= initialize_view()->Object_0);
    json_object(members)
}

/// What becomes of a request.
#[derive(Debug)]
pub enum RpcStep {
    /// The response.
    Answer(Json),
    /// A tool is called with these parameters, and its result answers the request with this
    /// identifier.
    Call { id: Json, params: Json },
}

/// The mathematical value of a step.
#[verifier::ext_equal]
pub enum RpcStepView {
    Answer(JsonView),
    Call { id: JsonView, params: JsonView },
}

impl View for RpcStep {
    type V = RpcStepView;

    open spec fn view(&self) -> RpcStepView {
        match *self {
            RpcStep::Answer(response) => RpcStepView::Answer(response@),
            RpcStep::Call { id, params } => RpcStepView::Call { id: id@, params: params@ },
        }
    }
}

/// A member of a request, or null.
pub open spec fn member_or_null(request: JsonView, key: Seq<char>) -> JsonView {
    match request.member(key) {
        Some(value) => value,
        None => JsonView::Null,
    }
}

fn copy_member(request: &Json, key: &str) -> (r: Json)
    ensures
        r@ == member_or_null(request@, key@),
{
    match request.get(key) {
        Some(value) => value.clone(),
        None => Json::Null,
    }
}

/// What becomes of a request: every method but the call of a tool is answered at once.
pub open spec fn handled(request: JsonView) -> RpcStepView {
    let id = member_or_null(request, "id"@);
    match request.member_text("method"@) {
        None => RpcStepView::Answer(error_view(id, INVALID_REQUEST, "missing JSON-RPC method"@)),
        Some(method) => if method == "initialize"@ {
            RpcStepView::Answer(success_view(id, initialize_view()))
        } else if method == "notifications/initialized"@ {
            RpcStepView::Answer(success_view(id, JsonView::Null))
        } else if method == "tools/list"@ {
            RpcStepView::Answer(success_view(id, tools_view()))
        } else if method == "tools/call"@ {
            RpcStepView::Call { id, params: member_or_null(request, "params"@) }
        } else {
            RpcStepView::Answer(error_view(id, METHOD_FAILED, "unsupported MCP method: "@ + method))
        },
    }
}

/// Tool server: the sources that it takes batches from.
#[derive(Debug)]
pub struct McpServer {
    /// Whether batches can be stored.
    pub has_ingest: bool,
    /// The sources that are configured.
    pub ingest_sources: Vec<String>,
    /// The sources with a secret.
    pub ingest_secret_sources: Vec<String>,
}

impl McpServer {
    /// A server that takes no batches.
    pub fn new() -> (r: McpServer)
        ensures
            !r.has_ingest,
            r.ingest_sources@.len() == 0,
            r.ingest_secret_sources@.len() == 0,
    {
        McpServer {
            has_ingest: false,
            ingest_sources: Vec::new(),
            ingest_secret_sources: Vec::new(),
        }
    }

    /// The server with a store for the batches of the given sources.
    pub fn with_ingest(self, sources: Vec<String>, secret_sources: Vec<String>) -> (r: McpServer)
        ensures
            r == (McpServer {
                has_ingest: true,
                ingest_sources: sources,
                ingest_secret_sources: secret_sources,
            }),
    {
        McpServer {
            has_ingest: true,
            ingest_sources: sources,
            ingest_secret_sources: secret_sources,
        }
    }

    /// Handles one JSON-RPC request.
    pub fn handle_jsonrpc(&self, request: &Json) -> (r: RpcStep)
        ensures
            r@ == handled(request@),
    {
        let id = copy_member(request, "id");
        let method = match request.get_str("method") {
            Some(method) => method,
            None => {
                return RpcStep::Answer(error_response(id, INVALID_REQUEST, "missing JSON-RPC method"));
            },
        };
        if str_eq(method, "initialize") {
            RpcStep::Answer(success_response(id, initialize_result()))
        } else if str_eq(method, "notifications/initialized") {
            RpcStep::Answer(success_response(id, Json::Null))
        } else if str_eq(method, "tools/list") {
            RpcStep::Answer(success_response(id, generated_tools()))
        } else if str_eq(method, "tools/call") {
            RpcStep::Call { id, params: copy_member(request, "params") }
        } else {
            RpcStep::Answer(
                error_response(id, METHOD_FAILED, prefixed("unsupported MCP method: ", method).as_str()),
            )
        }
    }

    /// Admits a batch of a source: the source has to be configured, with a secret, and there has
    /// to be a store.
    pub fn admit_batch(&self, source: &str) -> (r: Result<(), String>)
        ensures
            view_unit(r) == (match source_refusal(
                source@,
                views(self.ingest_sources@),
                views(self.ingest_secret_sources@),
            ) {
                Some(error) => Err::<(), Seq<char>>(error),
                None => if self.has_ingest {
                    Ok(())
                } else {
                    Err("ingest service is not configured"@)
                },
            }),
    {
        match admit_source(source, &self.ingest_sources, &self.ingest_secret_sources) {
            Err(error) => {
                return Err(error);
            },
            Ok(_) => {},
        }
        if !self.has_ingest {
            return Err("ingest service is not configured".to_owned());
        }
        Ok(())
    }
}

/// The batch among the arguments of a tool.
pub fn batch_argument(arguments: &Json) -> (r: Result<Json, String>)
    ensures
        view_result(r) == (match arguments@.member("batch"@) {
            Some(batch) => Ok::<JsonView, Seq<char>>(batch),
            None => Err("missing ingest batch"@),
        }),
{
    match arguments.get("batch") {
        Some(batch) => Ok(batch.clone()),
        None => Err("missing ingest batch".to_owned()),
    }
}

/// Every response names its request: the identifier of the request is the identifier of the
/// response, whether the request succeeded or failed, and also when a tool answers it.
pub proof fn law_responses_name_their_request(request: JsonView, result: Result<JsonView, Seq<char>>)
    ensures
        match handled(request) {
            RpcStepView::Answer(response) => member_or_null(response, "id"@) == member_or_null(
                request,
                "id"@,
            ),
            RpcStepView::Call { id, .. } => member_or_null(answered(id, result), "id"@)
                == member_or_null(request, "id"@),
        },
{
    let id = member_or_null(request, "id"@);
    assert forall|result: JsonView| #[trigger]
        success_view(id, result).member("id"@) == Some(id) by {
        lemma_first_member(success_view(id, result)->Object_0);
    }
    assert forall|code: i64, message: Seq<char>| #[trigger]
        error_view(id, code, message).member("id"@) == Some(id) by {
        reveal_strlit("error");
        reveal_strlit("id");
        let members = error_view(id, code, message)->Object_0;
        assert("error"@.len() == 5 && "id"@.len() == 2);
        assert(members[0].0 == "error"@);
        lemma_first_member(members.drop_first());
    }
}

proof fn lemma_first_member(members: Seq<(Seq<char>, JsonView)>)
    requires
        members.len() > 0,
    ensures
        crate::json::find_member(members, members[0].0) == Some(members[0].1),
{
}

/// Each method is handled in its own way: the server introduces itself, lists its tools, calls one,
/// and refuses what it does not know.
pub proof fn law_methods_are_handled_by_their_name(request: JsonView)
    ensures
        ({
            let id = member_or_null(request, "id"@);
            let method = request.member_text("method"@);
            &&& method is None ==> handled(request) == RpcStepView::Answer(
                error_view(id, (-32600) as i64, "missing JSON-RPC method"@),
            )
            &&& method == Some("initialize"@) ==> handled(request) == RpcStepView::Answer(
                success_view(id, initialize_view()),
            )
            &&& method == Some("notifications/initialized"@) ==> handled(request)
                == RpcStepView::Answer(success_view(id, JsonView::Null))
            &&& method == Some("tools/list"@) ==> handled(request) == RpcStepView::Answer(
                success_view(id, tools_view()),
            )
            &&& method == Some("tools/call"@) ==> handled(request) == (RpcStepView::Call {
                id,
                params: member_or_null(request, "params"@),
            })
            &&& method matches Some(name) ==> name != "initialize"@ && name
                != "notifications/initialized"@ && name != "tools/list"@ && name != "tools/call"@
                ==> handled(request) == RpcStepView::Answer(
                error_view(id, (-32000) as i64, "unsupported MCP method: "@ + name),
            )
        }),
{
    reveal_strlit("initialize");
    reveal_strlit("notifications/initialized");
    reveal_strlit("tools/list");
    reveal_strlit("tools/call");
    assert("initialize"@.len() == 10 && "notifications/initialized"@.len() == 25);
    assert("tools/list"@.len() == 10 && "tools/call"@.len() == 10);
    assert("tools/list"@[6] == 'l' && "tools/call"@[6] == 'c' && "initialize"@[0] == 'i');
    assert("tools/list"@[0] == 't' && "tools/call"@[0] == 't');
}

/// A response is of version 2.0 and holds either the result or the error with its code and message.
pub proof fn law_responses_hold_a_result_or_an_error(
    id: JsonView,
    value: JsonView,
    message: Seq<char>,
)
    ensures
        ({
            let ok = answered(id, Ok(value))->Object_0;
            let failed = answered(id, Err(message))->Object_0;
            &&& answered(id, Ok(value)) is Object && ok.len() == 3
            &&& ok[0] == ("id"@, id)
            &&& ok[1] == ("jsonrpc"@, JsonView::Text("2.0"@))
            &&& ok[2] == ("result"@, value)
            &&& answered(id, Err(message)) is Object && failed.len() == 3
            &&& failed[0].0 == "error"@ && failed[0].1 is Object
            &&& failed[0].1->Object_0.len() == 2
            &&& failed[0].1->Object_0[0] == (
                "code"@,
                JsonView::Number(JsonNumberView::Negative((-32000) as i64)),
            )
            &&& failed[0].1->Object_0[1] == ("message"@, JsonView::Text(message))
            &&& failed[1] == ("id"@, id)
            &&& failed[2] == ("jsonrpc"@, JsonView::Text("2.0"@))
        }),
{
}

/// A tool hands its value over as one text, and tells whether it failed.
pub proof fn law_tools_hand_over_text(text: Seq<char>, is_error: bool)
    ensures
        ({
            let members = tool_result_view(text, is_error)->Object_0;
            let content = members[0].1->Array_0;
            &&& tool_result_view(text, is_error) is Object && members.len() == 2
            &&& members[0].0 == "content"@ && members[0].1 is Array && content.len() == 1
            &&& content[0] is Object && content[0]->Object_0.len() == 2
            &&& content[0]->Object_0[0] == ("text"@, JsonView::Text(text))
            &&& content[0]->Object_0[1] == ("type"@, JsonView::Text("text"@))
            &&& members[1] == ("isError"@, JsonView::Bool(is_error))
        }),
{
}

} // verus!
