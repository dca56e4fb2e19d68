//! The tools that agents may call, with the shapes of their arguments.

use vstd::prelude::*;
use crate::error::prefixed;
use crate::json::{json_array, json_object, json_text, member, member_views, Json, JsonView};
use crate::operations::read_result;
use crate::text::{str_eq, views};

verus! {

/// A tool that agents may call.
#[derive(Clone, Copy, Debug, PartialEq, Eq, Structural)]
pub enum Tool {
    ListMessages,
    ListThreads,
    ListContacts,
    SendMessage,
    AuditQuery,
    IngestBatch,
}

/// The tool that a name stands for.
pub open spec fn tool_of(name: Seq<char>) -> Result<Tool, Seq<char>> {
    if name == "list_threads"@ {
        Ok(Tool::ListThreads)
    } else if name == "list_contacts"@ {
        Ok(Tool::ListContacts)
    } else if name == "list_messages"@ {
        Ok(Tool::ListMessages)
    } else if name == "send_message"@ {
        Ok(Tool::SendMessage)
    } else if name == "audit_query"@ {
        Ok(Tool::AuditQuery)
    } else if name == "ingest_batch"@ {
        Ok(Tool::IngestBatch)
    } else {
        Err("unknown Iris MCP tool: "@ + name)
    }
}

/// The tool that a name stands for.
pub fn tool_named(name: &str) -> (r: Result<Tool, String>)
    ensures
        read_result(r) == tool_of(name@),
{
    if str_eq(name, "list_threads") {
        Ok(Tool::ListThreads)
    } else if str_eq(name, "list_contacts") {
        Ok(Tool::ListContacts)
    } else if str_eq(name, "list_messages") {
        Ok(Tool::ListMessages)
    } else if str_eq(name, "send_message") {
        Ok(Tool::SendMessage)
    } else if str_eq(name, "audit_query") {
        Ok(Tool::AuditQuery)
    } else if str_eq(name, "ingest_batch") {
        Ok(Tool::IngestBatch)
    } else {
        Err(prefixed("unknown Iris MCP tool: ", name))
    }
}

impl Tool {
    /// The name under which the tool is called.
    pub open spec fn wire_name(self) -> Seq<char> {
        match self {
            Tool::ListMessages => "list_messages"@,
            Tool::ListThreads => "list_threads"@,
            Tool::ListContacts => "list_contacts"@,
            Tool::SendMessage => "send_message"@,
            Tool::AuditQuery => "audit_query"@,
            Tool::IngestBatch => "ingest_batch"@,
        }
    }

    /// The name under which the tool is called.
    pub fn name(&self) -> (r: &'static str)
        ensures
            r@ == self.wire_name(),
    {
        match self {
            Tool::ListMessages => "list_messages",
            Tool::ListThreads => "list_threads",
            Tool::ListContacts => "list_contacts",
            Tool::SendMessage => "send_message",
            Tool::AuditQuery => "audit_query",
            Tool::IngestBatch => "ingest_batch",
        }
    }
}

/// A list of texts in JSON.
pub open spec fn texts_view(texts: Seq<Seq<char>>) -> JsonView {
    JsonView::Array(texts.map_values(|text: Seq<char>| JsonView::Text(text)))
}

/// The schema of a value of a type.
pub open spec fn type_view(name: Seq<char>) -> JsonView {
    JsonView::Object(seq![("type"@, JsonView::Text(name))])
}

/// The schema of an object.
pub open spec fn object_view(
    properties: Seq<(Seq<char>, JsonView)>,
    required: Seq<Seq<char>>,
) -> JsonView {
    JsonView::Object(
        seq![
            ("additionalProperties"@, JsonView::Bool(false)),
            ("properties"@, JsonView::Object(properties)),
            ("required"@, texts_view(required)),
            ("type"@, JsonView::Text("object"@)),
        ],
    )
}

/// The schema of the attachments of a message: each is inline or stored, and never both.
pub open spec fn attachments_schema() -> JsonView {
    JsonView::Object(
        seq![
            (
                "items"@,
                JsonView::Object(
                    seq![
                        ("oneOf"@, JsonView::Array(seq![inline_schema(), stored_schema()])),
                    ],
                ),
            ),
            ("type"@, JsonView::Text("array"@)),
        ],
    )
}

/// The schema of an inline attachment.
pub open spec fn inline_schema() -> JsonView {
    object_view(
        seq![
            ("data_base64"@, type_view("string"@)),
            ("filename"@, type_view("string"@)),
            ("mime_type"@, type_view("string"@)),
        ],
        seq!["mime_type"@, "data_base64"@],
    )
}

/// The schema of a stored attachment.
pub open spec fn stored_schema() -> JsonView {
    object_view(seq![("stored_id"@, type_view("string"@))], seq!["stored_id"@])
}

/// The schema of a tool's arguments.
pub open spec fn arguments_schema(tool: Tool) -> JsonView {
    match tool {
        Tool::ListThreads | Tool::ListContacts => object_view(
            seq![("cursor"@, type_view("string"@)), ("limit"@, type_view("integer"@))],
            seq![],
        ),
        Tool::ListMessages => object_view(
            seq![
                ("before"@, type_view("string"@)),
                ("limit"@, type_view("integer"@)),
                ("thread_id"@, type_view("string"@)),
            ],
            seq!["thread_id"@],
        ),
        Tool::SendMessage => object_view(
            seq![
                ("attachments"@, attachments_schema()),
                ("body"@, type_view("string"@)),
                ("provider"@, type_view("string"@)),
                ("thread_id"@, type_view("string"@)),
            ],
            seq!["thread_id"@, "body"@],
        ),
        Tool::AuditQuery => object_view(
            seq![
                ("action"@, type_view("string"@)),
                ("limit"@, type_view("integer"@)),
                ("provider"@, type_view("string"@)),
                ("since"@, type_view("string"@)),
                ("source_id"@, type_view("string"@)),
                ("until"@, type_view("string"@)),
            ],
            seq![],
        ),
        Tool::IngestBatch => object_view(
            seq![("batch"@, type_view("object"@))],
            seq!["batch"@],
        ),
    }
}

/// The definition of a tool.
pub open spec fn tool_view(tool: Tool) -> JsonView {
    JsonView::Object(
        seq![
            ("inputSchema"@, arguments_schema(tool)),
            ("name"@, JsonView::Text(tool.wire_name())),
        ],
    )
}

/// The tools, in the order in which they are listed.
pub open spec fn all_tools() -> Seq<Tool> {
    seq![
        Tool::ListMessages,
        Tool::ListThreads,
        Tool::ListContacts,
        Tool::SendMessage,
        Tool::AuditQuery,
        Tool::IngestBatch,
    ]
}

/// The definitions of all tools.
pub open spec fn tools_view() -> JsonView {
    JsonView::Object(
        seq![("tools"@, JsonView::Array(all_tools().map_values(|tool: Tool| tool_view(tool))))],
    )
}

fn texts_json(texts: &Vec<&str>) -> (r: Json)
    ensures
        r@ == texts_view(texts@.map_values(|text: &str| text@)),
{
    let mut items: Vec<Json> = Vec::new();
    let mut i: usize = 0;
    while i < texts.len()
        invariant
            i <= texts@.len(),
            items@.len() == i,
            forall|j: int| 0 <= j < i ==> (#[trigger] items@[j])@ == JsonView::Text(texts@[j]@),
        decreases texts@.len() - i,
    {
        items.push(json_text(texts[i]));
        i += 1;
    }
    assert(views(items@) =~= texts@.map_values(|text: &str| text@).map_values(
        |text: Seq<char>| JsonView::Text(text),
    ));
    json_array(items)
}

fn type_json(name: &str) -> (r: Json)
    ensures
        r@ == type_view(name@),
{
    let mut members: Vec<(String, Json)> = Vec::new();
    members.push(member("type", json_text(name)));
    assert(member_views(members@) =~= type_view(name@)->Object_0);
    json_object(members)
}

fn object_json(properties: Vec<(String, Json)>, required: Vec<&str>) -> (r: Json)
    ensures
        r@ == object_view(
            member_views(properties@),
            required@.map_values(|text: &str| text@),
        ),
{
    let ghost expected = object_view(
        member_views(properties@),
        required@.map_values(|text: &str| text@),
    );
    let mut members: Vec<(String, Json)> = Vec::new();
    members.push(member("additionalProperties", Json::Bool(false)));
    members.push(member("properties", json_object(properties)));
    members.push(member("required", texts_json(&required)));
    members.push(member("type", json_text("object")));
    assert(member_views(members@) =~= expected->Object_0);
    json_object(members)
}

fn inline_json() -> (r: Json)
    ensures
        r@ == inline_schema(),
{
    let mut properties: Vec<(String, Json)> = Vec::new();
    properties.push(member("data_base64", type_json("string")));
    properties.push(member("filename", type_json("string")));
    properties.push(member("mime_type", type_json("string")));
    let mut required: Vec<&str> = Vec::new();
    required.push("mime_type");
    required.push("data_base64");
    assert(member_views(properties@) =~= seq![
        ("data_base64"@, type_view("string"@)),
        ("filename"@, type_view("string"@)),
        ("mime_type"@, type_view("string"@)),
    ]);
    assert(required@.map_values(|text: &str| text@) =~= seq!["mime_type"@, "data_base64"@]);
    object_json(properties, required)
}

fn stored_json() -> (r: Json)
    ensures
        r@ == stored_schema(),
{
    let mut properties: Vec<(String, Json)> = Vec::new();
    properties.push(member("stored_id", type_json("string")));
    let mut required: Vec<&str> = Vec::new();
    required.push("stored_id");
    assert(member_views(properties@) =~= seq![("stored_id"@, type_view("string"@))]);
    assert(required@.map_values(|text: &str| text@) =~= seq!["stored_id"@]);
    object_json(properties, required)
}

fn attachments_json() -> (r: Json)
    ensures
        r@ == attachments_schema(),
{
    let mut variants: Vec<Json> = Vec::new();
    variants.push(inline_json());
    variants.push(stored_json());
    assert(views(variants@) =~= seq![inline_schema(), stored_schema()]);
    let mut items: Vec<(String, Json)> = Vec::new();
    items.push(member("oneOf", json_array(variants)));
    assert(member_views(items@) =~= seq![
        ("oneOf"@, JsonView::Array(seq![inline_schema(), stored_schema()])),
    ]);
    let mut members: Vec<(String, Json)> = Vec::new();
    members.push(member("items", json_object(items)));
    members.push(member("type", json_text("array")));
    assert(member_views(members@) =~= attachments_schema()->Object_0);
    json_object(members)
}

fn page_schema() -> (r: Json)
    ensures
        r@ == arguments_schema(Tool::ListThreads),
{
    let mut properties: Vec<(String, Json)> = Vec::new();
    properties.push(member("cursor", type_json("string")));
    properties.push(member("limit", type_json("integer")));
    let required: Vec<&str> = Vec::new();
    assert(member_views(properties@) =~= seq![
        ("cursor"@, type_view("string"@)),
        ("limit"@, type_view("integer"@)),
    ]);
    assert(required@.map_values(|text: &str| text@) =~= seq![]);
    object_json(properties, required)
}

fn messages_schema() -> (r: Json)
    ensures
        r@ == arguments_schema(Tool::ListMessages),
{
    let mut properties: Vec<(String, Json)> = Vec::new();
    properties.push(member("before", type_json("string")));
    properties.push(member("limit", type_json("integer")));
    properties.push(member("thread_id", type_json("string")));
    let mut required: Vec<&str> = Vec::new();
    required.push("thread_id");
    assert(member_views(properties@) =~= seq![
        ("before"@, type_view("string"@)),
        ("limit"@, type_view("integer"@)),
        ("thread_id"@, type_view("string"@)),
    ]);
    assert(required@.map_values(|text: &str| text@) =~= seq!["thread_id"@]);
    object_json(properties, required)
}

fn send_schema() -> (r: Json)
    ensures
        r@ == arguments_schema(Tool::SendMessage),
{
    let mut properties: Vec<(String, Json)> = Vec::new();
    properties.push(member("attachments", attachments_json()));
    properties.push(member("body", type_json("string")));
    properties.push(member("provider", type_json("string")));
    properties.push(member("thread_id", type_json("string")));
    let mut required: Vec<&str> = Vec::new();
    required.push("thread_id");
    required.push("body");
    assert(member_views(properties@) =~= seq![
        ("attachments"@, attachments_schema()),
        ("body"@, type_view("string"@)),
        ("provider"@, type_view("string"@)),
        ("thread_id"@, type_view("string"@)),
    ]);
    assert(required@.map_values(|text: &str| text@) =~= seq!["thread_id"@, "body"@]);
    object_json(properties, required)
}

fn audit_schema() -> (r: Json)
    ensures
        r@ == arguments_schema(Tool::AuditQuery),
{
    let mut properties: Vec<(String, Json)> = Vec::new();
    properties.push(member("action", type_json("string")));
    properties.push(member("limit", type_json("integer")));
    properties.push(member("provider", type_json("string")));
    properties.push(member("since", type_json("string")));
    properties.push(member("source_id", type_json("string")));
    properties.push(member("until", type_json("string")));
    let required: Vec<&str> = Vec::new();
    assert(member_views(properties@) =~= seq![
        ("action"@, type_view("string"@)),
        ("limit"@, type_view("integer"@)),
        ("provider"@, type_view("string"@)),
        ("since"@, type_view("string"@)),
        ("source_id"@, type_view("string"@)),
        ("until"@, type_view("string"@)),
    ]);
    assert(required@.map_values(|text: &str| text@) =~= seq![]);
    object_json(properties, required)
}

fn ingest_schema() -> (r: Json)
    ensures
        r@ == arguments_schema(Tool::IngestBatch),
{
    let mut properties: Vec<(String, Json)> = Vec::new();
    properties.push(member("batch", type_json("object")));
    let mut required: Vec<&str> = Vec::new();
    required.push("batch");
    assert(member_views(properties@) =~= seq![("batch"@, type_view("object"@))]);
    assert(required@.map_values(|text: &str| text@) =~= seq!["batch"@]);
    object_json(properties, required)
}

fn tool_json(tool: Tool) -> (r: Json)
    ensures
        r@ == tool_view(tool),
{
    let schema = match tool {
        Tool::ListMessages => messages_schema(),
        Tool::ListThreads => page_schema(),
        Tool::ListContacts => page_schema(),
        Tool::SendMessage => send_schema(),
        Tool::AuditQuery => audit_schema(),
        Tool::IngestBatch => ingest_schema(),
    };
    let mut members: Vec<(String, Json)> = Vec::new();
    members.push(member("inputSchema", schema));
    members.push(member("name", json_text(tool.name())));
    assert(member_views(members@) =~= tool_view(tool)->Object_0);
    json_object(members)
}

/// The definitions of all tools.
pub fn generated_tools() -> (r: Json)
    ensures
        r@ == tools_view(),
{
    let mut tools: Vec<Json> = Vec::new();
    tools.push(tool_json(Tool::ListMessages));
    tools.push(tool_json(Tool::ListThreads));
    tools.push(tool_json(Tool::ListContacts));
    tools.push(tool_json(Tool::SendMessage));
    tools.push(tool_json(Tool::AuditQuery));
    tools.push(tool_json(Tool::IngestBatch));
    assert(views(tools@) =~= all_tools().map_values(|tool: Tool| tool_view(tool)));
    let mut members: Vec<(String, Json)> = Vec::new();
    members.push(member("tools", json_array(tools)));
    assert(member_views(members@) =~= tools_view()->Object_0);
    json_object(members)
}

/// Every tool that is listed can be called by its name, and every name that can be called is
/// listed.
pub proof fn law_listed_tools_are_callable(name: Seq<char>)
    ensures
        tool_of(name) is Ok <==> exists|tool: Tool|
            #[trigger] all_tools().contains(tool) && tool.wire_name() == name,
        forall|tool: Tool| #[trigger]
            all_tools().contains(tool) ==> tool_of(tool.wire_name()) == Ok::<Tool, Seq<char>>(tool),
{
    reveal_strlit("list_threads");
    reveal_strlit("list_contacts");
    reveal_strlit("list_messages");
    reveal_strlit("send_message");
    reveal_strlit("audit_query");
    reveal_strlit("ingest_batch");
    assert("list_messages"@[5] == 'm' && "list_contacts"@[5] == 'c');
    let tools = all_tools();
    assert(tools[0] == Tool::ListMessages);
    assert(tools[1] == Tool::ListThreads);
    assert(tools[2] == Tool::ListContacts);
    assert(tools[3] == Tool::SendMessage);
    assert(tools[4] == Tool::AuditQuery);
    assert(tools[5] == Tool::IngestBatch);
    assert("send_message"@[0] == 's' && "audit_query"@[0] == 'a' && "ingest_batch"@[0] == 'i'
        && "list_threads"@[0] == 'l' && "list_messages"@[0] == 'l' && "list_contacts"@[0] == 'l');
    assert("list_threads"@[5] == 't');
    assert forall|tool: Tool| #[trigger] tools.contains(tool) implies tool_of(tool.wire_name())
        == Ok::<Tool, Seq<char>>(tool) by {
        match tool {
            Tool::ListMessages => {},
            Tool::ListThreads => {},
            Tool::ListContacts => {},
            Tool::SendMessage => {},
            Tool::AuditQuery => {},
            Tool::IngestBatch => {},
        }
    }
    if tool_of(name) is Ok {
        let tool = tool_of(name)->Ok_0;
        assert(tool.wire_name() == name);
        assert(tools.contains(tool)) by {
            match tool {
                Tool::ListMessages => {},
                Tool::ListThreads => {},
                Tool::ListContacts => {},
                Tool::SendMessage => {},
                Tool::AuditQuery => {},
                Tool::IngestBatch => {},
            }
        }
    }
}

/// Each tool has a name of its own, and no other name stands for it.
pub proof fn law_tools_have_names_of_their_own(tool: Tool, name: Seq<char>)
    ensures
        tool_of(tool.wire_name()) == Ok::<Tool, Seq<char>>(tool),
        tool_of(name) == Ok::<Tool, Seq<char>>(tool) ==> name == tool.wire_name(),
        tool_of(name) is Err ==> tool_of(name) == Err::<Tool, Seq<char>>(
            "unknown Iris MCP tool: "@ + name,
        ),
{
    reveal_strlit("list_messages");
    reveal_strlit("list_threads");
    reveal_strlit("list_contacts");
    reveal_strlit("send_message");
    reveal_strlit("audit_query");
    reveal_strlit("ingest_batch");
    assert("list_messages"@.len() == 13
        && "list_messages"@[0] == 'l'
        && "list_messages"@[5] == 'm');
    assert("list_threads"@.len() == 12 && "list_threads"@[0] == 'l' && "list_threads"@[5] == 't');
    assert("list_contacts"@.len() == 13
        && "list_contacts"@[0] == 'l'
        && "list_contacts"@[5] == 'c');
    assert("send_message"@.len() == 12 && "send_message"@[0] == 's' && "send_message"@[5] == 'm');
    assert("audit_query"@.len() == 11 && "audit_query"@[0] == 'a' && "audit_query"@[5] == '_');
    assert("ingest_batch"@.len() == 12 && "ingest_batch"@[0] == 'i' && "ingest_batch"@[5] == 't');
}

/// The names of the arguments that a tool takes, those first that it needs.
pub open spec fn parameters(tool: Tool) -> (Seq<Seq<char>>, Seq<Seq<char>>) {
    match tool {
        Tool::ListThreads => (seq![], seq!["cursor"@, "limit"@]),
        Tool::ListContacts => (seq![], seq!["cursor"@, "limit"@]),
        Tool::ListMessages => (seq!["thread_id"@], seq!["before"@, "limit"@]),
        Tool::SendMessage => (seq!["thread_id"@, "body"@], seq!["attachments"@, "provider"@]),
        Tool::AuditQuery => (
            seq![],
            seq!["action"@, "limit"@, "provider"@, "since"@, "source_id"@, "until"@],
        ),
        Tool::IngestBatch => (seq!["batch"@], seq![]),
    }
}

/// A tool takes an object of its own arguments and no others; those that it needs are required, and
/// each is described.
pub proof fn law_tools_take_their_own_arguments(tool: Tool, name: Seq<char>)
    ensures
        ({
            let schema = arguments_schema(tool)->Object_0;
            let (needed, optional) = parameters(tool);
            &&& arguments_schema(tool) is Object && schema.len() == 4
            &&& schema[0] == ("additionalProperties"@, JsonView::Bool(false))
            &&& schema[1].0 == "properties"@ && schema[1].1 is Object
            &&& schema[1].1->Object_0.len() == needed.len() + optional.len()
            &&& (exists|i: int|
                0 <= i < schema[1].1->Object_0.len() && (#[trigger] schema[1].1->Object_0[i]).0
                    == name) <==> needed.contains(name) || optional.contains(name)
            &&& schema[2].0 == "required"@ && schema[2].1 is Array
            &&& schema[2].1->Array_0 == needed.map_values(|text: Seq<char>| JsonView::Text(text))
            &&& schema[3] == ("type"@, JsonView::Text("object"@))
        }),
{
    let schema = arguments_schema(tool)->Object_0;
    let members = schema[1].1->Object_0;
    let names = members.map_values(|member: (Seq<char>, JsonView)| member.0);
    let (needed, optional) = parameters(tool);
    assert forall|x: Seq<char>| #[trigger] names.contains(x) <==> needed.contains(x)
        || optional.contains(x) by {
        lemma_described(tool, x);
    }
    if names.contains(name) {
        let i = choose|i: int| 0 <= i < names.len() && names[i] == name;
        assert(members[i].0 == name);
    }
    if exists|i: int| 0 <= i < members.len() && (#[trigger] members[i]).0 == name {
        let i = choose|i: int| 0 <= i < members.len() && (#[trigger] members[i]).0 == name;
        assert(names[i] == name);
    }
}

proof fn lemma_described(tool: Tool, x: Seq<char>)
    ensures
        ({
            let members = arguments_schema(tool)->Object_0[1].1->Object_0;
            let names = members.map_values(|member: (Seq<char>, JsonView)| member.0);
            names.contains(x) <==> parameters(tool).0.contains(x) || parameters(tool).1.contains(x)
        }),
{
    let members = arguments_schema(tool)->Object_0[1].1->Object_0;
    let names = members.map_values(|member: (Seq<char>, JsonView)| member.0);
    let (needed, optional) = parameters(tool);
    if names.contains(x) {
        let i = choose|i: int| 0 <= i < names.len() && names[i] == x;
        match tool {
            Tool::ListThreads | Tool::ListContacts => {
                assert(x == optional[0] || x == optional[1]);
            },
            Tool::ListMessages => {
                assert(x == needed[0] || x == optional[0] || x == optional[1]);
            },
            Tool::SendMessage => {
                assert(x == needed[0] || x == needed[1] || x == optional[0] || x == optional[1]);
            },
            Tool::AuditQuery => {
                assert(x == optional[0] || x == optional[1] || x == optional[2] || x == optional[3]
                    || x == optional[4] || x == optional[5]);
            },
            Tool::IngestBatch => {
                assert(x == needed[0]);
            },
        }
    }
    if needed.contains(x) {
        let i = choose|i: int| 0 <= i < needed.len() && needed[i] == x;
        match tool {
            Tool::ListMessages => {
                assert(names[2] == x);
            },
            Tool::SendMessage => {
                assert(names[3] == x || names[1] == x);
            },
            Tool::IngestBatch => {
                assert(names[0] == x);
            },
            _ => {},
        }
    }
    if optional.contains(x) {
        let i = choose|i: int| 0 <= i < optional.len() && optional[i] == x;
        match tool {
            Tool::ListThreads | Tool::ListContacts => {
                assert(names[0] == x || names[1] == x);
            },
            Tool::ListMessages => {
                assert(names[0] == x || names[1] == x);
            },
            Tool::SendMessage => {
                assert(names[0] == x || names[2] == x);
            },
            Tool::AuditQuery => {
                assert(names[i] == x);
            },
            Tool::IngestBatch => {},
        }
    }
}

/// An attachment is described as inline or as stored: bytes with a type and perhaps a name, or the
/// ID under which they are stored.
pub proof fn law_attachments_are_inline_or_stored()
    ensures
        ({
            let inline = inline_schema()->Object_0;
            let stored = stored_schema()->Object_0;
            let items = attachments_schema()->Object_0[0].1->Object_0;
            &&& attachments_schema() is Object && attachments_schema()->Object_0[0].0 == "items"@
            &&& attachments_schema()->Object_0[1] == ("type"@, JsonView::Text("array"@))
            &&& items[0] == (
                "oneOf"@,
                JsonView::Array(seq![inline_schema(), stored_schema()]),
            )
            &&& inline[1].1->Object_0.len() == 3 && inline[1].1->Object_0[0].0 == "data_base64"@
            &&& inline[1].1->Object_0[1].0 == "filename"@ && inline[1].1->Object_0[2].0
                == "mime_type"@
            &&& inline[2].1->Array_0 == seq![
                JsonView::Text("mime_type"@),
                JsonView::Text("data_base64"@),
            ]
            &&& stored[1].1->Object_0.len() == 1 && stored[1].1->Object_0[0].0 == "stored_id"@
            &&& stored[2].1->Array_0 == seq![JsonView::Text("stored_id"@)]
        }),
{
    let f = |text: Seq<char>| JsonView::Text(text);
    assert(seq!["mime_type"@, "data_base64"@].map_values(f) =~= seq![
        JsonView::Text("mime_type"@),
        JsonView::Text("data_base64"@),
    ]);
    assert(seq!["stored_id"@].map_values(f) =~= seq![JsonView::Text("stored_id"@)]);
}

/// A tool is listed under its name, with the schema of its arguments.
pub proof fn law_tools_are_listed_with_their_arguments(tool: Tool)
    ensures
        tool_view(tool) matches JsonView::Object(members) && members.len() == 2 && members[0] == (
            "inputSchema"@,
            arguments_schema(tool),
        ) && members[1] == ("name"@, JsonView::Text(tool.wire_name())),
{
}

/// A limit is an integer, a batch an object, and attachments are described as such; any other
/// argument is a text.
pub proof fn law_arguments_have_their_types(tool: Tool, i: int)
    requires
        0 <= i < arguments_schema(tool)->Object_0[1].1->Object_0.len(),
    ensures
        ({
            let (name, schema) = arguments_schema(tool)->Object_0[1].1->Object_0[i];
            &&& name == "limit"@ ==> schema == JsonView::Object(
                seq![("type"@, JsonView::Text("integer"@))],
            )
            &&& name == "batch"@ ==> schema == JsonView::Object(
                seq![("type"@, JsonView::Text("object"@))],
            )
            &&& name == "attachments"@ ==> schema == attachments_schema()
            &&& name != "limit"@ && name != "batch"@ && name != "attachments"@ ==> schema
                == JsonView::Object(seq![("type"@, JsonView::Text("string"@))])
        }),
{
    reveal_strlit("limit");
    reveal_strlit("batch");
    reveal_strlit("attachments");
    reveal_strlit("cursor");
    reveal_strlit("before");
    reveal_strlit("thread_id");
    reveal_strlit("body");
    reveal_strlit("provider");
    reveal_strlit("action");
    reveal_strlit("since");
    reveal_strlit("source_id");
    reveal_strlit("until");
    assert("limit"@[0] == 'l' && "batch"@[0] == 'b' && "since"@[0] == 's' && "until"@[0] == 'u');
    assert("limit"@.len() == 5 && "batch"@.len() == 5 && "since"@.len() == 5);
    assert("until"@.len() == 5 && "attachments"@.len() == 11 && "cursor"@.len() == 6);
    assert("before"@.len() == 6 && "thread_id"@.len() == 9 && "body"@.len() == 4);
    assert("provider"@.len() == 8 && "action"@.len() == 6 && "source_id"@.len() == 9);
    let members = arguments_schema(tool)->Object_0[1].1->Object_0;
    match tool {
        Tool::ListThreads | Tool::ListContacts => {
            assert(members[i] == members[0] || members[i] == members[1]);
        },
        Tool::ListMessages => {
            assert(members[i] == members[0] || members[i] == members[1] || members[i]
                == members[2]);
        },
        Tool::SendMessage => {
            assert(members[i] == members[0] || members[i] == members[1] || members[i] == members[2]
                || members[i] == members[3]);
        },
        Tool::AuditQuery => {
            assert(members[i] == members[0] || members[i] == members[1] || members[i] == members[2]
                || members[i] == members[3] || members[i] == members[4] || members[i]
                == members[5]);
        },
        Tool::IngestBatch => {
            assert(members[i] == members[0]);
        },
    }
}

} // verus!
