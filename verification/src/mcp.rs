//! MCP over JSON-RPC 2.0: responses, method and tool routing, and the tool
//! catalogue.
use vstd::prelude::*;

use crate::text::{push_str, str_is, string_from};

verus! {

#[verifier::external_type_specification]
#[verifier::external_body]
pub struct ExJsonValue(serde_json::Value);

/// A JSON-RPC 2.0 request.
pub struct JsonRpcRequest {
    pub jsonrpc: String,
    pub id: Option<serde_json::Value>,
    pub method: String,
    pub params: serde_json::Value,
}

/// A JSON-RPC 2.0 response: a result or an error.
pub struct JsonRpcResponse {
    pub jsonrpc: String,
    pub id: Option<serde_json::Value>,
    pub result: Option<serde_json::Value>,
    pub error: Option<JsonRpcError>,
}

/// A JSON-RPC 2.0 error.
pub struct JsonRpcError {
    pub code: i32,
    pub message: String,
    pub data: Option<serde_json::Value>,
}

/// The code of an unknown method.
pub const METHOD_NOT_FOUND: i32 = -32601;

/// The code of a call without a tool name.
pub const INVALID_PARAMS: i32 = -32602;

/// The code of a tool call that failed.
pub const TOOL_ERROR: i32 = -32000;

/// The MCP protocol version this server speaks.
pub fn protocol_version() -> (r: String)
    ensures
        r@ == "2024-11-05"@,
{
    string_from("2024-11-05")
}

/// The name this server reports.
pub fn server_name() -> (r: String)
    ensures
        r@ == "ld-notion-mcp"@,
{
    string_from("ld-notion-mcp")
}

impl JsonRpcResponse {
    /// A response carrying `result`.
    pub fn success(id: Option<serde_json::Value>, result: serde_json::Value) -> (r: Self)
        ensures
            r.jsonrpc@ == "2.0"@,
            r.id == id,
            r.result == Some(result),
            r.error is None,
    {
        Self { jsonrpc: string_from("2.0"), id, result: Some(result), error: None }
    }

    /// A response carrying an error with `code` and `message`.
    pub fn error(id: Option<serde_json::Value>, code: i32, message: &str) -> (r: Self)
        ensures
            r.jsonrpc@ == "2.0"@,
            r.id == id,
            r.result is None,
            r.error matches Some(e) && e.code == code && e.message@ == message@ && e.data is None,
    {
        Self {
            jsonrpc: string_from("2.0"),
            id,
            result: None,
            error: Some(JsonRpcError { code, message: string_from(message), data: None }),
        }
    }
}

/// What a JSON-RPC method asks for.
pub enum McpMethod {
    Initialize,
    Initialized,
    ToolsList,
    ToolsCall,
    Unknown,
}

pub open spec fn method_of(method: Seq<char>) -> McpMethod {
    if method == "initialize"@ {
        McpMethod::Initialize
    } else if method == "notifications/initialized"@ {
        McpMethod::Initialized
    } else if method == "tools/list"@ {
        McpMethod::ToolsList
    } else if method == "tools/call"@ {
        McpMethod::ToolsCall
    } else {
        McpMethod::Unknown
    }
}

fn is(s: &str, lit: &str) -> (r: bool)
    ensures
        r == (s@ == lit@),
{
    let v = crate::text::to_chars(lit);
    str_is(s, v.as_slice())
}

/// The handling a method name selects.
pub fn route_method(method: &str) -> (r: McpMethod)
    ensures
        r == method_of(method@),
{
    if is(method, "initialize") {
        McpMethod::Initialize
    } else if is(method, "notifications/initialized") {
        McpMethod::Initialized
    } else if is(method, "tools/list") {
        McpMethod::ToolsList
    } else if is(method, "tools/call") {
        McpMethod::ToolsCall
    } else {
        McpMethod::Unknown
    }
}

/// The tools this server offers.
pub enum Tool {
    PageList,
    PageRead,
    PageCreate,
    PageUpdate,
    PageDelete,
    Search,
}

pub open spec fn tool_of(name: Seq<char>) -> Option<Tool> {
    if name == "page/list"@ {
        Some(Tool::PageList)
    } else if name == "page/read"@ {
        Some(Tool::PageRead)
    } else if name == "page/create"@ {
        Some(Tool::PageCreate)
    } else if name == "page/update"@ {
        Some(Tool::PageUpdate)
    } else if name == "page/delete"@ {
        Some(Tool::PageDelete)
    } else if name == "search"@ {
        Some(Tool::Search)
    } else {
        None
    }
}

/// The tool a `tools/call` names, if it is one of ours.
pub fn tool_named(name: &str) -> (r: Option<Tool>)
    ensures
        r == tool_of(name@),
{
    if is(name, "page/list") {
        Some(Tool::PageList)
    } else if is(name, "page/read") {
        Some(Tool::PageRead)
    } else if is(name, "page/create") {
        Some(Tool::PageCreate)
    } else if is(name, "page/update") {
        Some(Tool::PageUpdate)
    } else if is(name, "page/delete") {
        Some(Tool::PageDelete)
    } else if is(name, "search") {
        Some(Tool::Search)
    } else {
        None
    }
}

/// The error of a call to a tool we do not have.
pub fn unknown_tool_message(name: &str) -> (r: String)
    ensures
        r@ == "Unknown tool: "@ + name@,
{
    let mut out = string_from("Unknown tool: ");
    push_str(&mut out, name);
    out
}

/// The error message of a request whose method the server does not know.
pub fn method_not_found() -> (r: String)
    ensures
        r@ == "Method not found"@,
{
    string_from("Method not found")
}

/// The error of a `tools/call` without a tool name.
pub fn missing_tool_name() -> (r: String)
    ensures
        r@ == "Missing tool name"@,
{
    string_from("Missing tool name")
}

/// The result limit of a search call: the given number when it fits an
/// `i32`, otherwise 20.
pub fn search_limit(limit: Option<i64>) -> (r: i32)
    ensures
        r == match limit {
            Some(n) => if i32::MIN <= n <= i32::MAX {
                n as i32
            } else {
                20
            },
            None => 20,
        },
{
    match limit {
        Some(n) => {
            if i32::MIN as i64 <= n && n <= i32::MAX as i64 {
                n as i32
            } else {
                20
            }
        },
        None => 20,
    }
}

/// One parameter of a tool's input schema.
pub struct ToolParam {
    pub name: String,
    /// The JSON type: `string` or `integer`.
    pub kind: String,
    pub description: String,
    /// The values allowed, when they are limited.
    pub choices: Vec<String>,
}

/// A tool as `tools/list` describes it.
pub struct ToolDef {
    pub name: String,
    pub description: String,
    pub params: Vec<ToolParam>,
    pub required: Vec<String>,
}

#[verifier::ext_equal]
pub struct ToolParamView {
    pub name: Seq<char>,
    pub kind: Seq<char>,
    pub description: Seq<char>,
    pub choices: Seq<Seq<char>>,
}

#[verifier::ext_equal]
pub struct ToolDefView {
    pub name: Seq<char>,
    pub description: Seq<char>,
    pub params: Seq<ToolParamView>,
    pub required: Seq<Seq<char>>,
}

impl View for ToolParam {
    type V = ToolParamView;

    open spec fn view(&self) -> ToolParamView {
        ToolParamView {
            name: self.name@,
            kind: self.kind@,
            description: self.description@,
            choices: self.choices.deep_view(),
        }
    }
}

impl View for ToolDef {
    type V = ToolDefView;

    open spec fn view(&self) -> ToolDefView {
        ToolDefView {
            name: self.name@,
            description: self.description@,
            params: self.params@.map_values(|p: ToolParam| p@),
            required: self.required.deep_view(),
        }
    }
}

pub open spec fn string_param(name: Seq<char>, description: Seq<char>) -> ToolParamView {
    ToolParamView { name, kind: "string"@, description, choices: Seq::empty() }
}

/// The tools `tools/list` reports, in order.
pub open spec fn tool_catalog() -> Seq<ToolDefView> {
    seq![
        ToolDefView {
            name: "page/list"@,
            description: "列出工作区下的页面树结构"@,
            params: seq![string_param("workspace_id"@, "工作区 ID"@)],
            required: seq!["workspace_id"@],
        },
        ToolDefView {
            name: "page/read"@,
            description: "读取页面内容（Markdown + frontmatter 元数据）"@,
            params: seq![string_param("page_id"@, "页面 ID"@)],
            required: seq!["page_id"@],
        },
        ToolDefView {
            name: "page/create"@,
            description: "在工作区中创建新页面"@,
            params: seq![
                string_param("workspace_id"@, "工作区 ID"@),
                string_param("title"@, "页面标题"@),
                string_param("parent_id"@, "父页面 ID（可选）"@),
                string_param("body"@, "页面内容（Markdown，可选）"@),
            ],
            required: seq!["workspace_id"@, "title"@],
        },
        ToolDefView {
            name: "page/update"@,
            description: "更新页面内容"@,
            params: seq![
                string_param("page_id"@, "页面 ID"@),
                string_param("body"@, "新的页面内容（Markdown）"@),
            ],
            required: seq!["page_id"@, "body"@],
        },
        ToolDefView {
            name: "page/delete"@,
            description: "删除页面（级联删除子页面）"@,
            params: seq![string_param("page_id"@, "页面 ID"@)],
            required: seq!["page_id"@],
        },
        ToolDefView {
            name: "search"@,
            description: "全文搜索知识库内容"@,
            params: seq![
                string_param("query"@, "搜索关键词"@),
                ToolParamView {
                    name: "mode"@,
                    kind: "string"@,
                    description: "搜索模式"@,
                    choices: seq!["and"@, "or"@],
                },
                ToolParamView {
                    name: "limit"@,
                    kind: "integer"@,
                    description: "结果数量限制"@,
                    choices: Seq::empty(),
                },
            ],
            required: seq!["query"@],
        },
    ]
}

fn string_list1(a: &str) -> (r: Vec<String>)
    ensures
        r.deep_view() == seq![a@],
{
    let mut v = Vec::new();
    v.push(string_from(a));
    assert(v.deep_view() =~= seq![a@]);
    v
}

fn string_list2(a: &str, b: &str) -> (r: Vec<String>)
    ensures
        r.deep_view() == seq![a@, b@],
{
    let mut v = Vec::new();
    v.push(string_from(a));
    v.push(string_from(b));
    assert(v.deep_view() =~= seq![a@, b@]);
    v
}

fn param(name: &str, kind: &str, description: &str, choices: Vec<String>) -> (r: ToolParam)
    ensures
        r@ == (ToolParamView {
            name: name@,
            kind: kind@,
            description: description@,
            choices: choices.deep_view(),
        }),
{
    ToolParam {
        name: string_from(name),
        kind: string_from(kind),
        description: string_from(description),
        choices,
    }
}

fn text_param(name: &str, description: &str) -> (r: ToolParam)
    ensures
        r@ == string_param(name@, description@),
{
    let none: Vec<String> = Vec::new();
    assert(none.deep_view() =~= Seq::<Seq<char>>::empty());
    param(name, "string", description, none)
}

fn tool(name: &str, description: &str, params: Vec<ToolParam>, required: Vec<String>) -> (r: ToolDef)
    ensures
        r@ == (ToolDefView {
            name: name@,
            description: description@,
            params: params@.map_values(|p: ToolParam| p@),
            required: required.deep_view(),
        }),
{
    ToolDef { name: string_from(name), description: string_from(description), params, required }
}

fn params1(a: ToolParam) -> (r: Vec<ToolParam>)
    ensures
        r@.map_values(|p: ToolParam| p@) == seq![a@],
{
    let mut v = Vec::new();
    v.push(a);
    assert(v@.map_values(|p: ToolParam| p@) =~= seq![a@]);
    v
}

fn params2(a: ToolParam, b: ToolParam) -> (r: Vec<ToolParam>)
    ensures
        r@.map_values(|p: ToolParam| p@) == seq![a@, b@],
{
    let ghost va = a@;
    let ghost vb = b@;
    let mut v = Vec::new();
    v.push(a);
    v.push(b);
    assert(v@.map_values(|p: ToolParam| p@) =~= seq![va, vb]);
    v
}

fn params3(a: ToolParam, b: ToolParam, c: ToolParam) -> (r: Vec<ToolParam>)
    ensures
        r@.map_values(|p: ToolParam| p@) == seq![a@, b@, c@],
{
    let ghost va = a@;
    let ghost vb = b@;
    let ghost vc = c@;
    let mut v = Vec::new();
    v.push(a);
    v.push(b);
    v.push(c);
    assert(v@.map_values(|p: ToolParam| p@) =~= seq![va, vb, vc]);
    v
}

fn params4(a: ToolParam, b: ToolParam, c: ToolParam, d: ToolParam) -> (r: Vec<ToolParam>)
    ensures
        r@.map_values(|p: ToolParam| p@) == seq![a@, b@, c@, d@],
{
    let ghost va = a@;
    let ghost vb = b@;
    let ghost vc = c@;
    let ghost vd = d@;
    let mut v = Vec::new();
    v.push(a);
    v.push(b);
    v.push(c);
    v.push(d);
    assert(v@.map_values(|p: ToolParam| p@) =~= seq![va, vb, vc, vd]);
    v
}

/// The tool catalogue that `tools/list` reports.
pub fn get_tools() -> (r: Vec<ToolDef>)
    ensures
        r@.map_values(|d: ToolDef| d@) == tool_catalog(),
{
    let list = tool(
        "page/list",
        "列出工作区下的页面树结构",
        params1(text_param("workspace_id", "工作区 ID")),
        string_list1("workspace_id"),
    );
    let read = tool(
        "page/read",
        "读取页面内容（Markdown + frontmatter 元数据）",
        params1(text_param("page_id", "页面 ID")),
        string_list1("page_id"),
    );
    let create = tool(
        "page/create",
        "在工作区中创建新页面",
        params4(
            text_param("workspace_id", "工作区 ID"),
            text_param("title", "页面标题"),
            text_param("parent_id", "父页面 ID（可选）"),
            text_param("body", "页面内容（Markdown，可选）"),
        ),
        string_list2("workspace_id", "title"),
    );
    let update = tool(
        "page/update",
        "更新页面内容",
        params2(text_param("page_id", "页面 ID"), text_param("body", "新的页面内容（Markdown）")),
        string_list2("page_id", "body"),
    );
    let delete = tool(
        "page/delete",
        "删除页面（级联删除子页面）",
        params1(text_param("page_id", "页面 ID")),
        string_list1("page_id"),
    );
    let none: Vec<String> = Vec::new();
    assert(none.deep_view() =~= Seq::<Seq<char>>::empty());
    let search = tool(
        "search",
        "全文搜索知识库内容",
        params3(
            text_param("query", "搜索关键词"),
            param("mode", "string", "搜索模式", string_list2("and", "or")),
            param("limit", "integer", "结果数量限制", none),
        ),
        string_list1("query"),
    );
    let ghost views = seq![list@, read@, create@, update@, delete@, search@];
    let mut out = Vec::new();
    out.push(list);
    out.push(read);
    out.push(create);
    out.push(update);
    out.push(delete);
    out.push(search);
    assert(out@.map_values(|d: ToolDef| d@) =~= views);
    assert(views =~= tool_catalog());
    out
}

/// The arguments a call of each tool cannot do without: the tool's handler
/// answers `Missing <argument>` when one of them is absent.
pub open spec fn needed_arguments(t: Tool) -> Seq<Seq<char>> {
    match t {
        Tool::PageList => seq!["workspace_id"@],
        Tool::PageRead => seq!["page_id"@],
        Tool::PageCreate => seq!["workspace_id"@, "title"@],
        Tool::PageUpdate => seq!["page_id"@, "body"@],
        Tool::PageDelete => seq!["page_id"@],
        Tool::Search => seq!["query"@],
    }
}

/// The names of a tool's parameters.
pub open spec fn param_names(d: ToolDefView) -> Seq<Seq<char>> {
    d.params.map_values(|p: ToolParamView| p.name)
}

/// Law: `tools/list` describes each tool under a name that `tools/call`
/// routes to it, and lists as required, and among the parameters, every
/// argument that the tool's call cannot do without.
pub proof fn lemma_catalog_requires_needed_arguments()
    ensures
        forall|j: int| 0 <= j < tool_catalog().len() ==> #[trigger] tool_of(tool_catalog()[j].name) is Some,
        forall|j: int, k: int|
            0 <= j < tool_catalog().len() && 0 <= k < needed_arguments(tool_of(tool_catalog()[j].name)->0).len()
                ==> tool_catalog()[j].required.contains(
                #[trigger] needed_arguments(tool_of(tool_catalog()[j].name)->0)[k],
            ) && param_names(tool_catalog()[j]).contains(needed_arguments(tool_of(tool_catalog()[j].name)->0)[k]),
{
    reveal_strlit("page/list");
    reveal_strlit("page/read");
    reveal_strlit("page/create");
    reveal_strlit("page/update");
    reveal_strlit("page/delete");
    reveal_strlit("search");
    assert("page/read"@[5] != "page/list"@[5]);
    assert("page/update"@[5] != "page/create"@[5]);
    assert("page/delete"@[5] != "page/create"@[5]);
    assert("page/delete"@[5] != "page/update"@[5]);
    let c = tool_catalog();
    assert(tool_of(c[0].name) == Some(Tool::PageList));
    assert(tool_of(c[1].name) == Some(Tool::PageRead));
    assert(tool_of(c[2].name) == Some(Tool::PageCreate));
    assert(tool_of(c[3].name) == Some(Tool::PageUpdate));
    assert(tool_of(c[4].name) == Some(Tool::PageDelete));
    assert(tool_of(c[5].name) == Some(Tool::Search));
    assert forall|j: int, k: int|
        0 <= j < c.len() && 0 <= k < needed_arguments(tool_of(c[j].name)->0).len() implies c[j].required.contains(
        #[trigger] needed_arguments(tool_of(c[j].name)->0)[k],
    ) && param_names(c[j]).contains(needed_arguments(tool_of(c[j].name)->0)[k]) by {
        let a = needed_arguments(tool_of(c[j].name)->0)[k];
        let ps = param_names(c[j]);
        assert(c[j].required[k] == a);
        assert(ps[k] == c[j].params[k].name);
        assert(ps[k] == a);
    }
}

} // verus!
