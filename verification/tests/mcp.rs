use ld_notion_backend::mcp::{
    get_tools, missing_tool_name, protocol_version, route_method, search_limit, server_name, tool_named,
    unknown_tool_message, JsonRpcResponse, McpMethod, Tool, INVALID_PARAMS, METHOD_NOT_FOUND, TOOL_ERROR,
};
use serde_json::Value;

#[test]
fn methods_are_routed() {
    assert!(matches!(route_method("initialize"), McpMethod::Initialize));
    assert!(matches!(route_method("notifications/initialized"), McpMethod::Initialized));
    assert!(matches!(route_method("tools/list"), McpMethod::ToolsList));
    assert!(matches!(route_method("tools/call"), McpMethod::ToolsCall));
    assert!(matches!(route_method("nonexistent/method"), McpMethod::Unknown));
    assert_eq!(METHOD_NOT_FOUND, -32601);
}

#[test]
fn tools_are_named() {
    assert!(matches!(tool_named("page/list"), Some(Tool::PageList)));
    assert!(matches!(tool_named("page/read"), Some(Tool::PageRead)));
    assert!(matches!(tool_named("page/create"), Some(Tool::PageCreate)));
    assert!(matches!(tool_named("page/update"), Some(Tool::PageUpdate)));
    assert!(matches!(tool_named("page/delete"), Some(Tool::PageDelete)));
    assert!(matches!(tool_named("search"), Some(Tool::Search)));
    assert!(tool_named("nonexistent").is_none());
    assert_eq!(unknown_tool_message("nonexistent"), "Unknown tool: nonexistent");
    assert_eq!(missing_tool_name(), "Missing tool name");
    assert_eq!(TOOL_ERROR, -32000);
    assert_eq!(INVALID_PARAMS, -32602);
}

#[test]
fn tool_catalogue() {
    let tools = get_tools();
    let names: Vec<&str> = tools.iter().map(|t| t.name.as_str()).collect();
    assert_eq!(names, vec!["page/list", "page/read", "page/create", "page/update", "page/delete", "search"]);
    assert_eq!(tools[2].required, vec!["workspace_id", "title"]);
    let search = &tools[5];
    assert_eq!(search.params.len(), 3);
    assert_eq!(search.params[1].name, "mode");
    assert_eq!(search.params[1].choices, vec!["and", "or"]);
    assert_eq!(search.params[2].kind, "integer");
    assert_eq!(search.required, vec!["query"]);
}

#[test]
fn search_limit_falls_back_to_twenty() {
    assert_eq!(search_limit(None), 20);
    assert_eq!(search_limit(Some(5)), 5);
    assert_eq!(search_limit(Some(-3)), -3);
    assert_eq!(search_limit(Some(1 << 40)), 20);
}

#[test]
fn responses_carry_result_or_error() {
    let ok = JsonRpcResponse::success(Some(Value::from(1)), Value::from("r"));
    assert_eq!(ok.jsonrpc, "2.0");
    assert_eq!(ok.id, Some(Value::from(1)));
    assert_eq!(ok.result, Some(Value::from("r")));
    assert!(ok.error.is_none());
    let err = JsonRpcResponse::error(None, -32601, "Method not found");
    assert_eq!(err.jsonrpc, "2.0");
    assert!(err.id.is_none());
    assert!(err.result.is_none());
    let e = err.error.unwrap();
    assert_eq!(e.code, -32601);
    assert_eq!(e.message, "Method not found");
    assert!(e.data.is_none());
}

#[test]
fn server_identity() {
    assert_eq!(protocol_version(), "2024-11-05");
    assert_eq!(server_name(), "ld-notion-mcp");
}
