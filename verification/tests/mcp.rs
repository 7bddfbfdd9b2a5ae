use hawktui::agent::mcp::{argument_key, registry_answer, run_catalog_tool, select_tool, tool_by_name, McpTool, ToolError};
use hawktui::ontology::api::{ApiFn, ApiKind, ApiType};

const NO_VARIANTS: &[&str] = &[];
const GAUGE_FNS: &[ApiFn] = &[ApiFn {
    name: "percent",
    signature: "pub fn percent(self, percent: u16) -> Self",
    role: "builder",
    summary: "",
}];
const CATALOG: &[ApiType] = &[ApiType {
    name: "Gauge",
    module: "hawktui::widget::gauge",
    kind: ApiKind::Widget,
    summary: "A progress bar.",
    variants: NO_VARIANTS,
    functions: GAUGE_FNS,
}];

fn tool_message(r: Result<(McpTool, Option<String>), ToolError>) -> String {
    match r {
        Err(ToolError::Tool(m)) => m,
        other => panic!("expected a tool error, got {other:?}"),
    }
}

#[test]
fn tools_are_found_by_their_names() {
    assert_eq!(tool_by_name("get_widget_schema"), Some(McpTool::GetWidgetSchema));
    assert_eq!(tool_by_name("inject_event"), Some(McpTool::InjectEvent));
    assert_eq!(tool_by_name("nope"), None);
    assert_eq!(argument_key(McpTool::SearchWidgets), Some("query"));
    assert_eq!(argument_key(McpTool::ListWidgets), None);
}

#[test]
fn an_unknown_tool_is_a_tool_error() {
    assert_eq!(tool_message(select_tool("frobnicate", None, false)), "unknown tool \"frobnicate\"");
}

#[test]
fn a_runtime_tool_without_a_runtime_is_a_tool_error() {
    let m = tool_message(select_tool("get_tree", None, false));
    assert!(m.starts_with("get_tree needs a running application"), "{m}");
    assert!(matches!(select_tool("get_tree", None, true), Ok((McpTool::GetTree, None))));
}

#[test]
fn a_missing_argument_is_invalid_params() {
    match select_tool("search_widgets", None, false) {
        Err(ToolError::InvalidParams(m)) => assert_eq!(m, "search_widgets requires a string \"query\""),
        other => panic!("{other:?}"),
    }
    match select_tool("search_widgets", Some("scroll"), false) {
        Ok((McpTool::SearchWidgets, Some(q))) => assert_eq!(q, "scroll"),
        other => panic!("{other:?}"),
    }
}

#[test]
fn catalog_tools_answer_or_report_what_is_missing() {
    match run_catalog_tool(McpTool::WidgetApi, Some("Nope"), CATALOG, &[]) {
        Some(Err(ToolError::Tool(m))) => assert_eq!(m, "unknown type \"Nope\"; try api_search"),
        other => panic!("{other:?}"),
    }
    match run_catalog_tool(McpTool::ApiSearch, Some("zzzznope"), CATALOG, &[]) {
        Some(Err(ToolError::Tool(m))) => assert_eq!(m, "nothing matches \"zzzznope\""),
        other => panic!("{other:?}"),
    }
    match run_catalog_tool(McpTool::ApiSearch, Some("progress"), CATALOG, &[]) {
        Some(Ok(text)) => assert!(text.starts_with("Gauge"), "{text}"),
        other => panic!("{other:?}"),
    }
    assert!(run_catalog_tool(McpTool::ListWidgets, None, CATALOG, &[]).is_none());
}

#[test]
fn registry_answers_turn_empty_and_missing_reports_into_tool_errors() {
    match registry_answer(McpTool::SearchWidgets, Some(String::new()), Some("zzzznope")) {
        Err(ToolError::Tool(m)) => assert_eq!(m, "no widget matches \"zzzznope\"; try list_widgets"),
        other => panic!("{other:?}"),
    }
    match registry_answer(McpTool::GetWidgetSchema, None, Some("Nope")) {
        Err(ToolError::Tool(m)) => assert_eq!(m, "unknown widget \"Nope\"; try list_widgets"),
        other => panic!("{other:?}"),
    }
    assert_eq!(registry_answer(McpTool::ListWidgets, Some("a\n".to_string()), None).unwrap(), "a\n");
}
