//! Tool selection for the Model Context Protocol server.
//!
//! The server exposes the widget catalog, and a running application when
//! one is attached, as MCP tools. Which tool a call names, whether it may
//! run, the argument it takes and the answers drawn from the authoring
//! catalog are decided here; the JSON-RPC framing and the reports over the
//! widget registry are the server's own.
use vstd::prelude::*;
use crate::base::chars::{str_eq, string_push_str};
use crate::ontology::api::{first_named, matching_types, ApiType};
use crate::ontology::report::{skeleton, SKELETON, api, api_search, api_text, prelude, sort_types, stateful, type_lines, item_lines};
use crate::ontology::api::stateful_pairs;
use crate::ontology::report::pair_lines;
use crate::base::chars::lowercase;
use crate::testing::{debug_quoted, debug_str};

verus! {

/// The tools the server knows, catalog tools first, then those that need a
/// running application.
#[derive(Clone, Copy, Debug, PartialEq, Eq, Structural)]
pub enum McpTool {
    ListWidgets,
    GetWidgetSchema,
    SearchWidgets,
    WidgetRoles,
    ProgramSkeleton,
    Prelude,
    WidgetApi,
    ApiSearch,
    StatefulWidgets,
    OntologyDigest,
    GetTree,
    GetState,
    ExecuteAction,
    InjectEvent,
}

/// Why a tool call cannot be answered.
#[derive(Debug)]
pub enum ToolError {
    /// The request was malformed: a protocol-level error.
    InvalidParams(String),
    /// The tool ran and could not answer: reported to the model as content.
    Tool(String),
}

/// What follows a runtime tool's name when no application is attached.
pub const NEEDS_RUNTIME: &'static str = " needs a running application; this server was started                      without one and serves the widget catalog only";

/// The name a tool is called by.
pub open spec fn tool_name(t: McpTool) -> Seq<char> {
    match t {
        McpTool::ListWidgets => "list_widgets"@,
        McpTool::GetWidgetSchema => "get_widget_schema"@,
        McpTool::SearchWidgets => "search_widgets"@,
        McpTool::WidgetRoles => "widget_roles"@,
        McpTool::ProgramSkeleton => "program_skeleton"@,
        McpTool::Prelude => "prelude"@,
        McpTool::WidgetApi => "widget_api"@,
        McpTool::ApiSearch => "api_search"@,
        McpTool::StatefulWidgets => "stateful_widgets"@,
        McpTool::OntologyDigest => "ontology_digest"@,
        McpTool::GetTree => "get_tree"@,
        McpTool::GetState => "get_state"@,
        McpTool::ExecuteAction => "execute_action"@,
        McpTool::InjectEvent => "inject_event"@,
    }
}

/// Whether a tool needs a running application.
pub open spec fn needs_runtime(t: McpTool) -> bool {
    t is GetTree || t is GetState || t is ExecuteAction || t is InjectEvent
}

/// The name of the one string argument a catalog tool requires, if any.
pub open spec fn argument_key_of(t: McpTool) -> Option<Seq<char>> {
    match t {
        McpTool::GetWidgetSchema | McpTool::WidgetApi => Some("name"@),
        McpTool::SearchWidgets | McpTool::ApiSearch => Some("query"@),
        _ => None,
    }
}

/// The tool called `name`, if there is one.
pub open spec fn named_tool(name: Seq<char>) -> Option<McpTool> {
    if name == "list_widgets"@ {
        Some(McpTool::ListWidgets)
    }     else if name == "get_widget_schema"@ {
        Some(McpTool::GetWidgetSchema)
    }     else if name == "search_widgets"@ {
        Some(McpTool::SearchWidgets)
    }     else if name == "widget_roles"@ {
        Some(McpTool::WidgetRoles)
    }     else if name == "program_skeleton"@ {
        Some(McpTool::ProgramSkeleton)
    }     else if name == "prelude"@ {
        Some(McpTool::Prelude)
    }     else if name == "widget_api"@ {
        Some(McpTool::WidgetApi)
    }     else if name == "api_search"@ {
        Some(McpTool::ApiSearch)
    }     else if name == "stateful_widgets"@ {
        Some(McpTool::StatefulWidgets)
    }     else if name == "ontology_digest"@ {
        Some(McpTool::OntologyDigest)
    }     else if name == "get_tree"@ {
        Some(McpTool::GetTree)
    }     else if name == "get_state"@ {
        Some(McpTool::GetState)
    }     else if name == "execute_action"@ {
        Some(McpTool::ExecuteAction)
    }     else if name == "inject_event"@ {
        Some(McpTool::InjectEvent)
    } else {
        None
    }
}

/// The tool called `name`, if there is one.
pub fn tool_by_name(name: &str) -> (r: Option<McpTool>)
    ensures
        r == named_tool(name@),
{
    if str_eq(name, "list_widgets") {
        return Some(McpTool::ListWidgets);
    }
    if str_eq(name, "get_widget_schema") {
        return Some(McpTool::GetWidgetSchema);
    }
    if str_eq(name, "search_widgets") {
        return Some(McpTool::SearchWidgets);
    }
    if str_eq(name, "widget_roles") {
        return Some(McpTool::WidgetRoles);
    }
    if str_eq(name, "program_skeleton") {
        return Some(McpTool::ProgramSkeleton);
    }
    if str_eq(name, "prelude") {
        return Some(McpTool::Prelude);
    }
    if str_eq(name, "widget_api") {
        return Some(McpTool::WidgetApi);
    }
    if str_eq(name, "api_search") {
        return Some(McpTool::ApiSearch);
    }
    if str_eq(name, "stateful_widgets") {
        return Some(McpTool::StatefulWidgets);
    }
    if str_eq(name, "ontology_digest") {
        return Some(McpTool::OntologyDigest);
    }
    if str_eq(name, "get_tree") {
        return Some(McpTool::GetTree);
    }
    if str_eq(name, "get_state") {
        return Some(McpTool::GetState);
    }
    if str_eq(name, "execute_action") {
        return Some(McpTool::ExecuteAction);
    }
    if str_eq(name, "inject_event") {
        return Some(McpTool::InjectEvent);
    }
    None
}

/// The name of the one string argument `tool` requires, if it takes one.
pub fn argument_key(tool: McpTool) -> (r: Option<&'static str>)
    ensures
        match r {
            Some(k) => argument_key_of(tool) == Some(k@),
            None => argument_key_of(tool) is None,
        },
{
    match tool {
        McpTool::GetWidgetSchema | McpTool::WidgetApi => Some("name"),
        McpTool::SearchWidgets | McpTool::ApiSearch => Some("query"),
        _ => None,
    }
}

/// The error for a call naming no tool.
pub open spec fn unknown_tool_text(name: Seq<char>) -> Seq<char> {
    "unknown tool "@ + debug_quoted(name)
}

/// The error for a missing argument.
pub open spec fn missing_argument_text(name: Seq<char>, key: Seq<char>) -> Seq<char> {
    name + " requires a string "@ + debug_quoted(key)
}

/// Decide what a call of the tool `name` runs: the tool and its argument,
/// where it takes one. A name that is no tool is a tool error; a runtime
/// tool without an attached application is a tool error; a catalog tool
/// whose required argument is missing is a protocol error.
pub fn select_tool(name: &str, argument: Option<&str>, has_runtime: bool) -> (r: Result<(McpTool, Option<String>), ToolError>)
    ensures
        match named_tool(name@) {
            None => r matches Err(ToolError::Tool(m)) && m@ == unknown_tool_text(name@),
            Some(t) => if needs_runtime(t) {
                if has_runtime {
                    r matches Ok((u, None)) && u == t
                } else {
                    r matches Err(ToolError::Tool(m)) && m@ == name@ + NEEDS_RUNTIME@
                }
            } else {
                match argument_key_of(t) {
                    None => r matches Ok((u, None)) && u == t,
                    Some(k) => match argument {
                        None => r matches Err(ToolError::InvalidParams(m)) && m@ == missing_argument_text(name@, k),
                        Some(a) => r matches Ok((u, Some(s))) && u == t && s@ == a@,
                    },
                }
            },
        },
{
    let tool = match tool_by_name(name) {
        Some(t) => t,
        None => {
            let mut m = String::new();
            string_push_str(&mut m, "unknown tool ");
            let q = debug_str(name);
            string_push_str(&mut m, q.as_str());
            return Err(ToolError::Tool(m));
        },
    };
    let runtime = match tool {
        McpTool::GetTree | McpTool::GetState | McpTool::ExecuteAction | McpTool::InjectEvent => true,
        _ => false,
    };
    if runtime {
        if has_runtime {
            return Ok((tool, None));
        }
        let mut m = String::new();
        string_push_str(&mut m, name);
        string_push_str(&mut m, NEEDS_RUNTIME);
        return Err(ToolError::Tool(m));
    }
    match argument_key(tool) {
        None => Ok((tool, None)),
        Some(key) => match argument {
            None => {
                let mut m = String::new();
                string_push_str(&mut m, name);
                string_push_str(&mut m, " requires a string ");
                let q = debug_str(key);
                string_push_str(&mut m, q.as_str());
                Err(ToolError::InvalidParams(m))
            },
            Some(a) => {
                let mut s = String::new();
                string_push_str(&mut s, a);
                Ok((tool, Some(s)))
            },
        },
    }
}

/// The catalog tools answered from the authoring catalog alone.
pub open spec fn answers_from_catalog(t: McpTool) -> bool {
    t is WidgetApi || t is ApiSearch || t is StatefulWidgets || t is Prelude || t is ProgramSkeleton
}

/// Run a tool answered from the authoring catalog or the program skeleton:
/// `None` for the tools answered from the widget registry or a running
/// application. An unknown type and a search that finds nothing are tool
/// errors.
pub fn run_catalog_tool(tool: McpTool, argument: Option<&str>, catalog: &[ApiType], prelude_items: &[&str]) -> (r: Option<Result<String, ToolError>>)
    requires
        argument_key_of(tool) is Some ==> argument is Some,
    ensures
        r is Some <==> answers_from_catalog(tool),
        tool is ProgramSkeleton ==> (r matches Some(Ok(s)) && s@ == SKELETON@),
        tool is StatefulWidgets ==> (r matches Some(Ok(s)) && s@ == "widget -> state type (render_stateful_widget)\n"@ + pair_lines(stateful_pairs(catalog@))),
        tool is Prelude ==> (r matches Some(Ok(s)) && s@ == "use hawktui::prelude::*; brings these into scope.\n         Program, Model, Command and ProgramOptions are NOT included; import          them from hawktui::runtime.\n\n"@ + item_lines(prelude_items@)),
        tool is WidgetApi ==> match first_named(catalog@, argument->0@) {
            Some(i) => r matches Some(Ok(s)) && s@ == api_text(catalog@[i]),
            None => r matches Some(Err(ToolError::Tool(m))) && m@ == "unknown type "@ + debug_quoted(argument->0@) + "; try api_search"@,
        },
        tool is ApiSearch ==> {
            let text = type_lines(sort_types(matching_types(catalog@, lowercase(argument->0@))));
            if text.len() == 0 {
                r matches Some(Err(ToolError::Tool(m))) && m@ == "nothing matches "@ + debug_quoted(argument->0@)
            } else {
                r matches Some(Ok(s)) && s@ == text
            }
        },
{
    match tool {
        McpTool::StatefulWidgets => Some(Ok(stateful(catalog))),
        McpTool::ProgramSkeleton => Some(Ok(skeleton())),
        McpTool::Prelude => Some(Ok(prelude(prelude_items))),
        McpTool::WidgetApi => {
            let name = match argument {
                Some(a) => a,
                None => return None,
            };
            match api(catalog, name) {
                Some(text) => Some(Ok(text)),
                None => {
                    let mut m = String::new();
                    string_push_str(&mut m, "unknown type ");
                    let q = debug_str(name);
                    string_push_str(&mut m, q.as_str());
                    string_push_str(&mut m, "; try api_search");
                    Some(Err(ToolError::Tool(m)))
                },
            }
        },
        McpTool::ApiSearch => {
            let query = match argument {
                Some(a) => a,
                None => return None,
            };
            let hits = api_search(catalog, query);
            if hits.as_str().is_empty() {
                let mut m = String::new();
                string_push_str(&mut m, "nothing matches ");
                let q = debug_str(query);
                string_push_str(&mut m, q.as_str());
                Some(Err(ToolError::Tool(m)))
            } else {
                Some(Ok(hits))
            }
        },
        _ => None,
    }
}

/// The answer of a tool served from the widget registry, given the report
/// it produced (`None` only for a schema request naming no widget): an unknown widget, and a widget search that finds nothing, are
/// tool errors; any other report is the answer.
pub fn registry_answer(tool: McpTool, report: Option<String>, argument: Option<&str>) -> (r: Result<String, ToolError>)
    requires
        argument_key_of(tool) is Some ==> argument is Some,
        report is None ==> tool is GetWidgetSchema,
    ensures
        match report {
            None => r matches Err(ToolError::Tool(m)) && m@ == "unknown widget "@ + debug_quoted(argument->0@)
                + "; try list_widgets"@,
            Some(text) => if tool is SearchWidgets && text@.len() == 0 {
                r matches Err(ToolError::Tool(m)) && m@ == "no widget matches "@ + debug_quoted(argument->0@) + "; try list_widgets"@
            } else {
                r matches Ok(s) && s@ == text@
            },
        },
{
    match report {
        None => {
            let mut m = String::new();
            string_push_str(&mut m, "unknown widget ");
            let q = match argument {
                Some(a) => debug_str(a),
                None => debug_str(""),
            };
            string_push_str(&mut m, q.as_str());
            string_push_str(&mut m, "; try list_widgets");
            Err(ToolError::Tool(m))
        },
        Some(text) => {
            let search = match tool {
                McpTool::SearchWidgets => true,
                _ => false,
            };
            if search && text.as_str().is_empty() {
                let mut m = String::new();
                string_push_str(&mut m, "no widget matches ");
                let q = match argument {
                    Some(a) => debug_str(a),
                    None => debug_str(""),
                };
                string_push_str(&mut m, q.as_str());
                string_push_str(&mut m, "; try list_widgets");
                Err(ToolError::Tool(m))
            } else {
                Ok(text)
            }
        },
    }
}

} // verus!
