use hawktui::ontology::api::{self, ApiFn, ApiKind, ApiType};
use hawktui::ontology::report::{api, api_search, prelude, stateful};
use hawktui::ontology::SemanticRole;
use hawktui::runtime::ProgramOptions;

const NO_FNS: &[ApiFn] = &[];
const NO_VARIANTS: &[&str] = &[];

const LIST_FNS: &[ApiFn] = &[
    ApiFn {
        name: "new",
        signature: "pub fn new(items: Vec<ListItem<'a>>) -> Self",
        role: "constructor",
        summary: "Create a list from its items.",
    },
    ApiFn {
        name: "highlight_symbol",
        signature: "pub fn highlight_symbol(self, symbol: &'a str) -> Self",
        role: "builder",
        summary: "",
    },
    ApiFn {
        name: "block",
        signature: "pub fn block(self, block: Block<'a>) -> Self",
        role: "builder",
        summary: "Wrap the list in a block.",
    },
];

const GAUGE_FNS: &[ApiFn] = &[ApiFn {
    name: "percent",
    signature: "pub fn percent(self, percent: u16) -> Self",
    role: "builder",
    summary: "",
}];

const PARAGRAPH_FNS: &[ApiFn] = &[ApiFn {
    name: "new",
    signature: "pub fn new<T>(text: T) -> Self",
    role: "constructor",
    summary: "",
}];

const CONSTRAINT_VARIANTS: &[&str] = &["Length", "Percentage", "Min", "Max", "Ratio", "Fill"];

const CATALOG: &[ApiType] = &[
    ApiType {
        name: "List",
        module: "hawktui::widget::list",
        kind: ApiKind::StatefulWidget { state: "ListState" },
        summary: "A list of selectable items.",
        variants: NO_VARIANTS,
        functions: LIST_FNS,
    },
    ApiType {
        name: "Table",
        module: "hawktui::widget::table",
        kind: ApiKind::StatefulWidget { state: "TableState" },
        summary: "",
        variants: NO_VARIANTS,
        functions: NO_FNS,
    },
    ApiType {
        name: "Editor",
        module: "hawktui::widget::editor",
        kind: ApiKind::StatefulWidget { state: "EditorState" },
        summary: "",
        variants: NO_VARIANTS,
        functions: NO_FNS,
    },
    ApiType {
        name: "Scrollbar",
        module: "hawktui::widget::scrollbar",
        kind: ApiKind::StatefulWidget { state: "ScrollbarState" },
        summary: "",
        variants: NO_VARIANTS,
        functions: NO_FNS,
    },
    ApiType {
        name: "SettingsList",
        module: "hawktui::widget::settings_list",
        kind: ApiKind::StatefulWidget { state: "SettingsListState" },
        summary: "",
        variants: NO_VARIANTS,
        functions: NO_FNS,
    },
    ApiType {
        name: "Gauge",
        module: "hawktui::widget::gauge",
        kind: ApiKind::Widget,
        summary: "",
        variants: NO_VARIANTS,
        functions: GAUGE_FNS,
    },
    ApiType {
        name: "Paragraph",
        module: "hawktui::widget::paragraph",
        kind: ApiKind::Widget,
        summary: "",
        variants: NO_VARIANTS,
        functions: PARAGRAPH_FNS,
    },
    ApiType {
        name: "Constraint",
        module: "hawktui::layout",
        kind: ApiKind::Enum,
        summary: "How much space an area takes.",
        variants: CONSTRAINT_VARIANTS,
        functions: NO_FNS,
    },
    ApiType {
        name: "Layout",
        module: "hawktui::layout",
        kind: ApiKind::Struct,
        summary: "",
        variants: NO_VARIANTS,
        functions: NO_FNS,
    },
];

#[test]
fn stateful_widgets_name_their_state() {
    let pairs = api::stateful_widgets(CATALOG);
    for expected in [
        ("List", "ListState"),
        ("Table", "TableState"),
        ("Editor", "EditorState"),
        ("Scrollbar", "ScrollbarState"),
    ] {
        assert!(pairs.contains(&expected), "missing {expected:?} in {pairs:?}");
    }
}

#[test]
fn the_layout_system_is_described() {
    let constraint = api::get(CATALOG, "Constraint").expect("Constraint is in the catalog");
    for v in ["Length", "Percentage", "Min", "Max", "Ratio", "Fill"] {
        assert!(constraint.variants.contains(&v), "missing variant {v}");
    }
    assert!(api::get(CATALOG, "Layout").is_some(), "Layout is missing");
}

#[test]
fn signatures_carry_argument_types() {
    let gauge = api::get(CATALOG, "Gauge").expect("Gauge is in the catalog");
    let percent = gauge
        .builders()
        .into_iter()
        .find(|f| f.name == "percent")
        .expect("Gauge::percent");
    assert!(percent.signature.contains("u16"), "{}", percent.signature);
}

#[test]
fn render_calls_distinguish_stateful_widgets() {
    assert_eq!(
        api::get(CATALOG, "Paragraph").and_then(|t| t.render_call()).as_deref(),
        Some("frame.render_widget(paragraph, area);")
    );
    let list = api::get(CATALOG, "List").and_then(|t| t.render_call()).unwrap();
    assert!(list.contains("render_stateful_widget"), "{list}");
    assert!(list.contains("ListState"), "{list}");
    assert!(api::get(CATALOG, "Constraint").and_then(|t| t.render_call()).is_none());
}

#[test]
fn search_finds_by_function_name() {
    assert!(api::search(CATALOG, "highlight_symbol").iter().any(|t| t.name == "List"));
}

#[test]
fn api_shows_how_to_construct_and_render() {
    let text = api(CATALOG, "List").expect("List is in the authoring catalog");
    assert!(text.contains("stateful widget (state: ListState)"), "{text}");
    assert!(text.contains("use hawktui::widget::list::List;"), "{text}");
    assert!(text.contains("constructors:"), "{text}");
    assert!(text.contains("pub fn new("), "{text}");
    assert!(text.contains("render_stateful_widget"), "{text}");
}

#[test]
fn api_covers_the_layout_system() {
    let text = api(CATALOG, "Constraint").expect("Constraint is in the catalog");
    assert!(text.contains("enum"), "{text}");
    for v in ["Length", "Percentage", "Fill"] {
        assert!(text.contains(v), "missing variant {v} in {text}");
    }
    assert!(!text.contains("render:"), "{text}");
}

#[test]
fn api_of_a_plain_widget_uses_the_simple_render_call() {
    let text = api(CATALOG, "Paragraph").expect("Paragraph is in the catalog");
    assert!(text.contains("render_widget(paragraph, area)"), "{text}");
    assert!(!text.contains("render_stateful_widget"), "{text}");
}

#[test]
fn api_of_an_unknown_type_is_none() {
    assert!(api(CATALOG, "NoSuchType").is_none());
}

#[test]
fn api_search_finds_by_method_name() {
    let text = api_search(CATALOG, "highlight_symbol");
    assert!(text.contains("List"), "{text}");
}

#[test]
fn api_search_reports_the_shape_of_each_hit() {
    let text = api_search(CATALOG, "Constraint");
    assert!(text.contains("enum"), "{text}");
    assert!(text.contains("hawktui::layout"), "{text}");
}

#[test]
fn stateful_lists_every_widget_needing_state() {
    let text = stateful(CATALOG);
    for (widget, state) in [
        ("List", "ListState"),
        ("Table", "TableState"),
        ("SettingsList", "SettingsListState"),
    ] {
        assert!(text.contains(widget), "{widget} missing from {text}");
        assert!(text.contains(state), "{state} missing from {text}");
    }
}

#[test]
fn api_text_is_laid_out_exactly() {
    let text = api(CATALOG, "List").unwrap();
    assert_eq!(
        text,
        "List — stateful widget (state: ListState)\n\
         use hawktui::widget::list::List;\n\
         A list of selectable items.\n\
         \n\
         constructors:\n  pub fn new(items: Vec<ListItem<'a>>) -> Self\n      Create a list from its items.\n\
         \n\
         builders:\n  pub fn block(self, block: Block<'a>) -> Self\n      Wrap the list in a block.\n  \
         pub fn highlight_symbol(self, symbol: &'a str) -> Self\n\
         \n\
         render:\n  frame.render_stateful_widget(list, area, &mut state); // state: ListState\n"
    );
}

#[test]
fn api_search_sorts_hits_and_pads_columns() {
    let text = api_search(CATALOG, "LAYOUT");
    let expected = format!(
        "{:<18} {:<20} {}\n{:<18} {:<20} {}\n",
        "Constraint", "enum", "hawktui::layout", "Layout", "struct", "hawktui::layout"
    );
    assert_eq!(text, expected);
}

#[test]
fn search_is_case_insensitive_and_keeps_catalog_order() {
    let hits: Vec<&str> = api::search(CATALOG, "STATE").iter().map(|t| t.name).collect();
    assert_eq!(hits, Vec::<&str>::new());
    let hits: Vec<&str> = api::search(CATALOG, "widget::").iter().map(|t| t.name).collect();
    assert_eq!(
        hits,
        vec!["List", "Table", "Editor", "Scrollbar", "SettingsList", "Gauge", "Paragraph"]
    );
}

#[test]
fn function_count_sums_every_type() {
    assert_eq!(api::function_count(CATALOG), 5);
}

#[test]
fn constructors_and_methods_filter_by_role() {
    let list = api::get(CATALOG, "List").unwrap();
    let names: Vec<&str> = list.constructors().iter().map(|f| f.name).collect();
    assert_eq!(names, vec!["new"]);
    assert!(list.methods().is_empty());
    assert_eq!(list.state_type(), Some("ListState"));
    assert!(list.is_widget());
    assert!(!api::get(CATALOG, "Layout").unwrap().is_widget());
}

#[test]
fn stateful_report_pads_widget_names() {
    let text = stateful(&CATALOG[..2]);
    let expected = format!(
        "widget -> state type (render_stateful_widget)\n  {:<16} {}\n  {:<16} {}\n",
        "List", "ListState", "Table", "TableState"
    );
    assert_eq!(text, expected);
}

#[test]
fn prelude_lists_each_item() {
    let text = prelude(&["Frame", "Rect"]);
    assert!(text.starts_with("use hawktui::prelude::*; brings these into scope.\n"));
    assert!(text.ends_with("\n\n  Frame\n  Rect\n"), "{text}");
}

#[test]
fn semantic_roles_have_hyphenated_names() {
    assert_eq!(SemanticRole::DataVisualization.label(), "data-visualization");
    assert_eq!(SemanticRole::StatusBar.label(), "status-bar");
    assert_eq!(SemanticRole::Custom(42).label(), "custom-42");
    assert_eq!(SemanticRole::Input.label(), "input");
}

#[test]
fn program_options_default_to_sixty_frames_a_second() {
    let options = ProgramOptions::default();
    assert_eq!(options.tick_rate, Some(std::time::Duration::from_millis(16)));
    assert!(options.alternate_screen && options.mouse_capture && options.raw_mode);
}

#[test]
fn the_skeleton_is_a_complete_program() {
    let text = hawktui::ontology::report::skeleton();
    assert!(text.starts_with("//! The minimal complete Hawk TUI program."));
    assert!(text.contains("impl Model for App"), "{text}");
}
