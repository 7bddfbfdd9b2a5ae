use hawktui::ontology::listing::{digest, list, property_type_name, roles, search_text};
use hawktui::ontology::registry::{
    find_by_role, find_node, nodes_with_role, query_schemas, search, NodeTree, PropertyInfo, PropertyKind, SchemaInfo, TreeNode,
};
use hawktui::ontology::SemanticRole;

fn schema(name: &str, description: &str, tags: &[&str], role: SemanticRole) -> SchemaInfo {
    SchemaInfo {
        name: name.to_string(),
        description: description.to_string(),
        tags: tags.iter().map(|t| t.to_string()).collect(),
        role,
        properties: Vec::new(),
        usage_hint: None,
    }
}

#[test]
fn registry_search_matches_names_descriptions_and_tags_ignoring_case() {
    let schemas = vec![
        schema("List", "Selectable items", &["scroll"], SemanticRole::Input),
        schema("Gauge", "A PROGRESS bar", &[], SemanticRole::Display),
        schema("Scrollbar", "Shows position", &[], SemanticRole::Display),
    ];
    assert_eq!(search(&schemas, "SCROLL"), vec![0, 2]);
    assert_eq!(search(&schemas, "progress"), vec![1]);
    assert!(search(&schemas, "zzz").is_empty());
    assert_eq!(find_by_role(&schemas, SemanticRole::Display), vec![1, 2]);
}

#[test]
fn find_node_takes_the_first_in_depth_first_order() {
    let tree = NodeTree {
        nodes: vec![
            TreeNode { agent_id: None, role: SemanticRole::Container },
            TreeNode { agent_id: Some("ok".to_string()), role: SemanticRole::Input },
            TreeNode { agent_id: Some("ok".to_string()), role: SemanticRole::Input },
        ],
    };
    assert_eq!(find_node(&tree, "ok"), Some(1));
    assert_eq!(find_node(&tree, "nope"), None);
    assert_eq!(nodes_with_role(&tree, SemanticRole::Input), vec![1, 2]);
}

fn catalog() -> Vec<SchemaInfo> {
    let mut gauge = schema("Gauge", "A progress bar", &["meter"], SemanticRole::Progress);
    gauge.properties.push(PropertyInfo { name: "ratio".to_string(), required: true, kind: PropertyKind::Float });
    gauge.properties.push(PropertyInfo {
        name: "labels".to_string(),
        required: false,
        kind: PropertyKind::Array(Box::new(PropertyKind::Enum(vec!["a".to_string(), "b".to_string()]))),
    });
    gauge.usage_hint = Some("Gauge::default()".to_string());
    vec![
        schema("List", "Selectable items", &["scroll"], SemanticRole::Selection),
        gauge,
        schema("Block", "A border", &[], SemanticRole::Container),
        schema("Table", "Rows and columns", &[], SemanticRole::Selection),
    ]
}

#[test]
fn listing_is_sorted_by_name_with_padded_columns() {
    let text = list(&catalog());
    let lines: Vec<&str> = text.lines().collect();
    assert_eq!(lines.len(), 4);
    assert_eq!(lines[0], format!("{:<18} {:<18} {}", "Block", "container", "A border"));
    assert_eq!(lines[1], format!("{:<18} {:<18} {}", "Gauge", "progress", "A progress bar"));
    assert!(lines[3].starts_with("Table"));
}

#[test]
fn search_text_lists_the_matches_by_name() {
    let text = search_text(&catalog(), "ROWS");
    assert_eq!(text, format!("{:<18} {:<18} {}\n", "Table", "selection", "Rows and columns"));
    assert_eq!(search_text(&catalog(), "zzz"), "");
}

#[test]
fn roles_group_widget_names_under_sorted_role_names() {
    let text = roles(&catalog());
    assert_eq!(
        text,
        format!(
            "{:<20} {}\n{:<20} {}\n{:<20} {}\n",
            "container", "Block", "progress", "Gauge", "selection", "List, Table"
        )
    );
}

#[test]
fn digest_lists_properties_and_usage() {
    let text = digest(&catalog());
    assert!(text.starts_with("# Hawk TUI widget ontology (generated)\n\n4 widget types."), "{text}");
    assert!(text.contains("## Gauge — A progress bar (progress)\n- ratio*: float\n- labels: [enum(a|b)]\n\n```rust\nGauge::default()\n```\n\n"), "{text}");
}

#[test]
fn property_type_names_nest() {
    let k = PropertyKind::Array(Box::new(PropertyKind::Array(Box::new(PropertyKind::Integer))));
    assert_eq!(property_type_name(&k), "[[int]]");
}

#[test]
fn ontology_queries_combine_search_and_role() {
    let c = catalog();
    assert_eq!(query_schemas(&c, None, None), vec![0, 1, 2, 3]);
    assert_eq!(query_schemas(&c, None, Some("selection")), vec![0, 3]);
    assert_eq!(query_schemas(&c, Some("s"), Some("selection")), vec![0, 3]);
    assert_eq!(query_schemas(&c, Some("bar"), None), vec![1]);
    assert!(query_schemas(&c, Some("bar"), Some("nope")).is_empty());
}
