use experiments::migration::{
    migrate_genome, migrate_outputs, ConnectionData, MigratedConnection, MigratedNode,
    MigrationError, NodeData, NodeKind,
};

fn node(id: &str, kind: NodeKind, position: usize, enabled: bool) -> NodeData {
    NodeData { id: id.to_string(), kind, position, enabled }
}

fn link(from: &str, to: &str, enabled: bool) -> ConnectionData {
    ConnectionData { from: from.to_string(), to: to.to_string(), enabled }
}

fn outputs() -> Vec<String> {
    vec!["output_1".to_string(), "output_2".to_string(), "output_3".to_string()]
}

fn node_rows(nodes: &[MigratedNode]) -> Vec<(String, NodeKind, usize, bool, usize, bool)> {
    nodes
        .iter()
        .map(|n| (n.id.clone(), n.kind, n.position, n.enabled, n.source, n.zero_bias))
        .collect()
}

fn link_rows(links: &[MigratedConnection]) -> Vec<(String, String, bool, Option<usize>)> {
    links
        .iter()
        .map(|c| (c.from.clone(), c.to.clone(), c.enabled, c.source))
        .collect()
}

fn row(id: &str, kind: NodeKind, position: usize, enabled: bool, source: usize, zero: bool) -> (String, NodeKind, usize, bool, usize, bool) {
    (id.to_string(), kind, position, enabled, source, zero)
}

fn edge(from: &str, to: &str, enabled: bool, source: Option<usize>) -> (String, String, bool, Option<usize>) {
    (from.to_string(), to.to_string(), enabled, source)
}

#[test]
fn migrate_outputs_moves_start_node_and_inserts_new_outputs() {
    let nodes = vec![
        node("input_0", NodeKind::Input, 0, true),
        node("hidden_a", NodeKind::Hidden, 3, false),
        node("output_0", NodeKind::Output, 1, true),
        node("output_1", NodeKind::Output, 2, true),
    ];
    let connections = vec![link("input_0", "output_1", true), link("hidden_a", "output_0", false)];
    let (new_nodes, new_links) = migrate_outputs(&nodes, &connections, "output_1", "output_4", &outputs());
    assert_eq!(
        node_rows(&new_nodes),
        vec![
            row("input_0", NodeKind::Input, 0, true, 0, false),
            row("hidden_a", NodeKind::Hidden, 3, false, 1, false),
            row("output_0", NodeKind::Output, 1, true, 2, false),
            row("output_1", NodeKind::Output, 2, true, 3, true),
            row("output_2", NodeKind::Output, 3, true, 3, true),
            row("output_3", NodeKind::Output, 4, true, 3, true),
            row("output_4", NodeKind::Output, 6, true, 3, false),
        ]
    );
    assert_eq!(
        link_rows(&new_links),
        vec![
            edge("input_0", "output_4", true, Some(0)),
            edge("hidden_a", "output_0", false, Some(1)),
            edge("input_0", "output_1", true, None),
            edge("input_0", "output_2", true, None),
            edge("input_0", "output_3", true, None),
        ]
    );
}

#[test]
fn migrate_outputs_links_every_input_to_every_new_output() {
    let nodes = vec![
        node("input_0", NodeKind::Input, 0, true),
        node("input_1", NodeKind::Input, 1, false),
        node("output_1", NodeKind::Output, 2, false),
    ];
    let added = vec!["a".to_string(), "b".to_string()];
    let (new_nodes, new_links) = migrate_outputs(&nodes, &vec![], "output_1", "z", &added);
    assert_eq!(
        node_rows(&new_nodes),
        vec![
            row("input_0", NodeKind::Input, 0, true, 0, false),
            row("input_1", NodeKind::Input, 1, false, 1, false),
            row("a", NodeKind::Output, 2, true, 2, true),
            row("b", NodeKind::Output, 3, true, 2, true),
            row("z", NodeKind::Output, 6, false, 2, false),
        ]
    );
    assert_eq!(
        link_rows(&new_links),
        vec![
            edge("input_0", "a", true, None),
            edge("input_0", "b", true, None),
            edge("input_1", "a", true, None),
            edge("input_1", "b", true, None),
        ]
    );
}

#[test]
fn migrate_outputs_without_start_node_keeps_nodes() {
    let nodes = vec![node("input_0", NodeKind::Input, 0, true), node("output_0", NodeKind::Output, 1, true)];
    let connections = vec![link("input_0", "output_0", true)];
    let (new_nodes, new_links) = migrate_outputs(&nodes, &connections, "output_1", "output_4", &outputs());
    assert_eq!(
        node_rows(&new_nodes),
        vec![
            row("input_0", NodeKind::Input, 0, true, 0, false),
            row("output_0", NodeKind::Output, 1, true, 1, false),
        ]
    );
    assert_eq!(
        link_rows(&new_links),
        vec![
            edge("input_0", "output_0", true, Some(0)),
            edge("input_0", "output_1", true, None),
            edge("input_0", "output_2", true, None),
            edge("input_0", "output_3", true, None),
        ]
    );
}

#[test]
fn migrate_genome_rejects_text_that_is_not_a_genome() {
    let r = migrate_genome("{\"nodes\": 3}", "output_1", "output_4", &outputs());
    assert!(matches!(r, Err(MigrationError::NotAGenome)));
    let r = migrate_genome("", "output_1", "output_4", &outputs());
    assert!(matches!(r, Err(MigrationError::NotAGenome)));
}

#[test]
fn migrate_genome_reads_nodes_and_connections() {
    let json = r#"{"connections":[{"from":"input_0","to":"output_1","weight":0.5,"enabled":false}],
        "nodes":[{"id":"input_0","bias":0.0,"enabled":true,"activation":"Identity","neuron_type":"Input","position":0},
                 {"id":"output_1","bias":0.25,"enabled":true,"activation":"Sigmoid","neuron_type":"Output","position":null}]}"#;
    let migrated = match migrate_genome(json, "output_1", "output_4", &outputs()) {
        Ok(m) => m,
        Err(e) => panic!("unexpected {:?}", e),
    };
    assert_eq!(
        node_rows(&migrated.nodes),
        vec![
            row("input_0", NodeKind::Input, 0, true, 0, false),
            row("output_1", NodeKind::Output, 0, true, 1, true),
            row("output_2", NodeKind::Output, 1, true, 1, true),
            row("output_3", NodeKind::Output, 2, true, 1, true),
            row("output_4", NodeKind::Output, 4, true, 1, false),
        ]
    );
    assert_eq!(
        link_rows(&migrated.connections),
        vec![
            edge("input_0", "output_4", false, Some(0)),
            edge("input_0", "output_1", true, None),
            edge("input_0", "output_2", true, None),
            edge("input_0", "output_3", true, None),
        ]
    );
    let old = migrated.genome.get_nodes();
    assert_eq!(old.len(), 2);
    assert_eq!(old[1].get_bias(), 0.25);
    assert_eq!(migrated.genome.get_connections()[0].get_weight(), 0.5);
}

#[test]
fn migrate_genome_reports_positions_that_overflow() {
    let json = format!(
        r#"{{"connections":[],"nodes":[{{"id":"output_1","bias":0.0,"enabled":true,"activation":"Identity","neuron_type":"Output","position":{}}}]}}"#,
        usize::MAX - 2
    );
    let r = migrate_genome(&json, "output_1", "output_4", &outputs());
    assert!(matches!(r, Err(MigrationError::PositionOverflow)));
    let r = migrate_genome(&json, "output_1", "output_4", &vec![]);
    assert!(matches!(r, Err(MigrationError::PositionOverflow)));
    let fits = format!(
        r#"{{"connections":[],"nodes":[{{"id":"output_1","bias":0.0,"enabled":true,"activation":"Identity","neuron_type":"Output","position":{}}}]}}"#,
        usize::MAX - 4
    );
    let r = migrate_genome(&fits, "output_1", "output_4", &outputs());
    assert!(matches!(r, Ok(_)));
}
