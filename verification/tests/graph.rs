use leaf::graph::{
    load_pressed_leaf, parse_link_line, parse_yaml_inline_list, split_target_note, write_text,
    KnowledgeGraph,
};

#[test]
fn parse_link_line_accepts_minimal_relation() {
    let edge = parse_link_line("- `refines` -> `leaf:pressed-format` - narrows it")
        .expect("parsed")
        .expect("edge");

    assert_eq!(edge.predicate, "refines");
    assert_eq!(edge.target, "leaf:pressed-format");
    assert_eq!(edge.note.as_deref(), Some("narrows it"));
}

#[test]
fn parse_link_line_rejects_unknown_predicate() {
    let message = parse_link_line("- `causes` -> `leaf:other`").expect_err("unknown predicate");

    assert!(message.contains("unknown link predicate"));
}

fn empty_graph() -> KnowledgeGraph {
    KnowledgeGraph {
        leaf_root: ".leaf".to_string(),
        nodes: Vec::new(),
        edges: Vec::new(),
        warnings: Vec::new(),
    }
}

#[test]
fn load_exports_pressed_nodes_and_link_edges() {
    let pressed = "---\n\
                   type: Leaf Pressed Digest\n\
                   title: Reference Leaf\n\
                   description: One-sentence summary.\n\
                   resource: .leaf/02-leaves/reference\n\
                   tags: [leaf, reference]\n\
                   timestamp: 2026-06-22T10:00:00+09:00\n\
                   citation_handle: leaf:reference\n\
                   stage: leaf\n\
                   ---\n\
                   \n\
                   # Reference Leaf\n";
    let mut graph = empty_graph();
    load_pressed_leaf(
        &mut graph,
        "reference",
        ".leaf/02-leaves/reference/pressed.md",
        Ok(pressed.to_string()),
        Some((
            ".leaf/02-leaves/reference/linked.md".to_string(),
            Ok("# Links\n\n- `cites` -> `okf:spec` - Source format\n".to_string()),
        )),
    );

    assert_eq!(graph.nodes.len(), 1);
    assert_eq!(graph.nodes[0].id, "leaf:reference");
    assert_eq!(graph.nodes[0].tags, vec!["leaf", "reference"]);
    assert_eq!(graph.edges.len(), 1);
    assert_eq!(graph.edges[0].source, "leaf:reference");
    assert_eq!(graph.edges[0].predicate, "cites");
    assert_eq!(graph.edges[0].target, "okf:spec");
    assert_eq!(graph.edges[0].path, ".leaf/02-leaves/reference/linked.md:3");
    assert_eq!(graph.edges[0].note.as_deref(), Some("Source format"));
}

#[test]
fn pressed_without_frontmatter_falls_back_to_slug_and_reports_bad_links() {
    let mut graph = empty_graph();
    load_pressed_leaf(
        &mut graph,
        "plain",
        ".leaf/02-leaves/plain/pressed.md",
        Ok("# Plain\n".to_string()),
        Some((
            ".leaf/02-leaves/plain/linked.md".to_string(),
            Ok("- `causes` -> `leaf:other`\n".to_string()),
        )),
    );
    assert_eq!(graph.nodes[0].id, "leaf:plain");
    assert_eq!(graph.nodes[0].concept_type, "Leaf Pressed Digest");
    assert!(graph.nodes[0].tags.is_empty());
    assert!(graph.edges.is_empty());
    assert_eq!(graph.warnings.len(), 1);
    assert_eq!(graph.warnings[0].path, ".leaf/02-leaves/plain/linked.md:1");

    load_pressed_leaf(
        &mut graph,
        "broken",
        ".leaf/02-leaves/broken/pressed.md",
        Err("permission denied".to_string()),
        None,
    );
    assert_eq!(graph.nodes.len(), 1);
    assert_eq!(graph.warnings[1].message, "failed to read pressed.md: permission denied");

    let text = write_text(&graph);
    assert_eq!(text, "leaf graph\n\nnodes    1\nedges    0\nwarnings 2\n- leaf:plain  plain\n");
}

#[test]
fn yaml_inline_lists_and_link_notes() {
    assert_eq!(
        parse_yaml_inline_list("[a, 'b', \"c\", ]"),
        vec!["a".to_string(), "b".to_string(), "c".to_string()]
    );
    assert_eq!(
        split_target_note("`okf:spec` - Source format"),
        ("`okf:spec`".to_string(), Some("Source format".to_string()))
    );
}
