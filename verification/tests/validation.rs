use graphite::node_parser::NodeParser;
use graphite::schema::SchemaParser;
use graphite::validation::{extract_edge_refs, extract_evidence_refs, ResolvedEvidence, ValidationEngine};
use graphite::{Graph, Node};

/// A small valid graph with nodes connected via body [edge:X] references.
fn sample_graph() -> Graph {
    let schema = SchemaParser::default_schema();
    let mut g = Graph::new(schema);

    g.add_node(
        NodeParser::parse(
            "\
---\n\
id: root\n\
category: spec\n\
---\n\
# Root\n\n\
Contains [edge:req-1] and [edge:svc-1].\n",
        )
        .expect("sample root"),
    );

    g.add_node(
        NodeParser::parse(
            "\
---\n\
id: req-1\n\
category: requirement\n\
---\n\
# Requirement\n\n\
Implemented by [edge:svc-1].\n",
        )
        .expect("sample requirement"),
    );

    g.add_node(
        NodeParser::parse(
            "\
---\n\
id: svc-1\n\
category: service\n\
---\n\
# Service\n",
        )
        .expect("sample service"),
    );

    g
}

/// Build a [`Node`] directly, skipping YAML frontmatter parsing.
fn make_node(id: &str, category: &str, body: &str) -> Node {
    Node {
        id: id.to_string(),
        category: category.to_string(),
        body: body.to_string(),
        content_len: body.len(),
    }
}

#[test]
fn all_edge_refs_exist() {
    let graph = sample_graph();
    let engine = ValidationEngine;
    let diags = engine.validate(&graph);
    assert!(
        !diags.iter().any(|d| d.rule == "broken-edge-target"),
        "all edge refs should resolve: {:?}",
        diags
    );
}

#[test]
fn broken_edge_ref_detected() {
    let schema = SchemaParser::default_schema();
    let mut g = Graph::new(schema);

    g.add_node(make_node("req-1", "requirement", "Addressed by [edge:ghost-arc]."));

    let engine = ValidationEngine;
    let diags = engine.validate(&g);
    assert!(
        diags.iter().any(|d| d.rule == "broken-edge-target"),
        "should detect broken edge target: {:?}",
        diags
    );
}

#[test]
fn existing_edge_ref_passes_silently() {
    let schema = SchemaParser::default_schema();
    let mut g = Graph::new(schema);

    g.add_node(make_node("arc-1", "architecture", "# Arc One\n\n"));
    g.add_node(make_node("req-1", "requirement", "Addressed by [edge:arc-1]."));

    let engine = ValidationEngine;
    let diags = engine.validate(&g);
    assert!(
        diags.iter().all(|d| d.rule != "broken-edge-target"),
        "should NOT detect broken edge target when target exists: {:?}",
        diags
    );
}

#[test]
fn node_with_title_passes() {
    let schema = SchemaParser::default_schema();
    let mut g = Graph::new(schema);

    g.add_node(make_node("svc-1", "service", "# Service\n\nBody."));

    let engine = ValidationEngine;
    let diags = engine.validate(&g);
    assert!(
        !diags.iter().any(|d| d.rule == "node-body-title"),
        "node with title should pass: {:?}",
        diags
    );
}

#[test]
fn node_without_title_warns() {
    let schema = SchemaParser::default_schema();
    let mut g = Graph::new(schema);

    g.add_node(make_node("svc-1", "service", "Body without title."));

    let engine = ValidationEngine;
    let diags = engine.validate(&g);
    assert!(
        diags.iter().any(|d| d.rule == "node-body-title"),
        "node without title should warn: {:?}",
        diags
    );
}

#[test]
fn all_evidence_resolved() {
    let schema = SchemaParser::default_schema();
    let mut g = Graph::new(schema);

    g.add_node(make_node("svc-1", "service", "Service body [evidence:ev-auth]"));

    let mut resolved = ResolvedEvidence::new();
    resolved.insert("ev-auth".into(), vec![("src/main.rs".to_string(), 42)]);

    let engine = ValidationEngine;
    let diags = engine.check_evidence_anchors(&g, &resolved);
    assert!(
        diags.is_empty(),
        "no diagnostics expected when evidence is resolved: {:?}",
        diags
    );
}

#[test]
fn unresolved_evidence_detected() {
    let schema = SchemaParser::default_schema();
    let mut g = Graph::new(schema);

    g.add_node(make_node("svc-1", "service", "Service body [evidence:ev-missing]"));

    let resolved = ResolvedEvidence::new();

    let engine = ValidationEngine;
    let diags = engine.check_evidence_anchors(&g, &resolved);
    assert_eq!(diags.len(), 1, "exactly one diagnostic expected");
    assert_eq!(diags[0].rule, "unresolved-evidence");
    assert!(diags[0].detail.contains("ev-missing"), "detail mentions the missing id");
}

#[test]
fn no_evidence_refs_passes_silently() {
    let schema = SchemaParser::default_schema();
    let mut g = Graph::new(schema);

    g.add_node(make_node("svc-1", "service", "body"));

    let resolved = ResolvedEvidence::new();
    let engine = ValidationEngine;
    let diags = engine.check_evidence_anchors(&g, &resolved);
    assert!(diags.is_empty(), "no evidence refs = no diagnostics");
}

#[test]
fn multiple_evidence_some_unresolved() {
    let schema = SchemaParser::default_schema();
    let mut g = Graph::new(schema);

    g.add_node(make_node("svc-1", "service", "body [evidence:ev-ok] [evidence:ev-missing]"));

    let mut resolved = ResolvedEvidence::new();
    resolved.insert("ev-ok".into(), vec![("main.rs".to_string(), 1)]);

    let engine = ValidationEngine;
    let diags = engine.check_evidence_anchors(&g, &resolved);
    assert_eq!(diags.len(), 1, "only the unresolved one should fire");
    assert!(
        diags[0].detail.contains("ev-missing"),
        "detail mentions the missing id: {}",
        diags[0].detail
    );
}

#[test]
fn unused_evidence_anchor_detected() {
    let schema = SchemaParser::default_schema();
    let mut g = Graph::new(schema);

    g.add_node(make_node("svc-1", "service", "# Service\n"));

    let mut resolved = ResolvedEvidence::new();
    resolved.insert("ev-orphan".into(), vec![("main.rs".to_string(), 1)]);

    let engine = ValidationEngine;
    let diags = engine.check_unused_anchors(&g, &resolved);
    assert_eq!(diags.len(), 1, "unused anchor should fire");
    assert_eq!(diags[0].rule, "unused-evidence-anchor");
}

#[test]
fn used_evidence_anchor_passes() {
    let schema = SchemaParser::default_schema();
    let mut g = Graph::new(schema);

    g.add_node(make_node("svc-1", "service", "# Service\n\nBody [evidence:ev-used]"));

    let mut resolved = ResolvedEvidence::new();
    resolved.insert("ev-used".into(), vec![("main.rs".to_string(), 1)]);

    let engine = ValidationEngine;
    let diags = engine.check_unused_anchors(&g, &resolved);
    assert!(diags.is_empty(), "used evidence anchor should not produce diagnostics");
}

#[test]
fn extract_edge_refs_works() {
    let body = "See [edge:node-a] and [edge:node-b] for details.";
    let refs = extract_edge_refs(body);
    assert_eq!(refs, vec!["node-a", "node-b"]);
}

#[test]
fn extract_evidence_refs_works() {
    let body = "Shown by [evidence:ev-impl] and [evidence:ev-test].";
    let refs = extract_evidence_refs(body);
    assert_eq!(refs, vec!["ev-impl", "ev-test"]);
}

#[test]
fn extract_refs_empty_when_no_markers() {
    assert!(extract_edge_refs("no markers here").is_empty());
    assert!(extract_evidence_refs("no markers here").is_empty());
}

#[test]
fn refs_are_trimmed_and_blank_refs_skipped() {
    assert_eq!(extract_edge_refs("[edge:  a ] [edge: ] [edge:b"), vec!["a"]);
}

#[test]
fn broken_edge_diagnostic_texts() {
    let mut g = Graph::new(SchemaParser::default_schema());
    g.add_node(make_node("n", "spec", "# T\n[edge:x]"));
    let diags = ValidationEngine.validate(&g);
    assert_eq!(diags.len(), 1);
    assert_eq!(diags[0].node_id.as_deref(), Some("n"));
    assert_eq!(
        diags[0].detail,
        "Node 'n' has [edge:x] in its body, but no node with ID 'x' exists in the graph."
    );
}

#[test]
fn file_size_limit_reports_exact_nodes() {
    let mut g = Graph::new(SchemaParser::default_schema());
    let mut big = make_node("big", "spec", "# Big\n");
    big.content_len = 120;
    g.add_node(big);
    g.add_node(make_node("small", "spec", "# S"));
    let diags = ValidationEngine.check_node_file_size(&g, 100);
    assert_eq!(diags.len(), 1);
    assert_eq!(diags[0].rule, "node-file-too-large");
    assert_eq!(
        diags[0].detail,
        "Node 'big' has 120 characters, which exceeds the maximum of 100. Split this node into multiple smaller nodes."
    );
    assert!(ValidationEngine.check_node_file_size(&g, 120).is_empty());
}

#[test]
fn repeated_evidence_reported_once_per_node() {
    let mut g = Graph::new(SchemaParser::default_schema());
    g.add_node(make_node("n", "spec", "[evidence:a] [evidence:a]"));
    let diags = ValidationEngine.check_evidence_anchors(&g, &ResolvedEvidence::new());
    assert_eq!(diags.len(), 1);
}

#[test]
fn unresolved_and_unused_never_share_an_id() {
    let mut g = Graph::new(SchemaParser::default_schema());
    g.add_node(make_node("n", "spec", "# N [evidence:a]"));
    let mut resolved = ResolvedEvidence::new();
    resolved.insert("b".into(), vec![("f".to_string(), 3)]);
    let unresolved = ValidationEngine.check_evidence_anchors(&g, &resolved);
    let unused = ValidationEngine.check_unused_anchors(&g, &resolved);
    assert_eq!(unresolved.len(), 1);
    assert_eq!(unused.len(), 1);
    assert!(unresolved[0].detail.contains("'a'"));
    assert!(unused[0].detail.contains("evidence b'"));
}

#[test]
fn title_detected_on_indented_heading_line() {
    let mut g = Graph::new(SchemaParser::default_schema());
    g.add_node(make_node("n", "spec", "intro\n   # Heading\n"));
    assert!(ValidationEngine.validate(&g).is_empty());
}

#[test]
fn add_node_replaces_same_id() {
    let mut g = Graph::new(SchemaParser::default_schema());
    g.add_node(make_node("n", "a", "one"));
    g.add_node(make_node("m", "a", "two"));
    g.add_node(make_node("n", "b", "three"));
    assert_eq!(g.nodes.len(), 2);
    assert_eq!(g.nodes.get("n").unwrap().body, "three");
    assert_eq!(g.nodes.values()[0].id, "n");
}
