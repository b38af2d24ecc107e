use graphite::cli::{
    brief_line, check_compatibility, classify_diff, collect_node_files, context_evidence,
    context_relations, diagnostic_text, diagnostics_by_rule, diagnostics_by_severity,
    diff_report_text, extract_edge_refs_from_body, extract_evidence_refs_from_body,
    extract_marker_refs, fallback_source_path, filter_diagnostics, finish_load,
    graph_not_found_error, has_errors, is_node_file_for, load_schema, node_entry_action,
    node_file_text, nodes_by_category, plan_reads, promote_warnings, resolve_evidence,
    resolve_node_source_file, scaffold_categories_list, scaffold_nodes, tally_keys,
    validation_report, validation_verdict, work_order, NodeEntryAction, Verdict,
};
use graphite::node_parser::NodeParser;
use graphite::schema::SchemaParser;
use graphite::{Diagnostic, EvidenceMap, Graph, Severity};

fn graph_of(nodes: &[(&str, &str, &str)]) -> Graph {
    let mut g = Graph::new(SchemaParser::default_schema());
    for (id, category, body) in nodes {
        g.add_node(NodeParser::parse(&node_file_text(id, category, body)).expect("node"));
    }
    g
}

fn diag(rule: &str, severity: Severity, node_id: Option<&str>) -> Diagnostic {
    Diagnostic {
        rule: rule.to_string(),
        severity,
        node_id: node_id.map(|s| s.to_string()),
        file: None,
        detail: format!("{rule} detail"),
        fix: "do this".to_string(),
        example: None,
        hint: "because".to_string(),
    }
}

#[test]
fn strict_mode_turns_warnings_into_failure() {
    let g = graph_of(&[("root", "spec", ""), ("svc", "adr", "")]);
    let evidence = EvidenceMap::new();
    let non_strict = validation_report(&g, &evidence, usize::MAX, None, false);
    assert_ne!(validation_verdict(&non_strict), Verdict::Invalid, "warnings should not fail non-strict validation");
    let strict = validation_report(&g, &evidence, usize::MAX, None, true);
    assert_eq!(validation_verdict(&strict), Verdict::Invalid, "strict validation should fail on warnings");
}

#[test]
fn load_graph_reports_schema_parse_error() {
    let result = load_schema("graph.schema", Some(Ok("kinds:\n  bad: [\n".to_string())));
    let error = result.expect_err("invalid graph.schema should fail load_graph");
    assert_eq!(error.rule, "schema-parse-error");
    assert_eq!(error.file.as_deref(), Some("graph.schema"));
}

#[test]
fn missing_schema_file_gives_default_schema() {
    let s = load_schema("graph.schema", None).unwrap();
    assert_eq!(s.categories.len(), 7);
    let e = load_schema("graph.schema", Some(Err("denied".to_string()))).unwrap_err();
    assert_eq!(e.rule, "schema-read-error");
    assert_eq!(e.detail, "Cannot read schema file 'graph.schema': denied");
}

#[test]
fn duplicate_ids_within_one_walk_are_reported() {
    let mut g = Graph::new(SchemaParser::default_schema());
    let mut errors = Vec::new();
    let files = vec![
        ("g/a.node".to_string(), Ok(node_file_text("x", "spec", "# A"))),
        ("g/b.node".to_string(), Ok(node_file_text("x", "spec", "# B"))),
        ("g/c.node".to_string(), Err("denied".to_string())),
        ("g/d.node".to_string(), Ok("no frontmatter".to_string())),
    ];
    collect_node_files(&files, &mut g, &mut errors);
    assert_eq!(g.nodes.len(), 1);
    assert_eq!(g.nodes.get("x").unwrap().body, "# B\n");
    assert_eq!(errors.len(), 3);
    assert_eq!(errors[0].rule, "duplicate-node-id");
    assert_eq!(errors[0].detail, "Duplicate node ID 'x' — first defined in 'g/a.node'");
    assert_eq!(errors[0].file.as_deref(), Some("g/b.node"));
    assert_eq!(errors[1].rule, "read-error");
    assert_eq!(errors[1].detail, "Cannot read 'g/c.node': denied");
    assert_eq!(errors[2].rule, "node-parse-error");
    assert_eq!(errors[2].file.as_deref(), Some("g/d.node"));
    assert!(finish_load(g, errors).is_err());
}

#[test]
fn graph_directory_errors() {
    let d = graph_not_found_error("nowhere");
    assert_eq!(d.rule, "graph-not-found");
    assert_eq!(d.detail, "Graph directory 'nowhere' not found");
}

#[test]
fn walk_of_graph_directory() {
    assert_eq!(node_entry_action(true, Some(".git"), None), NodeEntryAction::Ignore);
    assert_eq!(node_entry_action(true, Some("spec"), None), NodeEntryAction::Descend);
    assert_eq!(node_entry_action(false, Some("a.node"), Some("node")), NodeEntryAction::Read);
    assert_eq!(node_entry_action(false, Some("a.md"), Some("md")), NodeEntryAction::Ignore);
}

#[test]
fn evidence_is_merged_sorted_and_deduplicated() {
    let mut a = EvidenceMap::new();
    a.push("e".to_string(), ("src/b.rs".to_string(), 3));
    a.push("e".to_string(), ("src/a.rs".to_string(), 9));
    let mut b = EvidenceMap::new();
    b.push("e".to_string(), ("src/b.rs".to_string(), 3));
    b.push("f".to_string(), ("x.rs".to_string(), 1));
    let fail: Result<EvidenceMap, Diagnostic> = Err(diag("scan-error", Severity::Error, None));
    let results = vec![(Ok(a), fail), (Ok(b), Ok(EvidenceMap::new()))];
    let ev = resolve_evidence(&results);
    assert_eq!(
        ev.get("e").unwrap(),
        &vec![("src/a.rs".to_string(), 9), ("src/b.rs".to_string(), 3)]
    );
    assert_eq!(ev.get("f").unwrap(), &vec![("x.rs".to_string(), 1)]);
    assert_eq!(ev.len(), 2);
}

#[test]
fn paths_sort_by_components() {
    let mut a = EvidenceMap::new();
    a.push("e".to_string(), ("src-x/a.rs".to_string(), 1));
    a.push("e".to_string(), ("src/a.rs".to_string(), 2));
    a.push("e".to_string(), ("src//a.rs".to_string(), 2));
    let ev = resolve_evidence(&vec![(Ok(a), Ok(EvidenceMap::new()))]);
    assert_eq!(
        ev.get("e").unwrap(),
        &vec![("src/a.rs".to_string(), 2), ("src-x/a.rs".to_string(), 1)]
    );
}

#[test]
fn strict_promotion_and_verdicts() {
    let mut ds = vec![diag("w", Severity::Warning, None), diag("e", Severity::Error, None)];
    assert!(has_errors(&ds));
    promote_warnings(&mut ds);
    assert!(ds.iter().all(|d| d.severity == Severity::Error));
    assert_eq!(ds[0].rule, "w");
    assert_eq!(validation_verdict(&Vec::new()), Verdict::Valid);
    assert_eq!(validation_verdict(&vec![diag("w", Severity::Warning, None)]), Verdict::ValidWithWarnings);
}

#[test]
fn focus_and_first_filter_diagnostics() {
    let ds = vec![
        diag("a", Severity::Error, Some("n1")),
        diag("b", Severity::Error, Some("n2")),
        diag("c", Severity::Error, Some("n1")),
    ];
    let f = filter_diagnostics(&ds, Some("n1"), false);
    assert_eq!(f.iter().map(|d| d.rule.as_str()).collect::<Vec<_>>(), vec!["a", "c"]);
    let first = filter_diagnostics(&ds, None, true);
    assert_eq!(first.len(), 1);
    assert_eq!(first[0].rule, "a");
    assert!(filter_diagnostics(&ds, Some("none"), true).is_empty());
}

#[test]
fn diagnostic_text_forms() {
    let mut d = diag("r", Severity::Warning, None);
    assert_eq!(brief_line(&d), "[warning] r: r detail");
    assert_eq!(diagnostic_text(&d), "[warning] r: r detail\n  fix: do this\n  hint: because\n");
    d.example = Some("ex".to_string());
    assert_eq!(diagnostic_text(&d), "[warning] r: r detail\n  fix: do this\n  example:\nex\n  hint: because\n");
}

#[test]
fn diff_lines_are_classified() {
    let out = "A\tgraph/spec/new.node\nM\tgraph/graph/x.node\nR100\told.node\n\nD\tgone.node\n?? junk\nX\tother.node\n";
    let d = classify_diff(out);
    assert_eq!(d.new, vec!["spec/new.node"]);
    assert_eq!(d.changed, vec!["x.node", "old.node"]);
    assert_eq!(d.removed, vec!["gone.node"]);
    assert_eq!(
        diff_report_text(&d),
        "  NEW    spec/new.node\n  CHANGED x.node\n  CHANGED old.node\n  REMOVED gone.node\n"
    );
    let empty = classify_diff("");
    assert_eq!(diff_report_text(&empty), "  (no changes)\n");
}

#[test]
fn counts_in_order_of_first_appearance() {
    let keys = vec!["b".to_string(), "a".to_string(), "b".to_string()];
    assert_eq!(tally_keys(&keys), vec![("b".to_string(), 2), ("a".to_string(), 1)]);
    let g = graph_of(&[("x", "spec", ""), ("y", "adr", ""), ("z", "spec", "")]);
    assert_eq!(nodes_by_category(&g), vec![("spec".to_string(), 2), ("adr".to_string(), 1)]);
    let ds = vec![diag("r1", Severity::Warning, None), diag("r1", Severity::Error, None)];
    assert_eq!(diagnostics_by_rule(&ds), vec![("r1".to_string(), 2)]);
    assert_eq!(
        diagnostics_by_severity(&ds),
        vec![("warning".to_string(), 1), ("error".to_string(), 1)]
    );
}

#[test]
fn context_relations_in_id_order() {
    let g = graph_of(&[
        ("t", "spec", "# T\n[edge:b] [edge:missing] [edge:b]"),
        ("b", "spec", "# B\n[edge:t]"),
        ("a", "spec", "# A\n[edge:t] [edge:t]"),
    ]);
    let t = g.nodes.get("t").unwrap();
    let rels = context_relations(&g, t);
    let flat: Vec<(String, Vec<String>)> = rels;
    assert_eq!(
        flat,
        vec![
            ("a".to_string(), vec!["reverse".to_string(), "reverse".to_string()]),
            ("b".to_string(), vec!["forward".to_string(), "forward".to_string(), "reverse".to_string()]),
            ("t".to_string(), vec!["self".to_string()]),
        ]
    );
}

#[test]
fn context_evidence_lists_each_id_once() {
    let mut ev = EvidenceMap::new();
    ev.push("e1".to_string(), ("a.rs".to_string(), 1));
    ev.push("e1".to_string(), ("b.rs".to_string(), 2));
    let items = context_evidence("[evidence:e1] [evidence:none] [evidence:e1]", &ev);
    assert_eq!(
        items,
        vec![
            ("e1".to_string(), "a.rs".to_string(), 1),
            ("e1".to_string(), "b.rs".to_string(), 2)
        ]
    );
}

#[test]
fn work_order_steps_are_numbered() {
    let reads = plan_reads("[edge:a] [edge:b] [edge:a]");
    assert_eq!(reads, vec!["a", "b"]);
    let with_files = vec![("a".to_string(), Some("graph/x/a.node".to_string())), ("b".to_string(), None)];
    let steps = work_order("t", "spec", &with_files, "graph/spec/t.node");
    assert_eq!(steps.len(), 5);
    for (i, s) in steps.iter().enumerate() {
        assert_eq!(s.order, i + 1);
    }
    assert_eq!(steps[1].source_file, "graph/spec/b.node");
    assert_eq!(steps[1].why, "Understand context for 'b'");
    assert_eq!(steps[2].action, "modify");
    assert_eq!(steps[3].why, "Add @graphite:evidence anchors for 't' in source files");
    assert_eq!(steps[4].why, "Run `graphite validate --first` and fix errors iteratively");
}

#[test]
fn node_source_file_choices() {
    let n = NodeParser::parse(&node_file_text("x", "spec", "")).unwrap();
    assert_eq!(resolve_node_source_file("graph", &n, true, None), "graph/spec/x.node");
    assert_eq!(resolve_node_source_file("graph", &n, false, Some("graph/o/x.node".to_string())), "graph/o/x.node");
    assert_eq!(resolve_node_source_file("graph", &n, false, None), "graph/spec/x.node");
    assert_eq!(fallback_source_path("adr", "y"), "graph/adr/y.node");
    assert!(is_node_file_for(Some("x"), Some("node"), "x"));
    assert!(!is_node_file_for(Some("x"), Some("md"), "x"));
}

#[test]
fn node_files_read_back() {
    let text = node_file_text("my-id", "service", "# Title\n\nBody.");
    assert_eq!(text, "---\nid: my-id\ncategory: service\n---\n# Title\n\nBody.\n");
    let n = NodeParser::parse(&text).unwrap();
    assert_eq!(n.id, "my-id");
    assert_eq!(n.category, "service");
    assert_eq!(n.body, "# Title\n\nBody.\n");
    let (yaml, body) = NodeParser::split(&text).expect("framed");
    assert_eq!(yaml, "id: my-id\ncategory: service\n");
    assert_eq!(body, "# Title\n\nBody.\n");
}

#[test]
fn scaffold_of_a_new_project() {
    let cats = scaffold_categories_list();
    assert_eq!(cats.len(), 8);
    let nodes = scaffold_nodes();
    assert_eq!(nodes.len(), 8);
    assert_eq!(nodes[0].0, "root");
    let g = graph_of(&nodes.iter().map(|(i, c, b)| (*i, *c, *b)).collect::<Vec<_>>());
    assert_eq!(g.nodes.len(), 8);
    for (_, c, _) in &nodes {
        assert!(cats.contains(c));
    }
}

#[test]
fn reference_extraction_helpers() {
    assert_eq!(extract_edge_refs_from_body("[edge: a ] [edge:]"), vec!["a"]);
    assert_eq!(extract_evidence_refs_from_body("[evidence:e]"), vec!["e"]);
    assert_eq!(extract_marker_refs("[x:1] [x:2", "[x:"), vec!["1"]);
    let g = graph_of(&[]);
    assert!(check_compatibility(&g, Some("1.0")).is_empty());
}
