use graphite::node_parser::NodeParser;
use graphite::Severity;

#[test]
fn test_valid_knowledge_node_parses() {
    let source = "\
---\n\
id: my-node\n\
category: service\n\
---\n\
# My Node\n\n\
Body content here.\n";

    let node = NodeParser::parse(source).expect("valid node should parse");

    assert_eq!(node.id, "my-node");
    assert_eq!(node.category, "service");
    assert_eq!(node.body, "# My Node\n\nBody content here.\n");
}

#[test]
fn node_parser_test_no_frontmatter_error() {
    let source = "just plain text\nno frontmatter here";

    let err = NodeParser::parse(source).expect_err("should fail without frontmatter");
    assert_eq!(err.rule, "node-parse-error");
    assert_eq!(err.severity, Severity::Error);
    assert!(
        err.detail.contains("frontmatter"),
        "error should mention frontmatter: {}",
        err.detail
    );
}

#[test]
fn node_parser_test_missing_id_error() {
    let source = "---\ncategory: service\n---\n# Body";

    let err = NodeParser::parse(source).expect_err("should fail when id is missing");
    assert_eq!(err.rule, "node-parse-error");
    assert!(err.detail.contains("id"), "error should mention id: {}", err.detail);
}

#[test]
fn test_missing_kind_error() {
    let source = "---\nid: my-node\n---\n# Body";

    let err = NodeParser::parse(source).expect_err("should fail when category is missing");
    assert_eq!(err.rule, "node-parse-error");
    assert!(
        err.detail.contains("category"),
        "error should mention category: {}",
        err.detail
    );
}

#[test]
fn test_missing_closing_delimiter_error() {
    let source = "---\nid: my-node\ncategory: service\n";

    let err = NodeParser::parse(source).expect_err("should fail without closing ---");
    assert_eq!(err.rule, "node-parse-error");
    assert!(
        err.detail.contains("closed") || err.detail.contains("closing"),
        "error should mention missing closing delimiter: {}",
        err.detail
    );
}

#[test]
fn test_empty_body_is_allowed() {
    let source = "---\nid: my-node\ncategory: service\n---";

    let node = NodeParser::parse(source).expect("node with empty body should parse");
    assert_eq!(node.id, "my-node");
    assert_eq!(node.category, "service");
    assert_eq!(node.body, "");
}

#[test]
fn node_parser_test_invalid_yaml_error() {
    let source = "---\nid: my-node\ncategory: [invalid\n---\n# Body";

    let err = NodeParser::parse(source).expect_err("invalid YAML should fail");
    assert_eq!(err.rule, "node-parse-error");
    assert!(err.detail.contains("YAML"), "error should mention YAML: {}", err.detail);
}

/// Verify a complete valid .node file parses correctly.
#[test]
fn test_valid_node_parses() {
    let source = "---\nid: my-node\ncategory: service\n---\n# My Node\n\nBody content here.\n";

    let node = NodeParser::parse(source).expect("valid node should parse");

    assert_eq!(node.id, "my-node");
    assert_eq!(node.category, "service");
    assert_eq!(node.body, "# My Node\n\nBody content here.\n");
}

/// A file without YAML frontmatter must be rejected.
#[test]
fn test_no_frontmatter_error() {
    let source = "just plain text\nno frontmatter here\n";

    let err = NodeParser::parse(source).expect_err("should fail without frontmatter");
    assert_eq!(err.rule, "node-parse-error");
    assert_eq!(err.severity, Severity::Error);
    assert!(
        err.detail.contains("frontmatter"),
        "error should mention frontmatter: {}",
        err.detail
    );
}

/// A file with YAML frontmatter but missing the `id` field must return an error.
#[test]
fn test_missing_id_error() {
    let source = "---\ncategory: spec\n---\n# Body\n";

    let err = NodeParser::parse(source).expect_err("should fail when id is missing");
    assert_eq!(err.rule, "node-parse-error");
    assert!(err.detail.contains("id"), "error should mention missing id: {}", err.detail);
}

/// A simple node with only id and category should parse successfully.
#[test]
fn test_minimal_node_parses() {
    let source = "---\nid: minimal\ncategory: spec\n---\n# Minimal\n\nSimple body.\n";

    let node = NodeParser::parse(source).expect("minimal node should parse");

    assert_eq!(node.id, "minimal");
    assert_eq!(node.category, "spec");
    assert_eq!(node.body, "# Minimal\n\nSimple body.\n");
}

#[test]
fn content_len_counts_bytes() {
    let source = "---\nid: é\ncategory: spec\n---\n# T\n";
    let node = NodeParser::parse(source).expect("node");
    assert_eq!(node.content_len, source.len());
    assert_eq!(node.id, "é");
}

#[test]
fn numeric_scalar_id_is_read_as_text() {
    let node = NodeParser::parse("---\nid: 123\ncategory: spec\n---\n").expect("node");
    assert_eq!(node.id, "123");
}

#[test]
fn unknown_fields_are_ignored() {
    let node = NodeParser::parse("---\nid: a\ncategory: b\nmetadata:\n  key: value\n---\nx").expect("node");
    assert_eq!(node.id, "a");
    assert_eq!(node.body, "x");
}

#[test]
fn empty_frontmatter_reports_missing_id() {
    let err = NodeParser::parse("---\n---\nbody").expect_err("no id");
    assert_eq!(err.detail, "Required field `id` is missing from the YAML frontmatter.");
    assert_eq!(err.fix, "Add `id: <value>` to the frontmatter.");
}

#[test]
fn body_after_closing_line() {
    let node = NodeParser::parse("---\nid: a\ncategory: b\n---\nline one\nline two").expect("node");
    assert_eq!(node.body, "line one\nline two");
}

#[test]
fn split_frames_frontmatter_and_body() {
    let (yaml, body) = NodeParser::split("---\nid: a\n---\nB\n").expect("framed");
    assert_eq!(yaml, "id: a\n");
    assert_eq!(body, "B\n");
}

#[test]
fn null_frontmatter_is_a_yaml_error() {
    let err = NodeParser::parse("---\n~\n---\nbody").expect_err("null frontmatter");
    assert_eq!(err.rule, "node-parse-error");
    assert!(err.detail.contains("invalid type: unit value"), "{}", err.detail);
}

#[test]
fn frontmatter_from_reader_entries() {
    let (id, cat) = NodeParser::frontmatter_fields("x", Ok(vec![("id".to_string(), "n1\n".to_string())])).unwrap();
    assert_eq!(id.as_deref(), Some("n1"));
    assert_eq!(cat, None);
    assert_eq!(NodeParser::frontmatter_fields("  \n", Err("e".to_string())).unwrap(), (None, None));
    assert_eq!(NodeParser::frontmatter_fields("x: [", Err("e".to_string())).unwrap_err(), "e");
}
