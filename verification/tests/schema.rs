use graphite::schema::{
    check_yaml_section_duplicates, edges_from_mapping, kinds_from_mapping, schema_from_mapping,
    SchemaParser, DEFAULT_SCHEMA_YAML,
};

// The default schema YAML declares six edges (`parse_default_schema_yaml` and
// `default_schema_struct_matches` check that count), so no test here expects five.

#[test]
fn parse_default_schema_yaml() {
    let schema = SchemaParser::parse(DEFAULT_SCHEMA_YAML).expect("default schema should parse");
    assert_eq!(schema.categories.len(), 7, "should have 7 kinds");
    assert_eq!(schema.edges.len(), 6, "should have 6 edges");
}

#[test]
fn default_schema_struct_matches() {
    let schema = SchemaParser::default_schema();
    assert_eq!(schema.categories.len(), 7);
    assert_eq!(schema.edges.len(), 6);
}

#[test]
fn invalid_undefined_kind_rejected() {
    let yaml = "\
kinds:
  requirement: { key: REQ }
edges:
  bad_edge: { from: requirement, to: nonexistent }
";
    let err = SchemaParser::parse(yaml).expect_err("undefined kind should produce error");
    assert_eq!(err.rule, "schema-parse-error");
    assert!(err.detail.contains("nonexistent"), "detail should mention the missing kind");
    assert!(err.detail.contains("bad_edge"), "detail should mention the edge name");
}

#[test]
fn duplicate_kind_rejected() {
    let yaml = "\
kinds:
  requirement: { key: REQ }
  requirement: { key: REQ2 }
edges:
  test_edge: { from: requirement, to: requirement }
";
    let err = SchemaParser::parse(yaml).expect_err("duplicate kind should produce error");
    assert_eq!(err.rule, "schema-parse-error");
    assert!(err.detail.contains("Duplicate"), "detail should mention duplicate");
    assert!(err.detail.contains("requirement"), "detail should name the duplicate key");
}

#[test]
fn duplicate_edge_rejected() {
    let yaml = "\
kinds:
  a: { key: A }
  b: { key: B }
edges:
  same_edge: { from: a, to: b }
  same_edge: { from: b, to: a }
";
    let err = SchemaParser::parse(yaml).expect_err("duplicate edge should produce error");
    assert_eq!(err.rule, "schema-parse-error");
    assert!(err.detail.contains("Duplicate"), "detail should mention duplicate");
}

#[test]
fn builtin_kinds_allowed() {
    let yaml = "\
kinds:
  requirement: { key: REQ }
edges:
  test_edge: { from: requirement, to: evidence }
  idx_edge: { from: index, to: requirement }
  wild_edge: { from: any, to: any }
";
    let schema = SchemaParser::parse(yaml).expect("built-in kinds (evidence, index, any) should be valid");
    assert_eq!(schema.categories.len(), 1);
    assert_eq!(schema.edges.len(), 3);
}

#[test]
fn contains_edge_not_in_schema_is_builtin() {
    let yaml = "\
kinds:
  index: { key: IDX }
  service: { key: SVC }
edges:
  contains: { from: index, to: service }
";
    let schema = SchemaParser::parse(yaml).expect("edge named 'contains' with valid kinds should parse");
    assert!(schema.edges.iter().any(|e| e.name == "contains"));
}

#[test]
fn default_edges_have_expected_names() {
    let schema = SchemaParser::default_schema();
    let names: Vec<&str> = schema.edges.iter().map(|e| e.name.as_str()).collect();
    assert!(names.contains(&"implemented_by"), "expected implemented_by in edges");
    assert!(names.contains(&"verified_by"), "expected verified_by in edges");
    assert!(names.contains(&"describes"), "expected describes in edges");
    assert!(names.contains(&"references"), "expected references in edges");
}

#[test]
fn test_invalid_schema_undefined_category() {
    let yaml = "\
categories:
  requirement: { key: REQ }
edges:
  bad_edge: { from: requirement, to: nonexistent }
";
    let err = SchemaParser::parse(yaml).expect_err("undefined category should produce error");
    assert_eq!(err.rule, "schema-parse-error");
    assert!(
        err.detail.contains("nonexistent"),
        "detail should mention the missing category: {}",
        err.detail
    );
    assert!(err.detail.contains("bad_edge"), "detail should mention the edge name: {}", err.detail);
}

#[test]
fn test_duplicate_category_rejected() {
    let yaml = "\
categories:
  requirement: { key: REQ }
  requirement: { key: REQ2 }
edges:
  test_edge: { from: requirement, to: requirement }
";
    let err = SchemaParser::parse(yaml).expect_err("duplicate category should produce error");
    assert_eq!(err.rule, "schema-parse-error");
    assert!(err.detail.contains("Duplicate"), "detail should mention duplicate");
    assert!(err.detail.contains("requirement"), "detail should name the duplicate key");
}

#[test]
fn test_duplicate_edge_rejected() {
    let yaml = "\
categories:
  a: { key: A }
  b: { key: B }
edges:
  same_edge: { from: a, to: b }
  same_edge: { from: b, to: a }
";
    let err = SchemaParser::parse(yaml).expect_err("duplicate edge should produce error");
    assert_eq!(err.rule, "schema-parse-error");
    assert!(err.detail.contains("Duplicate"), "detail should mention duplicate");
}

#[test]
fn test_default_schema_contains_expected_edges() {
    let schema = SchemaParser::default_schema();
    let names: Vec<&str> = schema.edges.iter().map(|e| e.name.as_str()).collect();

    assert!(names.contains(&"implemented_by"), "default schema should contain implemented_by edge");
    assert!(names.contains(&"verified_by"), "default schema should contain verified_by edge");
    assert!(names.contains(&"describes"), "default schema should contain describes edge");
    assert!(names.contains(&"references"), "default schema should contain references edge");
}

#[test]
fn test_builtin_categories_allowed() {
    let yaml = "\
categories:
  requirement: { key: REQ }
edges:
  wildcard: { from: any, to: any }
";
    let schema = SchemaParser::parse(yaml).expect("built-in 'any' should be valid");
    assert_eq!(schema.categories.len(), 1, "only requirement should be in categories");
    assert_eq!(schema.edges.len(), 1, "wildcard edge should parse");
}

#[test]
fn test_contains_edge_kind_handled() {
    let yaml = "\
categories:
  index: { key: IDX }
  service: { key: SVC }
edges:
  contains: { from: index, to: service }
";
    let schema =
        SchemaParser::parse(yaml).expect("edge named 'contains' with valid categories should parse");
    assert!(schema.edges.iter().any(|e| e.name == "contains"));
}

#[test]
fn duplicate_count_and_texts() {
    let yaml = "kinds:\n  a: { key: A }\n  a: { key: B }\n  a: { key: C }\nedges:\n  e: { from: a, to: a }\n";
    let err = SchemaParser::parse(yaml).expect_err("dup");
    assert_eq!(err.detail, "Duplicate kinds name 'a' appears 3 times");
    assert_eq!(err.fix, "Remove duplicate 'a' entries from the 'kinds' section.");
    assert_eq!(err.hint, "Each kinds must have a unique name. Rename or remove the duplicate.");
}

#[test]
fn undefined_kind_example_uses_uppercase_key() {
    let yaml = "kinds:\n  a: { key: A }\nedges:\n  e: { from: ghost, to: a }\n";
    let err = SchemaParser::parse(yaml).expect_err("undefined");
    assert_eq!(err.detail, "Edge 'e' references undefined kind 'ghost' in 'from'");
    assert_eq!(err.example.as_deref(), Some("  kinds:\n    ghost:\n      key: GHOST\n"));
}

#[test]
fn missing_edges_section_is_a_yaml_error() {
    let err = SchemaParser::parse("kinds:\n  a: { key: A }\n").expect_err("no edges");
    assert!(err.detail.starts_with("Invalid YAML: "));
}

#[test]
fn default_schema_keys_in_order() {
    let schema = SchemaParser::default_schema();
    let keys: Vec<&str> = schema.categories.entries().iter().map(|e| e.1.key.as_str()).collect();
    assert_eq!(keys, vec!["REQ", "ADR", "SVC", "TST", "CPL", "RBK", "INF"]);
    assert_eq!(schema.categories.get("runbook").unwrap().key, "RBK");
}

#[test]
fn built_in_schema_is_what_its_yaml_parses_to() {
    let built = SchemaParser::default_schema();
    let parsed = SchemaParser::parse(DEFAULT_SCHEMA_YAML).expect("parses");
    let cats = |s: &graphite::Schema| {
        let mut v: Vec<(String, String)> =
            s.categories.entries().iter().map(|e| (e.0.clone(), e.1.key.clone())).collect();
        v.sort();
        v
    };
    let edges = |s: &graphite::Schema| {
        let mut v: Vec<(String, String, String)> =
            s.edges.iter().map(|e| (e.name.clone(), e.from.clone(), e.to.clone())).collect();
        v.sort();
        v
    };
    assert_eq!(cats(&built), cats(&parsed));
    assert_eq!(edges(&built), edges(&parsed));
}

#[test]
fn null_schema_document_is_a_yaml_error() {
    let err = SchemaParser::parse("~\n").expect_err("null schema");
    assert_eq!(err.rule, "schema-parse-error");
    assert!(err.detail.starts_with("Invalid YAML: "));
}

#[test]
fn block_style_sections_count_only_their_entries() {
    let kinds = "kinds:\n  a:\n    key: A\n  b:\n    key: B\n";
    assert!(check_yaml_section_duplicates(kinds, "kinds").is_ok());
    let yaml = "kinds:\n  a:\n    key: A\n  b:\n    key: B\nedges:\n  e1:\n    from: a\n    to: b\n  e2:\n    from: b\n    to: a\n";
    let schema = SchemaParser::parse(yaml).expect("block style parses");
    assert_eq!(schema.categories.len(), 2);
    assert_eq!(schema.edges.len(), 2);
    let dup = "kinds:\n  a:\n    key: A\n  a:\n    key: B\n";
    let err = check_yaml_section_duplicates(dup, "kinds").unwrap_err();
    assert_eq!(err.detail, "Duplicate kinds name 'a' appears 2 times");
}

#[test]
fn sections_read_from_reader_entries() {
    let kinds = kinds_from_mapping(Ok(vec![("a".to_string(), "key: A\n".to_string())])).unwrap();
    assert_eq!(kinds.get("a").unwrap().key, "A");
    assert_eq!(kinds_from_mapping(Err("bad".to_string())).unwrap_err(), "bad");
    let edges = edges_from_mapping(Ok(vec![("e".to_string(), "from: a\nto: b\n".to_string())])).unwrap();
    assert_eq!((edges[0].name.as_str(), edges[0].from.as_str(), edges[0].to.as_str()), ("e", "a", "b"));
    let missing = schema_from_mapping(Ok(vec![("kinds".to_string(), "a:\n  key: A\n".to_string())]));
    assert_eq!(missing.unwrap_err(), "missing field `edges`");
}
