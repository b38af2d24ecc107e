use graphite::config::Config;

#[test]
fn test_missing_file_returns_none() {
    assert!(Config::load(None).unwrap().is_none());
}

#[test]
fn test_full_config_parse() {
    let text = r#"
graph_dir: my-graph
output_dir: site
scan:
  - src
  - tests
  - graphite-core/src
"#;
    let config = Config::load(Some(Ok(text.to_string()))).unwrap().unwrap();
    assert_eq!(config.graph_dir, "my-graph");
    assert_eq!(config.output_dir, "site");
    assert_eq!(config.scan, vec!["src", "tests", "graphite-core/src"]);
}

#[test]
fn test_partial_config_uses_defaults() {
    let text = r#"
graph_dir: custom
"#;
    let config = Config::load(Some(Ok(text.to_string()))).unwrap().unwrap();
    assert_eq!(config.graph_dir, "custom");
    assert_eq!(config.output_dir, "docs");
    assert_eq!(config.scan, vec!["src", "tests"]);
}

#[test]
fn config_test_invalid_yaml_error() {
    assert!(Config::load(Some(Ok("invalid: [".to_string()))).is_err());
}

#[test]
fn test_load_or_default_missing() {
    let config = Config::load_or_default(None).unwrap();
    assert_eq!(config.graph_dir, "graph");
    assert_eq!(config.output_dir, "docs");
}

#[test]
fn invalid_yaml_message_is_prefixed() {
    let e = Config::from_yaml("invalid: [").unwrap_err();
    assert!(e.starts_with("Invalid graphite.yaml: "));
}

#[test]
fn read_error_message() {
    let e = Config::load(Some(Err("permission denied".to_string()))).unwrap_err();
    assert_eq!(e, "Cannot read 'graphite.yaml': permission denied");
}

#[test]
fn base_url_and_empty_document() {
    let c = Config::load(Some(Ok("base_url: /graphite/\n".to_string()))).unwrap().unwrap();
    assert_eq!(c.base_url, "/graphite/");
    let empty = Config::load(Some(Ok(String::new()))).unwrap().unwrap();
    assert_eq!(empty.graph_dir, "graph");
    assert_eq!(empty.base_url, "");
    let d = Config::default();
    assert_eq!(d.scan, vec!["src", "tests"]);
}

#[test]
fn wrong_field_type_is_an_error() {
    assert!(Config::from_yaml("scan: 5\n").is_err());
}

#[test]
fn null_document_is_an_error_and_blank_one_is_not() {
    let e = Config::from_yaml("~\n").unwrap_err();
    assert!(e.starts_with("Invalid graphite.yaml: invalid type: unit value"));
    assert!(Config::from_yaml("null").is_err());
    let blank = Config::from_yaml("  \n# only a comment\n").unwrap();
    assert_eq!(blank.output_dir, "docs");
}

#[test]
fn config_from_reader_entries() {
    let c = Config::from_mapping(Ok(vec![("graph_dir".to_string(), "g\n".to_string())])).unwrap();
    assert_eq!(c.graph_dir, "g");
    assert_eq!(c.output_dir, "docs");
    assert_eq!(Config::from_mapping(Err("oops".to_string())).unwrap_err(), "Invalid graphite.yaml: oops");
}
