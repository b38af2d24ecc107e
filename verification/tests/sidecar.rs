use graphite::sidecar::{parse_index, SidecarRead, SidecarResolver};

fn anchors(pairs: &[(&str, &str)]) -> SidecarRead {
    SidecarRead::Anchors(pairs.iter().map(|(i, p)| (i.to_string(), p.to_string())).collect())
}

#[test]
fn sidecar_not_found_returns_empty() {
    let map = SidecarResolver::resolve_sidecar(
        "main.rs",
        "main.rs.graphite",
        SidecarRead::Absent,
        &Ok("fn main() {}".to_string()),
    )
    .unwrap();
    assert!(map.is_empty());
}

#[test]
fn substring_pattern_matches_line() {
    let src = "app.py";
    let map = SidecarResolver::resolve_sidecar(
        src,
        "app.py.graphite",
        anchors(&[("login-flow", "evidence line")]),
        &Ok("# this is the evidence line\ndef login(): pass\n".to_string()),
    )
    .unwrap();
    let locations = map.get("login-flow").unwrap();
    assert_eq!(locations.len(), 1);
    assert_eq!(locations[0].1, 1);
}

#[test]
fn jsonpath_pattern_resolves() {
    let map = SidecarResolver::resolve_sidecar(
        "config.json",
        "config.json.graphite",
        anchors(&[("auth-service", "$.service.name")]),
        &Ok(r#"{"service": {"name": "auth", "port": 8080}}"#.to_string()),
    )
    .unwrap();
    let locations = map.get("auth-service").unwrap();
    assert_eq!(locations.len(), 1);
    assert!(locations[0].1 >= 1);
}

#[test]
fn sidecar_find_returns_correct_path() {
    let found = SidecarResolver::find_sidecar("/tmp/dir/data.json", true);
    assert!(found.is_some());
    assert_eq!(found.unwrap(), "/tmp/dir/data.json.graphite");
}

#[test]
fn sidecar_find_returns_none_when_missing() {
    let found = SidecarResolver::find_sidecar("/tmp/dir/data.json", false);
    assert!(found.is_none());
}

#[test]
fn invalid_json_sidecar_returns_error() {
    let message = serde_json::from_str::<serde_json::Value>("not valid json")
        .unwrap_err()
        .to_string();
    let result = SidecarResolver::resolve_sidecar(
        "data.json",
        "data.json.graphite",
        SidecarRead::Malformed(message),
        &Ok("{}".to_string()),
    );
    assert!(result.is_err());
    assert_eq!(result.unwrap_err().rule, "sidecar-parse-error");
}

#[test]
fn unresolvable_pattern_returns_error() {
    let result = SidecarResolver::resolve_sidecar(
        "app.rs",
        "app.rs.graphite",
        anchors(&[("my-evid", "nothing-like-this")]),
        &Ok("fn main() {}".to_string()),
    );
    assert!(result.is_err());
    assert_eq!(result.unwrap_err().rule, "sidecar-unresolved-pattern");
}

#[test]
fn ambiguous_pattern_multiple_matches_error() {
    let result = SidecarResolver::resolve_sidecar(
        "app.rs",
        "app.rs.graphite",
        anchors(&[("my-evid", "TODO")]),
        &Ok("TODO\nsome code\nTODO\n".to_string()),
    );
    assert!(result.is_err());
    let d = result.unwrap_err();
    assert_eq!(d.rule, "sidecar-ambiguous-pattern");
    assert_eq!(
        d.detail,
        "Pattern 'TODO' for evidence 'my-evid' matched 2 locations (expected exactly 1)"
    );
    assert_eq!(d.fix, "Refine the pattern in 'app.rs.graphite' to match exactly one location.");
}

#[test]
fn sidecar_path_appends_suffix() {
    assert_eq!(SidecarResolver::sidecar_path("foo/bar.rs").unwrap(), "foo/bar.rs.graphite");
    assert!(SidecarResolver::sidecar_path("/").is_none());
    assert_eq!(SidecarResolver::sidecar_file_name("x.md"), "x.md.graphite");
}

#[test]
fn substring_lines_are_numbered_from_one() {
    let r = SidecarResolver::resolve_substring("a\r\nbb\nab\n", "b", "f.txt").unwrap();
    assert_eq!(r, vec![("f.txt".to_string(), 2), ("f.txt".to_string(), 3)]);
}

#[test]
fn empty_substring_pattern_is_an_error() {
    let d = SidecarResolver::resolve_substring("abc", "", "f.txt").unwrap_err();
    assert_eq!(d.rule, "sidecar-pattern-error");
    assert_eq!(d.detail, "Empty pattern string");
}

#[test]
fn jsonpath_finds_line_of_value() {
    let content = "{\n  \"items\": [\n    {\"name\": \"a\"},\n    {\"name\": \"b\"}\n  ]\n}\n";
    let r = SidecarResolver::resolve_jsonpath(content, "$.items[1].name", "x.json").unwrap();
    assert_eq!(r, vec![("x.json".to_string(), 4)]);
    let top = SidecarResolver::resolve_jsonpath("[10, 20]", "$[1]", "y.json").unwrap();
    assert_eq!(top, vec![("y.json".to_string(), 1)]);
}

#[test]
fn jsonpath_errors() {
    let content = r#"{"a": [1, 2], "b": {"c": true}}"#;
    let missing = SidecarResolver::resolve_jsonpath(content, "$.zzz", "f.json").unwrap_err();
    assert_eq!(missing.rule, "sidecar-unresolved-pattern");
    assert_eq!(missing.detail, "Key 'zzz' not found in JSON for pattern: $.zzz");
    let oob = SidecarResolver::resolve_jsonpath(content, "$.a[5]", "f.json").unwrap_err();
    assert_eq!(oob.detail, "Array index 5 out of bounds in JSONPath: $.a[5]");
    let bad = SidecarResolver::resolve_jsonpath(content, "$.a[x]", "f.json").unwrap_err();
    assert_eq!(bad.rule, "sidecar-pattern-error");
    assert_eq!(bad.detail, "Invalid array index in JSONPath: x");
    let unclosed = SidecarResolver::resolve_jsonpath(content, "$.a[1", "f.json").unwrap_err();
    assert_eq!(unclosed.detail, "Unclosed bracket in JSONPath: $.a[1");
    let not_json = SidecarResolver::resolve_jsonpath("nope", "$.a", "f.txt").unwrap_err();
    assert_eq!(not_json.rule, "sidecar-source-error");
    assert!(not_json.detail.starts_with("JSONPath pattern '$.a' used but 'f.txt' is not valid JSON: "));
}

#[test]
fn unreadable_source_is_reported() {
    let d = SidecarResolver::resolve_pattern("s.rs", &Err("denied".to_string()), "x").unwrap_err();
    assert_eq!(d.rule, "sidecar-source-error");
    assert_eq!(d.detail, "Cannot read source file 's.rs': denied");
}

#[test]
fn array_index_parsing() {
    let chars = |s: &str| s.chars().collect::<Vec<char>>();
    assert_eq!(parse_index(&chars("7")), Some(7));
    assert_eq!(parse_index(&chars("+007")), Some(7));
    assert_eq!(parse_index(&chars("")), None);
    assert_eq!(parse_index(&chars("+")), None);
    assert_eq!(parse_index(&chars("-1")), None);
    assert_eq!(parse_index(&chars("99999999999999999999999")), None);
}

#[test]
fn repeated_ids_collect_locations() {
    let map = SidecarResolver::resolve_sidecar(
        "s.txt",
        "s.txt.graphite",
        anchors(&[("e", "alpha"), ("e", "beta")]),
        &Ok("alpha\nbeta\n".to_string()),
    )
    .unwrap();
    assert_eq!(
        map.get("e").unwrap(),
        &vec![("s.txt".to_string(), 1), ("s.txt".to_string(), 2)]
    );
}

#[test]
fn unreadable_sidecar_is_a_parse_error() {
    let d = SidecarResolver::resolve_sidecar("s", "s.graphite", SidecarRead::Unreadable("gone".into()), &Ok(String::new()))
        .unwrap_err();
    assert_eq!(d.rule, "sidecar-parse-error");
    assert_eq!(d.detail, "Cannot read sidecar 's.graphite': gone");
    assert_eq!(d.file.as_deref(), Some("s.graphite"));
}

#[test]
fn value_is_located_by_its_first_occurrence() {
    let found = SidecarResolver::locate_value("a\nb \"x\"\n\"x\"", "\"x\"", "$.k", "f.json").unwrap();
    assert_eq!(found, vec![("f.json".to_string(), 2)]);
    let err = SidecarResolver::locate_value("abc", "zz", "$.k", "f.json").unwrap_err();
    assert_eq!(err.rule, "sidecar-unresolved-pattern");
    let walked = SidecarResolver::jsonpath_in_value("{\"k\":\"v\"}", "{\n  \"k\": \"v\"\n}", "$.k", "f.json").unwrap();
    assert_eq!(walked, vec![("f.json".to_string(), 2)]);
}
