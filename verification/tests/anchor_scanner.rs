use graphite::anchor_scanner::{AnchorScanner, DirEntry, ScanAction, ScanEvent};
use graphite::{Diagnostic, EvidenceMap};

/// Answers the walk's actions from an in-memory tree of files under `root`.
fn scan_tree(root: &str, files: &[(&str, &str)]) -> Result<EvidenceMap, Diagnostic> {
    let mut walk = AnchorScanner::scan(root);
    loop {
        match walk.next_action() {
            ScanAction::Probe(p) => {
                walk.feed(if p == root { ScanEvent::Directory } else { ScanEvent::Missing });
            }
            ScanAction::ListDir(d) => {
                let rel = d.strip_prefix(root).unwrap_or("").trim_start_matches('/').to_string();
                let mut seen: Vec<String> = Vec::new();
                let mut entries = Vec::new();
                for (f, _) in files {
                    let rest = if rel.is_empty() {
                        Some(*f)
                    } else {
                        f.strip_prefix(&format!("{rel}/"))
                    };
                    if let Some(rest) = rest {
                        let (name, is_dir) = match rest.split_once('/') {
                            Some((n, _)) => (n, true),
                            None => (rest, false),
                        };
                        if seen.iter().any(|s| s == name) {
                            continue;
                        }
                        seen.push(name.to_string());
                        let extension = std::path::Path::new(name)
                            .extension()
                            .map(|e| e.to_string_lossy().into_owned());
                        entries.push(Ok(DirEntry {
                            path: format!("{d}/{name}"),
                            name: Some(name.to_string()),
                            extension,
                            is_dir,
                            is_file: !is_dir,
                        }));
                    }
                }
                walk.feed(ScanEvent::Listed(Ok(entries)));
            }
            ScanAction::ReadFile(p) => {
                let rel = p.strip_prefix(root).unwrap().trim_start_matches('/');
                let content = files.iter().find(|(f, _)| *f == rel).map(|(_, c)| c.to_string());
                walk.feed(ScanEvent::Read(content.ok_or_else(|| "missing".to_string())));
            }
            ScanAction::Done => break,
        }
    }
    walk.finish()
}

#[test]
fn finds_line_comment_evidence() {
    let map = scan_tree("/tmp/t", &[("main.rs", "// @graphite:evidence auth-service\nfn main() {}\n")]).unwrap();
    assert_eq!(map.len(), 1);
    let locations = map.get("auth-service").unwrap();
    assert_eq!(locations.len(), 1);
    assert_eq!(locations[0].1, 1);
}

#[test]
fn finds_hash_comment_evidence() {
    let map = scan_tree("/tmp/t", &[("app.py", "# @graphite:evidence login-flow\ndef login(): pass\n")]).unwrap();
    let locations = map.get("login-flow").unwrap();
    assert_eq!(locations.len(), 1);
}

#[test]
fn finds_html_comment_evidence() {
    let map = scan_tree("/tmp/t", &[("page.html", "<!-- @graphite:evidence homepage -->\n<body></body>\n")]).unwrap();
    let locations = map.get("homepage").unwrap();
    assert_eq!(locations.len(), 1);
}

#[test]
fn collects_multiple_occurrences_of_same_id() {
    let map = scan_tree(
        "/tmp/t",
        &[("a.rs", "// @graphite:evidence shared\nfn a() {}\n"), ("b.rs", "// @graphite:evidence shared\nfn b() {}\n")],
    )
    .unwrap();
    assert_eq!(map.len(), 1);
    assert_eq!(map.get("shared").unwrap().len(), 2);
}

#[test]
fn empty_dir_returns_empty_map() {
    let map = scan_tree("/tmp/t", &[]).unwrap();
    assert!(map.is_empty());
}

#[test]
fn non_existent_dir_returns_error() {
    let mut walk = AnchorScanner::scan("/nonexistent/path");
    assert!(matches!(walk.next_action(), ScanAction::Probe(_)));
    walk.feed(ScanEvent::Missing);
    assert!(matches!(walk.next_action(), ScanAction::Done));
    let result = walk.finish();
    assert!(result.is_err());
    assert_eq!(result.unwrap_err().rule, "scan-error");
}

#[test]
fn skips_hidden_and_binary_dirs() {
    let map = scan_tree(
        "/tmp/t",
        &[(".hidden/foo.rs", "// @graphite:evidence hidden\n"), ("visible.rs", "// @graphite:evidence visible\n")],
    )
    .unwrap();
    assert!(map.get("hidden").is_none(), "should not scan hidden dirs");
    assert!(map.get("visible").is_some());
}

#[test]
fn file_without_evidence_returns_empty() {
    let map = scan_tree("/tmp/t", &[("main.rs", "fn main() { println!(\"hello\"); }\n")]).unwrap();
    assert!(map.is_empty());
}

#[test]
fn walk_visits_subdirectories_depth_first() {
    let map = scan_tree(
        "/r",
        &[
            ("a/x.rs", "// @graphite:evidence e\n"),
            ("b.md", "<!-- @graphite:evidence e -->\n"),
            ("node_modules/m.js", "// @graphite:evidence skipped\n"),
            ("target/t.rs", "// @graphite:evidence skipped\n"),
            ("notes.txt", "// @graphite:evidence skipped\n"),
        ],
    )
    .unwrap();
    assert!(map.get("skipped").is_none());
    assert_eq!(
        map.get("e").unwrap(),
        &vec![("/r/a/x.rs".to_string(), 1), ("/r/b.md".to_string(), 1)]
    );
}

#[test]
fn file_root_is_scanned_once_and_errors_are_not_wrapped() {
    let mut walk = AnchorScanner::scan("one.rs");
    walk.next_action();
    walk.feed(ScanEvent::File);
    assert!(matches!(walk.next_action(), ScanAction::ReadFile(p) if p == "one.rs"));
    walk.feed(ScanEvent::Read(Err("denied".to_string())));
    assert!(matches!(walk.next_action(), ScanAction::Done));
    let d = walk.finish().unwrap_err();
    assert_eq!(d.detail, "Cannot read file 'one.rs': denied");
}

#[test]
fn directory_errors_are_reported_for_the_root() {
    let mut walk = AnchorScanner::scan("root");
    walk.next_action();
    walk.feed(ScanEvent::Directory);
    assert!(matches!(walk.next_action(), ScanAction::ListDir(p) if p == "root"));
    walk.feed(ScanEvent::Listed(Ok(vec![Err("bad entry".to_string())])));
    assert!(matches!(walk.next_action(), ScanAction::Done));
    let d = walk.finish().unwrap_err();
    assert_eq!(d.rule, "scan-error");
    assert_eq!(d.detail, "Failed to scan directory 'root': Directory entry error: bad entry");
    assert_eq!(d.file.as_deref(), Some("root"));
}

#[test]
fn dockerfile_is_scanned_by_name_and_extension() {
    assert_eq!(AnchorScanner::file_scan_passes(Some("Dockerfile"), None), 1);
    assert_eq!(AnchorScanner::file_scan_passes(Some("dockerfile.yml"), Some("yml")), 1);
    assert_eq!(AnchorScanner::file_scan_passes(Some("x.RS"), Some("RS")), 1);
    assert_eq!(AnchorScanner::file_scan_passes(Some("x.txt"), Some("txt")), 0);
    assert!(AnchorScanner::is_skipped_dir(".git"));
    assert!(!AnchorScanner::is_skipped_dir("src"));
}
