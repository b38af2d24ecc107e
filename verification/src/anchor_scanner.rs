//! Finding `@graphite:evidence <id>` anchors in the text of source files.
//!
//! Three comment syntaxes are recognized on a line of their own:
//! `// @graphite:evidence <id>`, `# @graphite:evidence <id>` and
//! `<!-- @graphite:evidence <id> -->`.
use vstd::prelude::*;
use vstd::string::*;

use crate::text::{
    chars_of, find_chars, find_from, lemma_find_from_bounds, lines, lines_from, matches_at,
    matches_at_exec, next_line, string_of, trim, trim_bounds,
};
use crate::{has_key, loc_view, store, value_of, Diagnostic, DiagnosticView, EvidenceMap, Severity};

verus! {

/// Scans source files for `@graphite:evidence` annotations.
pub struct AnchorScanner;

/// Evidence ids mapped to the places where anchors for them were found.
pub type EvidenceLocations = EvidenceMap;

pub const LINE_COMMENT_PREFIX: &'static str = "// @graphite:evidence ";

pub const HASH_COMMENT_PREFIX: &'static str = "# @graphite:evidence ";

pub const HTML_COMMENT_PREFIX: &'static str = "<!-- @graphite:evidence ";

pub const HTML_COMMENT_END: &'static str = "-->";

/// The id after `prefix` on a line: the line, trimmed, must start with `prefix`; the rest,
/// trimmed, is the id when not empty.
pub open spec fn line_comment_id(line: Seq<char>, prefix: Seq<char>) -> Option<Seq<char>> {
    let t = trim(line);
    if matches_at(t, prefix, 0) {
        let id = trim(t.subrange(prefix.len() as int, t.len() as int));
        if id.len() > 0 {
            Some(id)
        } else {
            None
        }
    } else {
        None
    }
}

/// The id of an HTML comment anchor on a line: the text between the first
/// `<!-- @graphite:evidence ` and the next `-->`, trimmed, when not empty.
pub open spec fn html_comment_id(line: Seq<char>) -> Option<Seq<char>> {
    let t = trim(line);
    match find_from(t, HTML_COMMENT_PREFIX@, 0) {
        None => None,
        Some(start) => {
            let after = t.subrange(start + HTML_COMMENT_PREFIX@.len(), t.len() as int);
            match find_from(after, HTML_COMMENT_END@, 0) {
                None => None,
                Some(end) => {
                    let id = trim(after.subrange(0, end));
                    if id.len() > 0 {
                        Some(id)
                    } else {
                        None
                    }
                },
            }
        },
    }
}

/// The anchor a line declares: a `//` anchor, else a `#` anchor, else an HTML one.
pub open spec fn line_anchor(line: Seq<char>) -> Option<Seq<char>> {
    let t = trim(line);
    match line_comment_id(t, LINE_COMMENT_PREFIX@) {
        Some(id) => Some(id),
        None => match line_comment_id(t, HASH_COMMENT_PREFIX@) {
            Some(id) => Some(id),
            None => html_comment_id(t),
        },
    }
}

/// The anchors of the first `k` lines: each id with its 1-based line number.
pub open spec fn anchors_upto(ls: Seq<Seq<char>>, k: int) -> Seq<(Seq<char>, nat)>
    decreases k,
{
    if k <= 0 || k > ls.len() {
        seq![]
    } else {
        anchors_upto(ls, k - 1) + match line_anchor(ls[k - 1]) {
            Some(id) => seq![(id, k as nat)],
            None => seq![],
        }
    }
}

/// The anchors of a text, line by line, each with its 1-based line number.
pub open spec fn anchors_in(content: Seq<char>) -> Seq<(Seq<char>, nat)> {
    anchors_upto(lines(content), lines(content).len() as int)
}

/// The evidence map after recording one more location for `id`.
pub open spec fn add_location(
    m: Seq<(Seq<char>, Seq<(Seq<char>, usize)>)>,
    id: Seq<char>,
    loc: (Seq<char>, usize),
) -> Seq<(Seq<char>, Seq<(Seq<char>, usize)>)> {
    store(m, id, if has_key(m, id) { value_of(m, id).push(loc) } else { seq![loc] })
}

/// The evidence map after recording the first `k` anchors, found in file `path`.
pub open spec fn add_anchors(
    m: Seq<(Seq<char>, Seq<(Seq<char>, usize)>)>,
    path: Seq<char>,
    anchors: Seq<(Seq<char>, nat)>,
    k: int,
) -> Seq<(Seq<char>, Seq<(Seq<char>, usize)>)>
    decreases k,
{
    if k <= 0 || k > anchors.len() {
        m
    } else {
        add_location(add_anchors(m, path, anchors, k - 1), anchors[k - 1].0, (path, anchors[k - 1].1 as usize))
    }
}

fn suffix(v: &Vec<char>, from: usize) -> (r: Vec<char>)
    requires
        from <= v@.len(),
    ensures
        r@ == v@.subrange(from as int, v@.len() as int),
{
    vstd::slice::slice_to_vec(vstd::slice::slice_subrange(v.as_slice(), from, v.len()))
}

fn range(v: &Vec<char>, from: usize, to: usize) -> (r: Vec<char>)
    requires
        from <= to <= v@.len(),
    ensures
        r@ == v@.subrange(from as int, to as int),
{
    vstd::slice::slice_to_vec(vstd::slice::slice_subrange(v.as_slice(), from, to))
}

fn trimmed(v: &Vec<char>) -> (r: Vec<char>)
    ensures
        r@ == trim(v@),
{
    let (a, b) = trim_bounds(v);
    range(v, a, b)
}

fn line_comment_chars(line: &Vec<char>, prefix: &Vec<char>) -> (r: Option<String>)
    ensures
        match line_comment_id(line@, prefix@) {
            Some(id) => r matches Some(s) && s@ == id,
            None => r is None,
        },
{
    let t = trimmed(line);
    if !matches_at_exec(&t, prefix, 0) {
        return None;
    }
    let id = trimmed(&suffix(&t, prefix.len()));
    if id.len() > 0 {
        Some(string_of(id.as_slice()))
    } else {
        None
    }
}

fn html_comment_chars(line: &Vec<char>) -> (r: Option<String>)
    ensures
        match html_comment_id(line@) {
            Some(id) => r matches Some(s) && s@ == id,
            None => r is None,
        },
{
    let marker = chars_of(HTML_COMMENT_PREFIX);
    let close = chars_of(HTML_COMMENT_END);
    let t = trimmed(line);
    let start = match find_chars(&t, &marker, 0) {
        Some(s) => s,
        None => {
            return None;
        },
    };
    proof {
        lemma_find_from_bounds(t@, marker@, 0);
    }
    let after = suffix(&t, start + marker.len());
    let end = match find_chars(&after, &close, 0) {
        Some(e) => e,
        None => {
            return None;
        },
    };
    proof {
        lemma_find_from_bounds(after@, close@, 0);
    }
    let id = trimmed(&range(&after, 0, end));
    if id.len() > 0 {
        Some(string_of(id.as_slice()))
    } else {
        None
    }
}

fn line_anchor_chars(line: &Vec<char>) -> (r: Option<String>)
    ensures
        match line_anchor(line@) {
            Some(id) => r matches Some(s) && s@ == id,
            None => r is None,
        },
{
    let t = trimmed(line);
    let slash = chars_of(LINE_COMMENT_PREFIX);
    if let Some(id) = line_comment_chars(&t, &slash) {
        return Some(id);
    }
    let hash = chars_of(HASH_COMMENT_PREFIX);
    if let Some(id) = line_comment_chars(&t, &hash) {
        return Some(id);
    }
    html_comment_chars(&t)
}

impl AnchorScanner {
    /// The id of a `prefix <id>` line comment, if `line` is one.
    pub fn extract_line_comment(line: &str, prefix: &str) -> (r: Option<String>)
        ensures
            match line_comment_id(line@, prefix@) {
                Some(id) => r matches Some(s) && s@ == id,
                None => r is None,
            },
    {
        line_comment_chars(&chars_of(line), &chars_of(prefix))
    }

    /// The id of a `<!-- @graphite:evidence <id> -->` comment, if `line` holds one.
    pub fn extract_html_comment(line: &str) -> (r: Option<String>)
        ensures
            match html_comment_id(line@) {
                Some(id) => r matches Some(s) && s@ == id,
                None => r is None,
            },
    {
        html_comment_chars(&chars_of(line))
    }

    /// Records in `map` every anchor of `content`, read from the file `path`, with its
    /// 1-based line number, in the order of the lines.
    pub fn scan_content(path: &str, content: &str, map: &mut EvidenceMap)
        ensures
            final(map)@ == add_anchors(old(map)@, path@, anchors_in(content@), anchors_in(content@).len() as int),
    {
        let v = chars_of(content);
        let ghost s = v@;
        let ghost ls = lines(s);
        let ghost m0 = map@;
        let ghost mut done: Seq<Seq<char>> = seq![];
        let mut i: usize = 0;
        let mut line_number: usize = 0;
        while i < v.len()
            invariant
                s == v@,
                s == content@,
                ls == lines(s),
                i <= v@.len(),
                line_number == done.len(),
                done.len() <= i,
                ls == done + lines_from(s, i as int),
                map@ == add_anchors(m0, path@, anchors_upto(ls, done.len() as int), anchors_upto(ls, done.len() as int).len() as int),
            decreases v.len() - i,
        {
            let (c, e) = next_line(&v, i);
            let line = range(&v, i, c);
            proof {
                assert(ls =~= done.push(line@) + lines_from(s, e + 1));
                assert(ls[done.len() as int] == line@);
                lemma_anchors_prefix(ls, done.len() as int + 1);
            }
            line_number = line_number + 1;
            let ghost before = anchors_upto(ls, done.len() as int);
            match line_anchor_chars(&line) {
                Some(id) => {
                    let ghost idv = id@;
                    map.push(id, (String::from_str(path), line_number));
                    proof {
                        let after = anchors_upto(ls, done.len() + 1 as int);
                        assert(after =~= before + seq![(idv, line_number as nat)]);
                        assert(after.len() == before.len() + 1);
                        assert(after[before.len() as int] == (idv, line_number as nat));
                        lemma_add_anchors_prefix(m0, path@, before, after);
                    }
                },
                None => {
                    proof {
                        let after = anchors_upto(ls, done.len() + 1 as int);
                        assert(after =~= before);
                    }
                },
            }
            proof {
                done = done.push(line@);
            }
            if e >= v.len() {
                i = v.len();
            } else {
                i = e + 1;
            }
        }
        proof {
            assert(done + lines_from(s, i as int) =~= done);
        }
    }
}

/// Extending the anchor list only extends the fold.
proof fn lemma_add_anchors_prefix(
    m: Seq<(Seq<char>, Seq<(Seq<char>, usize)>)>,
    path: Seq<char>,
    a: Seq<(Seq<char>, nat)>,
    b: Seq<(Seq<char>, nat)>,
)
    requires
        b.len() == a.len() + 1,
        forall|k: int| 0 <= k < a.len() ==> a[k] == b[k],
    ensures
        add_anchors(m, path, b, b.len() as int) == add_location(
            add_anchors(m, path, a, a.len() as int),
            b[a.len() as int].0,
            (path, b[a.len() as int].1 as usize),
        ),
{
    lemma_add_anchors_same(m, path, a, b, a.len() as int);
}

proof fn lemma_add_anchors_same(
    m: Seq<(Seq<char>, Seq<(Seq<char>, usize)>)>,
    path: Seq<char>,
    a: Seq<(Seq<char>, nat)>,
    b: Seq<(Seq<char>, nat)>,
    k: int,
)
    requires
        0 <= k <= a.len(),
        a.len() <= b.len(),
        forall|j: int| 0 <= j < a.len() ==> a[j] == b[j],
    ensures
        add_anchors(m, path, a, k) == add_anchors(m, path, b, k),
    decreases k,
{
    if k > 0 {
        lemma_add_anchors_same(m, path, a, b, k - 1);
    }
}

/// Anchors of a longer prefix of lines extend those of a shorter one.
proof fn lemma_anchors_prefix(ls: Seq<Seq<char>>, k: int)
    requires
        0 < k <= ls.len(),
    ensures
        anchors_upto(ls, k) == anchors_upto(ls, k - 1) + match line_anchor(ls[k - 1]) {
            Some(id) => seq![(id, k as nat)],
            None => seq![],
        },
{
}

pub const SCAN_ERROR: &'static str = "scan-error";

pub const MISSING_ROOT_DETAIL: &'static str = "Scan root does not exist: ";

pub const MISSING_ROOT_FIX: &'static str = "Provide a valid directory or file path.";

pub const MISSING_ROOT_HINT: &'static str = "The scan root must exist and be readable.";

pub const WALK_DETAIL_1: &'static str = "Failed to scan directory '";

pub const WALK_DETAIL_2: &'static str = "': ";

pub const WALK_FIX: &'static str = "Check that the directory exists and is readable.";

pub const WALK_HINT: &'static str = "Ensure the scan root is a readable directory.";

pub const READ_DIR_DETAIL_1: &'static str = "Cannot read directory '";

pub const READ_DIR_FIX: &'static str = "Ensure the directory is readable.";

pub const READ_DIR_HINT: &'static str = "Directory must exist and be readable.";

pub const ENTRY_DETAIL_1: &'static str = "Directory entry error: ";

pub const ENTRY_FIX: &'static str = "Check filesystem permissions.";

pub const ENTRY_HINT: &'static str = "All directory entries must be readable.";

pub const READ_FILE_DETAIL_1: &'static str = "Cannot read file '";

pub const READ_FILE_FIX: &'static str = "Ensure the file exists and is a valid UTF-8 text file.";

pub const READ_FILE_HINT: &'static str = "Only UTF-8 text files can contain evidence annotations.";

/// A `scan-error` diagnostic about `file`.
pub open spec fn scan_diag(file: Seq<char>, detail: Seq<char>, fix: Seq<char>, hint: Seq<char>) -> DiagnosticView {
    DiagnosticView {
        rule: SCAN_ERROR@,
        severity: Severity::Error,
        node_id: None,
        file: Some(file),
        detail,
        fix,
        example: None,
        hint,
    }
}

fn scan_diagnostic(file: &str, detail: String, fix: &str, hint: &str) -> (d: Diagnostic)
    ensures
        d@ == scan_diag(file@, detail@, fix@, hint@),
{
    Diagnostic {
        rule: String::from_str(SCAN_ERROR),
        severity: Severity::Error,
        node_id: None,
        file: Some(String::from_str(file)),
        detail,
        fix: String::from_str(fix),
        example: None,
        hint: String::from_str(hint),
    }
}

/// `s` with ASCII upper-case letters made lower-case (`str::to_ascii_lowercase`).
pub open spec fn ascii_lower(s: Seq<char>) -> Seq<char> {
    s.map_values(|c: char| if 'A' <= c <= 'Z' { (((c as u32) + 32) as u8) as char } else { c })
}

fn ascii_lower_exec(s: &str) -> (r: Vec<char>)
    ensures
        r@ == ascii_lower(s@),
{
    let v = chars_of(s);
    let mut out: Vec<char> = Vec::new();
    let mut i: usize = 0;
    while i < v.len()
        invariant
            i <= v@.len(),
            out@.len() == i,
            forall|k: int| 0 <= k < i ==> out@[k] == (if 'A' <= v@[k] <= 'Z' { (((v@[k] as u32) + 32) as u8) as char } else { v@[k] }),
        decreases v.len() - i,
    {
        let c = v[i];
        if c >= 'A' && c <= 'Z' {
            let code: u32 = (c as u32) + 32;
            let b: u8 = code as u8;
            out.push(b as char);
        } else {
            out.push(c);
        }
        i = i + 1;
    }
    assert(out@ =~= ascii_lower(v@));
    out
}

/// The file extensions whose files are scanned (compared in ASCII lower case).
pub open spec fn scanned_extension(e: Seq<char>) -> bool {
    e == "rs"@ || e == "ts"@ || e == "tsx"@ || e == "js"@ || e == "jsx"@ || e == "go"@ || e == "c"@
        || e == "cpp"@ || e == "h"@ || e == "hpp"@ || e == "java"@ || e == "kt"@ || e == "py"@
        || e == "rb"@ || e == "sh"@ || e == "yaml"@ || e == "yml"@ || e == "toml"@
        || e == "dockerfile"@ || e == "html"@ || e == "xml"@ || e == "md"@
}

fn is_scanned_extension(e: &str) -> (r: bool)
    ensures
        r == scanned_extension(e@),
{
    let eq = |a: &str| -> (b: bool)
        ensures
            b == (e@ == a@),
        { crate::text::str_eq(e, a) };
    eq("rs") || eq("ts") || eq("tsx") || eq("js") || eq("jsx") || eq("go") || eq("c") || eq("cpp")
        || eq("h") || eq("hpp") || eq("java") || eq("kt") || eq("py") || eq("rb") || eq("sh")
        || eq("yaml") || eq("yml") || eq("toml") || eq("dockerfile") || eq("html") || eq("xml")
        || eq("md")
}

/// A directory that the walk skips: hidden (name starting with `.`), `node_modules` or
/// `target`.
pub open spec fn skipped_dir(name: Seq<char>) -> bool {
    (name.len() > 0 && name[0] == '.') || name == "node_modules"@ || name == "target"@
}

/// How many times a file is scanned: once when its extension is one of the scanned ones,
/// once more when its name is `dockerfile` in any ASCII case.
pub open spec fn scan_passes(file_name: Option<Seq<char>>, extension: Option<Seq<char>>) -> nat {
    (match extension {
        Some(e) => if scanned_extension(ascii_lower(e)) { 1nat } else { 0nat },
        None => 0nat,
    }) + (match file_name {
        Some(n) => if ascii_lower(n) == "dockerfile"@ { 1nat } else { 0nat },
        None => 0nat,
    })
}

proof fn lemma_ascii_lower_idempotent(e: Seq<char>)
    ensures
        ascii_lower(ascii_lower(e)) == ascii_lower(e),
{
    let l = ascii_lower(e);
    assert forall|k: int| 0 <= k < l.len() implies !('A' <= #[trigger] l[k] <= 'Z') by {
        let c = e[k];
        if 'A' <= c <= 'Z' {
            let n: u32 = ((c as u32) + 32) as u32;
            assert(97 <= n <= 122);
            assert((n as u8) as u32 == n);
            assert(((n as u8) as char) as u32 == n);
        }
    }
    assert(ascii_lower(l) =~= l);
}

/// Files are recognised by extension in any ASCII case: the extensions of source, script,
/// configuration and markup files (`rs`, `ts`, `tsx`, `js`, `jsx`, `go`, `c`, `cpp`,
/// `h`, `hpp`, `java`, `kt`, `py`, `rb`, `sh`, `yaml`, `yml`, `toml`, `dockerfile`,
/// `html`, `xml`, `md`) make a file scanned whatever its name, and no other extension
/// does.
pub proof fn lemma_scanned_extensions(name: Option<Seq<char>>, e: Seq<char>)
    ensures
        scan_passes(name, Some(e)) == scan_passes(name, Some(ascii_lower(e))),
        ({
            let x = ascii_lower(e);
            x == seq!['r', 's'] || x == seq!['t', 's'] || x == seq!['t', 's', 'x'] || x == seq!['j', 's']
                || x == seq!['j', 's', 'x'] || x == seq!['g', 'o'] || x == seq!['c'] || x == seq!['c', 'p', 'p']
                || x == seq!['h'] || x == seq!['h', 'p', 'p'] || x == seq!['j', 'a', 'v', 'a']
                || x == seq!['k', 't'] || x == seq!['p', 'y'] || x == seq!['r', 'b'] || x == seq!['s', 'h']
                || x == seq!['y', 'a', 'm', 'l'] || x == seq!['y', 'm', 'l'] || x == seq!['t', 'o', 'm', 'l']
                || x == seq!['d', 'o', 'c', 'k', 'e', 'r', 'f', 'i', 'l', 'e'] || x == seq!['h', 't', 'm', 'l']
                || x == seq!['x', 'm', 'l'] || x == seq!['m', 'd']
        }) <==> scan_passes(None, Some(e)) == 1,
        scan_passes(name, Some(e)) >= scan_passes(None, Some(e)),
{
    lemma_ascii_lower_idempotent(e);
    reveal_strlit("rs");
    assert("rs"@ =~= seq!['r', 's']);
    reveal_strlit("ts");
    assert("ts"@ =~= seq!['t', 's']);
    reveal_strlit("tsx");
    assert("tsx"@ =~= seq!['t', 's', 'x']);
    reveal_strlit("js");
    assert("js"@ =~= seq!['j', 's']);
    reveal_strlit("jsx");
    assert("jsx"@ =~= seq!['j', 's', 'x']);
    reveal_strlit("go");
    assert("go"@ =~= seq!['g', 'o']);
    reveal_strlit("c");
    assert("c"@ =~= seq!['c']);
    reveal_strlit("cpp");
    assert("cpp"@ =~= seq!['c', 'p', 'p']);
    reveal_strlit("h");
    assert("h"@ =~= seq!['h']);
    reveal_strlit("hpp");
    assert("hpp"@ =~= seq!['h', 'p', 'p']);
    reveal_strlit("java");
    assert("java"@ =~= seq!['j', 'a', 'v', 'a']);
    reveal_strlit("kt");
    assert("kt"@ =~= seq!['k', 't']);
    reveal_strlit("py");
    assert("py"@ =~= seq!['p', 'y']);
    reveal_strlit("rb");
    assert("rb"@ =~= seq!['r', 'b']);
    reveal_strlit("sh");
    assert("sh"@ =~= seq!['s', 'h']);
    reveal_strlit("yaml");
    assert("yaml"@ =~= seq!['y', 'a', 'm', 'l']);
    reveal_strlit("yml");
    assert("yml"@ =~= seq!['y', 'm', 'l']);
    reveal_strlit("toml");
    assert("toml"@ =~= seq!['t', 'o', 'm', 'l']);
    reveal_strlit("dockerfile");
    assert("dockerfile"@ =~= seq!['d', 'o', 'c', 'k', 'e', 'r', 'f', 'i', 'l', 'e']);
    reveal_strlit("html");
    assert("html"@ =~= seq!['h', 't', 'm', 'l']);
    reveal_strlit("xml");
    assert("xml"@ =~= seq!['x', 'm', 'l']);
    reveal_strlit("md");
    assert("md"@ =~= seq!['m', 'd']);
}

impl AnchorScanner {
    /// Whether the directory walk skips a directory with this name.
    pub fn is_skipped_dir(name: &str) -> (r: bool)
        ensures
            r == skipped_dir(name@),
    {
        let v = chars_of(name);
        (v.len() > 0 && v[0] == '.') || crate::text::str_eq(name, "node_modules") || crate::text::str_eq(name, "target")
    }

    /// How many times the directory walk scans a file with this name and extension.
    pub fn file_scan_passes(file_name: Option<&str>, extension: Option<&str>) -> (r: usize)
        ensures
            r == scan_passes(
                match file_name { Some(n) => Some(n@), None => None },
                match extension { Some(e) => Some(e@), None => None },
            ),
    {
        let by_ext: usize = match extension {
            Some(e) => {
                let lower = string_of(ascii_lower_exec(e).as_slice());
                if is_scanned_extension(lower.as_str()) { 1 } else { 0 }
            },
            None => 0,
        };
        let by_name: usize = match file_name {
            Some(n) => {
                let lower = string_of(ascii_lower_exec(n).as_slice());
                if crate::text::str_eq(lower.as_str(), "dockerfile") { 1 } else { 0 }
            },
            None => 0,
        };
        by_ext + by_name
    }

    /// The error for a scan root that does not exist.
    pub fn missing_root_error(root: &str) -> (d: Diagnostic)
        ensures
            d@ == scan_diag(root@, MISSING_ROOT_DETAIL@ + root@, MISSING_ROOT_FIX@, MISSING_ROOT_HINT@),
    {
        let mut detail = String::from_str(MISSING_ROOT_DETAIL);
        detail.append(root);
        scan_diagnostic(root, detail, MISSING_ROOT_FIX, MISSING_ROOT_HINT)
    }

    /// The error for a directory walk that failed with `inner`.
    pub fn walk_error(root: &str, inner: &Diagnostic) -> (d: Diagnostic)
        ensures
            d@ == scan_diag(root@, WALK_DETAIL_1@ + root@ + WALK_DETAIL_2@ + inner.detail@, WALK_FIX@, WALK_HINT@),
    {
        let mut detail = String::from_str(WALK_DETAIL_1);
        detail.append(root);
        detail.append(WALK_DETAIL_2);
        detail.append(inner.detail.as_str());
        scan_diagnostic(root, detail, WALK_FIX, WALK_HINT)
    }

    /// The error for a directory that cannot be listed.
    pub fn read_dir_error(dir: &str, err: &str) -> (d: Diagnostic)
        ensures
            d@ == scan_diag(dir@, READ_DIR_DETAIL_1@ + dir@ + WALK_DETAIL_2@ + err@, READ_DIR_FIX@, READ_DIR_HINT@),
    {
        let mut detail = String::from_str(READ_DIR_DETAIL_1);
        detail.append(dir);
        detail.append(WALK_DETAIL_2);
        detail.append(err);
        scan_diagnostic(dir, detail, READ_DIR_FIX, READ_DIR_HINT)
    }

    /// The error for a directory entry that cannot be read.
    pub fn entry_error(dir: &str, err: &str) -> (d: Diagnostic)
        ensures
            d@ == scan_diag(dir@, ENTRY_DETAIL_1@ + err@, ENTRY_FIX@, ENTRY_HINT@),
    {
        let mut detail = String::from_str(ENTRY_DETAIL_1);
        detail.append(err);
        scan_diagnostic(dir, detail, ENTRY_FIX, ENTRY_HINT)
    }

    /// The error for a file that cannot be read as text.
    pub fn read_file_error(path: &str, err: &str) -> (d: Diagnostic)
        ensures
            d@ == scan_diag(path@, READ_FILE_DETAIL_1@ + path@ + WALK_DETAIL_2@ + err@, READ_FILE_FIX@, READ_FILE_HINT@),
    {
        let mut detail = String::from_str(READ_FILE_DETAIL_1);
        detail.append(path);
        detail.append(WALK_DETAIL_2);
        detail.append(err);
        scan_diagnostic(path, detail, READ_FILE_FIX, READ_FILE_HINT)
    }
}


// ---------------------------------------------------------------------------
// Walking a scan root
// ---------------------------------------------------------------------------

/// The optional view of an optional string slice.
pub open spec fn opt_str(o: Option<String>) -> Option<Seq<char>> {
    match o {
        Some(s) => Some(s@),
        None => None,
    }
}

/// One entry of a listed directory, as the walk reads it.
pub struct DirEntry {
    /// The entry's path.
    pub path: String,
    /// Its file name, when it has one that is valid UTF-8.
    pub name: Option<String>,
    /// Its extension, when it has one that is valid UTF-8.
    pub extension: Option<String>,
    /// Whether it is a directory.
    pub is_dir: bool,
    /// Whether it is a regular file.
    pub is_file: bool,
}

/// What the walk needs done next.
pub enum ScanAction {
    /// Find out whether `path` exists and whether it is a directory.
    Probe(String),
    /// List the entries of directory `path`.
    ListDir(String),
    /// Read file `path` as text.
    ReadFile(String),
    /// The walk is over; its outcome is ready.
    Done,
}

/// What doing an action gave.
pub enum ScanEvent {
    /// The probed root does not exist.
    Missing,
    /// The probed root is a directory.
    Directory,
    /// The probed root exists and is not a directory.
    File,
    /// The entries of the listed directory (each one or the error reading it), or the
    /// error listing it.
    Listed(Result<Vec<Result<DirEntry, String>>, String>),
    /// The text of the read file, or the error reading it.
    Read(Result<String, String>),
}

/// Work that the walk has still to do.
pub enum Pending {
    /// Walk a directory.
    Dir(String),
    /// Scan a file, the given number of times.
    File(String, usize),
    /// Fail on an unreadable entry of a directory.
    EntryError(String, String),
}

/// The view of pending work.
pub enum PendingView {
    Dir(Seq<char>),
    File(Seq<char>, nat),
    EntryError(Seq<char>, Seq<char>),
}

impl View for Pending {
    type V = PendingView;

    open spec fn view(&self) -> PendingView {
        match self {
            Pending::Dir(p) => PendingView::Dir(p@),
            Pending::File(p, n) => PendingView::File(p@, *n as nat),
            Pending::EntryError(d, e) => PendingView::EntryError(d@, e@),
        }
    }
}

/// The walk of a scan root: depth-first, directories in the order listed, skipping
/// hidden, `node_modules` and `target` directories, scanning the files whose extension
/// or name marks them as source (see [`scan_passes`]).
pub struct ScanWalk {
    root: String,
    probed: bool,
    root_is_dir: bool,
    stack: Vec<Pending>,
    current: Option<Pending>,
    map: EvidenceMap,
    outcome: Option<Result<(), Diagnostic>>,
}

/// The view of a walk.
pub struct ScanWalkView {
    pub root: Seq<char>,
    pub probed: bool,
    pub root_is_dir: bool,
    /// The work still to do; the last element is done first.
    pub stack: Seq<PendingView>,
    /// The work whose action was handed out last.
    pub current: Option<PendingView>,
    pub map: Seq<(Seq<char>, Seq<(Seq<char>, usize)>)>,
    /// `Some` once the walk is over: `Ok` or its error.
    pub outcome: Option<Result<(), DiagnosticView>>,
}

impl View for ScanWalk {
    type V = ScanWalkView;

    closed spec fn view(&self) -> ScanWalkView {
        ScanWalkView {
            root: self.root@,
            probed: self.probed,
            root_is_dir: self.root_is_dir,
            stack: self.stack@.map_values(|p: Pending| p@),
            current: match self.current {
                Some(p) => Some(p@),
                None => None,
            },
            map: self.map@,
            outcome: match self.outcome {
                Some(Ok(())) => Some(Ok(())),
                Some(Err(d)) => Some(Err(d@)),
                None => None,
            },
        }
    }
}

/// The view of an action.
pub enum ScanActionView {
    Probe(Seq<char>),
    ListDir(Seq<char>),
    ReadFile(Seq<char>),
    Done,
}

pub open spec fn action_view(a: ScanAction) -> ScanActionView {
    match a {
        ScanAction::Probe(p) => ScanActionView::Probe(p@),
        ScanAction::ListDir(p) => ScanActionView::ListDir(p@),
        ScanAction::ReadFile(p) => ScanActionView::ReadFile(p@),
        ScanAction::Done => ScanActionView::Done,
    }
}

/// An error met during the walk of a directory root is reported as the failure to scan
/// the root, carrying the inner error's detail; at a file root it is reported as it is.
pub open spec fn walk_failure(w: ScanWalkView, inner: DiagnosticView) -> DiagnosticView {
    if w.root_is_dir {
        scan_diag(w.root, WALK_DETAIL_1@ + w.root + WALK_DETAIL_2@ + inner.detail, WALK_FIX@, WALK_HINT@)
    } else {
        inner
    }
}

/// The walk after handing out its next action, and that action: first the probe of the
/// root; then, taking the last pending work, the listing of a directory, the reading of a
/// file, or the failure on an unreadable entry; when no work is left, the end.
pub open spec fn next_step(w: ScanWalkView) -> (ScanWalkView, ScanActionView) {
    if w.outcome is Some {
        (ScanWalkView { current: None, ..w }, ScanActionView::Done)
    } else if !w.probed {
        (ScanWalkView { current: None, ..w }, ScanActionView::Probe(w.root))
    } else if w.stack.len() == 0 {
        (ScanWalkView { current: None, outcome: Some(Ok(())), ..w }, ScanActionView::Done)
    } else {
        let top = w.stack.last();
        let rest = w.stack.drop_last();
        match top {
            PendingView::Dir(p) => (ScanWalkView { stack: rest, current: Some(top), ..w }, ScanActionView::ListDir(p)),
            PendingView::File(p, _) => (ScanWalkView { stack: rest, current: Some(top), ..w }, ScanActionView::ReadFile(p)),
            PendingView::EntryError(d, e) => (
                ScanWalkView {
                    stack: rest,
                    current: None,
                    outcome: Some(Err(walk_failure(w, scan_diag(d, ENTRY_DETAIL_1@ + e, ENTRY_FIX@, ENTRY_HINT@)))),
                    ..w
                },
                ScanActionView::Done,
            ),
        }
    }
}

/// The work for one listed entry: a directory to walk unless skipped, a file to scan
/// when it is scanned at all, the failure for an unreadable entry, nothing otherwise.
pub open spec fn entry_work(dir: Seq<char>, e: Result<DirEntry, String>) -> Seq<PendingView> {
    match e {
        Err(msg) => seq![PendingView::EntryError(dir, msg@)],
        Ok(ent) => if ent.is_dir {
            if ent.name matches Some(n) && skipped_dir(n@) {
                seq![]
            } else {
                seq![PendingView::Dir(ent.path@)]
            }
        } else if ent.is_file {
            let passes = scan_passes(opt_str(ent.name), opt_str(ent.extension));
            if passes > 0 {
                seq![PendingView::File(ent.path@, passes)]
            } else {
                seq![]
            }
        } else {
            seq![]
        },
    }
}

/// The work for the entries from position `k` on, the last one first: pushed on the
/// stack, the first entry is done first.
pub open spec fn entries_work(dir: Seq<char>, es: Seq<Result<DirEntry, String>>, k: int) -> Seq<PendingView>
    decreases es.len() - k,
{
    if k < 0 || k >= es.len() {
        seq![]
    } else {
        entries_work(dir, es, k + 1) + entry_work(dir, es[k])
    }
}

/// The evidence map after scanning `content`, read from `path`, `n` times.
pub open spec fn scan_times(
    m: Seq<(Seq<char>, Seq<(Seq<char>, usize)>)>,
    path: Seq<char>,
    content: Seq<char>,
    n: nat,
) -> Seq<(Seq<char>, Seq<(Seq<char>, usize)>)>
    decreases n,
{
    if n == 0 {
        m
    } else {
        let a = anchors_in(content);
        add_anchors(scan_times(m, path, content, (n - 1) as nat), path, a, a.len() as int)
    }
}

/// The walk after the event answering its last action: the probe decides between a
/// missing root (the walk fails), a directory root (to be walked) and a file root (to be
/// scanned once); a listing adds the work for its entries, or fails; a read records the
/// anchors of the file, or fails. An event that does not answer the last action changes
/// nothing.
pub open spec fn after_event(w: ScanWalkView, e: ScanEvent) -> ScanWalkView {
    if w.outcome is Some {
        w
    } else if !w.probed {
        match e {
            ScanEvent::Missing => ScanWalkView {
                probed: true,
                outcome: Some(Err(scan_diag(w.root, MISSING_ROOT_DETAIL@ + w.root, MISSING_ROOT_FIX@, MISSING_ROOT_HINT@))),
                ..w
            },
            ScanEvent::Directory => ScanWalkView { probed: true, root_is_dir: true, stack: seq![PendingView::Dir(w.root)], ..w },
            ScanEvent::File => ScanWalkView { probed: true, root_is_dir: false, stack: seq![PendingView::File(w.root, 1)], ..w },
            _ => w,
        }
    } else {
        match (w.current, e) {
            (Some(PendingView::Dir(d)), ScanEvent::Listed(Err(msg))) => ScanWalkView {
                current: None,
                outcome: Some(Err(walk_failure(w, scan_diag(d, READ_DIR_DETAIL_1@ + d + WALK_DETAIL_2@ + msg@, READ_DIR_FIX@, READ_DIR_HINT@)))),
                ..w
            },
            (Some(PendingView::Dir(d)), ScanEvent::Listed(Ok(es))) => ScanWalkView {
                current: None,
                stack: w.stack + entries_work(d, es@, 0),
                ..w
            },
            (Some(PendingView::File(p, _)), ScanEvent::Read(Err(msg))) => ScanWalkView {
                current: None,
                outcome: Some(Err(walk_failure(w, scan_diag(p, READ_FILE_DETAIL_1@ + p + WALK_DETAIL_2@ + msg@, READ_FILE_FIX@, READ_FILE_HINT@)))),
                ..w
            },
            (Some(PendingView::File(p, n)), ScanEvent::Read(Ok(text))) => ScanWalkView {
                current: None,
                map: scan_times(w.map, p, text@, n),
                ..w
            },
            _ => w,
        }
    }
}

impl ScanWalk {
    fn fail_with(&self, inner: Diagnostic) -> (d: Diagnostic)
        ensures
            d@ == walk_failure(self@, inner@),
    {
        if self.root_is_dir {
            AnchorScanner::walk_error(self.root.as_str(), &inner)
        } else {
            inner
        }
    }

    /// Hands out the next action (and takes the pending work it is for).
    pub fn next_action(&mut self) -> (a: ScanAction)
        ensures
            (final(self)@, action_view(a)) == next_step(old(self)@),
    {
        if self.outcome.is_some() {
            self.current = None;
            return ScanAction::Done;
        }
        if !self.probed {
            self.current = None;
            return ScanAction::Probe(self.root.clone());
        }
        if self.stack.len() == 0 {
            self.current = None;
            self.outcome = Some(Ok(()));
            return ScanAction::Done;
        }
        let ghost before = self.stack@;
        let top = self.stack.pop().unwrap();
        assert(self.stack@.map_values(|p: Pending| p@) =~= before.map_values(|p: Pending| p@).drop_last());
        match top {
            Pending::Dir(p) => {
                let a = ScanAction::ListDir(p.clone());
                self.current = Some(Pending::Dir(p));
                a
            },
            Pending::File(p, n) => {
                let a = ScanAction::ReadFile(p.clone());
                self.current = Some(Pending::File(p, n));
                a
            },
            Pending::EntryError(d, e) => {
                let mut detail = String::from_str(ENTRY_DETAIL_1);
                detail.append(e.as_str());
                let inner = scan_diagnostic(d.as_str(), detail, ENTRY_FIX, ENTRY_HINT);
                let failure = self.fail_with(inner);
                self.current = None;
                self.outcome = Some(Err(failure));
                ScanAction::Done
            },
        }
    }

    fn push_entry_work(&mut self, dir: &str, e: &Result<DirEntry, String>)
        ensures
            final(self)@ == (ScanWalkView { stack: old(self)@.stack + entry_work(dir@, *e), ..old(self)@ }),
    {
        let ghost before = self.stack@;
        match e {
            Err(msg) => {
                self.stack.push(Pending::EntryError(String::from_str(dir), msg.clone()));
            },
            Ok(ent) => {
                if ent.is_dir {
                    let skip = match &ent.name {
                        Some(n) => AnchorScanner::is_skipped_dir(n.as_str()),
                        None => false,
                    };
                    if !skip {
                        self.stack.push(Pending::Dir(ent.path.clone()));
                    }
                } else if ent.is_file {
                    let name = match &ent.name {
                        Some(n) => Some(n.as_str()),
                        None => None,
                    };
                    let ext = match &ent.extension {
                        Some(x) => Some(x.as_str()),
                        None => None,
                    };
                    let passes = AnchorScanner::file_scan_passes(name, ext);
                    if passes > 0 {
                        self.stack.push(Pending::File(ent.path.clone(), passes));
                    }
                }
            },
        }
        assert(self.stack@.map_values(|p: Pending| p@) =~= before.map_values(|p: Pending| p@) + entry_work(dir@, *e));
    }

    fn scan_n(&mut self, path: &str, content: &str, n: usize)
        ensures
            final(self)@ == (ScanWalkView { map: scan_times(old(self)@.map, path@, content@, n as nat), ..old(self)@ }),
    {
        let mut k: usize = 0;
        while k < n
            invariant
                k <= n,
                self@ == (ScanWalkView { map: scan_times(old(self)@.map, path@, content@, k as nat), ..old(self)@ }),
            decreases n - k,
        {
            AnchorScanner::scan_content(path, content, &mut self.map);
            k = k + 1;
        }
    }

    /// Takes the answer to the last action.
    pub fn feed(&mut self, event: ScanEvent)
        ensures
            final(self)@ == after_event(old(self)@, event),
    {
        if self.outcome.is_some() {
            return;
        }
        if !self.probed {
            match event {
                ScanEvent::Missing => {
                    self.probed = true;
                    self.outcome = Some(Err(AnchorScanner::missing_root_error(self.root.as_str())));
                },
                ScanEvent::Directory => {
                    self.probed = true;
                    self.root_is_dir = true;
                    let mut stack = Vec::new();
                    stack.push(Pending::Dir(self.root.clone()));
                    self.stack = stack;
                    assert(self.stack@.map_values(|p: Pending| p@) =~= seq![PendingView::Dir(self.root@)]);
                },
                ScanEvent::File => {
                    self.probed = true;
                    self.root_is_dir = false;
                    let mut stack = Vec::new();
                    stack.push(Pending::File(self.root.clone(), 1));
                    self.stack = stack;
                    assert(self.stack@.map_values(|p: Pending| p@) =~= seq![PendingView::File(self.root@, 1)]);
                },
                _ => {},
            }
            return;
        }
        let current = self.current.take();
        match (current, event) {
            (Some(Pending::Dir(d)), ScanEvent::Listed(Err(msg))) => {
                let inner = AnchorScanner::read_dir_error(d.as_str(), msg.as_str());
                let failure = self.fail_with(inner);
                self.outcome = Some(Err(failure));
            },
            (Some(Pending::Dir(d)), ScanEvent::Listed(Ok(es))) => {
                let ghost base = self@;
                let mut k: usize = es.len();
                while k > 0
                    invariant
                        k <= es@.len(),
                        self@ == (ScanWalkView { stack: base.stack + entries_work(d@, es@, k as int), ..base }),
                    decreases k,
                {
                    self.push_entry_work(d.as_str(), &es[k - 1]);
                    proof {
                        assert(base.stack + entries_work(d@, es@, k as int) + entry_work(d@, es@[k - 1])
                            =~= base.stack + entries_work(d@, es@, k - 1));
                    }
                    k = k - 1;
                }
            },
            (Some(Pending::File(p, n)), ScanEvent::Read(Err(msg))) => {
                let inner = AnchorScanner::read_file_error(p.as_str(), msg.as_str());
                let failure = self.fail_with(inner);
                self.outcome = Some(Err(failure));
            },
            (Some(Pending::File(p, n)), ScanEvent::Read(Ok(text))) => {
                self.scan_n(p.as_str(), text.as_str(), n);
            },
            (c, _) => {
                self.current = c;
            },
        }
    }

    /// The outcome of the walk: the evidence found, or the error that ended it. A walk
    /// that is not over yields what was found so far.
    pub fn finish(self) -> (r: Result<EvidenceMap, Diagnostic>)
        ensures
            match self@.outcome {
                Some(Err(d)) => r matches Err(x) && x@ == d,
                _ => r matches Ok(m) && m@ == self@.map,
            },
    {
        match self.outcome {
            Some(Err(d)) => Err(d),
            _ => Ok(self.map),
        }
    }
}

/// A walk of `root` that has done nothing yet.
pub open spec fn walk_start(root: Seq<char>) -> ScanWalkView {
    ScanWalkView {
        root,
        probed: false,
        root_is_dir: false,
        stack: seq![],
        current: None,
        map: seq![],
        outcome: None,
    }
}

/// A file root is probed, read once, and the walk ends with the anchors of its text; a
/// root that does not exist ends the walk with the missing-root error.
pub proof fn lemma_file_root_walk(root: Seq<char>, text: String)
    ensures
        next_step(walk_start(root)).1 == ScanActionView::Probe(root),
        ({
            let w = after_event(next_step(walk_start(root)).0, ScanEvent::File);
            let (w2, a2) = next_step(w);
            let w3 = after_event(w2, ScanEvent::Read(Ok(text)));
            let (w4, a4) = next_step(w3);
            &&& a2 == ScanActionView::ReadFile(root)
            &&& a4 == ScanActionView::Done
            &&& w4.outcome == Some(Ok::<(), DiagnosticView>(()))
            &&& w4.map == scan_times(seq![], root, text@, 1)
        }),
        ({
            let w = after_event(next_step(walk_start(root)).0, ScanEvent::Missing);
            let (w2, a2) = next_step(w);
            &&& a2 == ScanActionView::Done
            &&& w2.outcome == Some(Err::<(), DiagnosticView>(
                scan_diag(root, MISSING_ROOT_DETAIL@ + root, MISSING_ROOT_FIX@, MISSING_ROOT_HINT@),
            ))
        }),
{
    let w = after_event(next_step(walk_start(root)).0, ScanEvent::File);
    assert(w.stack.last() == PendingView::File(root, 1));
    assert(w.stack.drop_last() =~= Seq::<PendingView>::empty());
}

/// Once a walk is over it stays over: its next action is the end, and no event changes
/// its outcome or the evidence it found.
pub proof fn lemma_finished_walk_stays(w: ScanWalkView, e: ScanEvent)
    requires
        w.outcome is Some,
    ensures
        next_step(w).1 == ScanActionView::Done,
        next_step(w).0.outcome == w.outcome,
        next_step(w).0.map == w.map,
        after_event(w, e) == w,
{
}

/// The walk after answering each of its next actions with `events`, in turn.
pub open spec fn walk_run(w: ScanWalkView, events: Seq<ScanEvent>) -> ScanWalkView
    decreases events.len(),
{
    if events.len() == 0 {
        w
    } else {
        walk_run(after_event(next_step(w).0, events[0]), events.drop_first())
    }
}

/// The file that an event gives the walk the text of: the file whose reading was handed
/// out, with its text and how many times it is scanned.
pub open spec fn file_read(w: ScanWalkView, e: ScanEvent) -> Seq<(Seq<char>, Seq<char>, nat)> {
    if w.outcome is None && w.probed {
        match (w.current, e) {
            (Some(PendingView::File(p, n)), ScanEvent::Read(Ok(text))) => seq![(p, text@, n)],
            _ => seq![],
        }
    } else {
        seq![]
    }
}

/// The files, with their texts, that a run of the walk over `events` reads, in order.
pub open spec fn files_read(w: ScanWalkView, events: Seq<ScanEvent>) -> Seq<(Seq<char>, Seq<char>, nat)>
    decreases events.len(),
{
    if events.len() == 0 {
        seq![]
    } else {
        let w1 = next_step(w).0;
        file_read(w1, events[0]) + files_read(after_event(w1, events[0]), events.drop_first())
    }
}

/// The evidence map after scanning each file, in order, its number of times.
pub open spec fn scan_files(
    m: Seq<(Seq<char>, Seq<(Seq<char>, usize)>)>,
    files: Seq<(Seq<char>, Seq<char>, nat)>,
) -> Seq<(Seq<char>, Seq<(Seq<char>, usize)>)>
    decreases files.len(),
{
    if files.len() == 0 {
        m
    } else {
        scan_files(scan_times(m, files[0].0, files[0].1, files[0].2), files.drop_first())
    }
}

/// What a walk finds is what scanning the files it read gives: after any sequence of
/// answers, the evidence map is that of the files read, in the order read, each scanned
/// its number of times, added to the map the walk started from.
pub proof fn lemma_walk_finds_files_read(w: ScanWalkView, events: Seq<ScanEvent>)
    ensures
        walk_run(w, events).map == scan_files(w.map, files_read(w, events)),
    decreases events.len(),
{
    if events.len() > 0 {
        let w1 = next_step(w).0;
        let w2 = after_event(w1, events[0]);
        let rest = events.drop_first();
        lemma_walk_finds_files_read(w2, rest);
        let f = file_read(w1, events[0]);
        let later = files_read(w2, rest);
        assert(files_read(w, events) == f + later);
        if f.len() == 0 {
            assert(f + later =~= later);
        } else {
            assert((f + later)[0] == f[0]);
            assert((f + later).drop_first() =~= later);
        }
    }
}

impl AnchorScanner {
    /// Starts scanning `root` for `@graphite:evidence` annotations: a directory root is
    /// walked recursively, a file root is scanned alone; the caller answers each action of
    /// the walk (see [`ScanWalk::next_action`], [`ScanWalk::feed`]).
    pub fn scan(root: &str) -> (w: ScanWalk)
        ensures
            w@ == walk_start(root@),
    {
        let w = ScanWalk {
            root: String::from_str(root),
            probed: false,
            root_is_dir: false,
            stack: Vec::new(),
            current: None,
            map: EvidenceMap::new(),
            outcome: None,
        };
        assert(w@.stack =~= Seq::<PendingView>::empty());
        w
    }
}

} // verus!
