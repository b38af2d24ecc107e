//! Resolving evidence anchors from `.graphite` sidecar files.
//!
//! A sidecar `source.ext.graphite` maps evidence ids to patterns that locate the evidence
//! in `source.ext`: `{ "anchors": { "<id>": { "pattern": "<pattern>" } } }`. A pattern
//! starting with `$.` or `$[` is a JSONPath into a JSON source (`$.key`, `$.key.sub`,
//! `$.key[0]`, `$.key[0].sub`); any other pattern is matched as a substring of each line.
use vstd::prelude::*;
use vstd::string::*;

use crate::json::{get_index, get_key, json_compact, json_compact_text, json_get_index, json_get_key, json_object, json_object_members, member_from};
use crate::text::{chars_of, contains, decimal, decimal_string, find_chars, find_from, lemma_find_from_bounds, lines, lines_from, matches_at, matches_at_exec, next_line, string_of};
use crate::yaml::pairs_view;
use crate::{has_key, locs_view, loc_view, store, value_of, Diagnostic, DiagnosticView, EvidenceMap, Severity};

verus! {

/// Resolves evidence anchors from `.graphite` sidecar files.
pub struct SidecarResolver;

/// Evidence ids mapped to the locations that sidecar patterns resolved to.
pub type SidecarMap = EvidenceMap;

pub const SIDECAR_SUFFIX: &'static str = ".graphite";

pub const PARSE_ERROR_RULE: &'static str = "sidecar-parse-error";

pub const UNRESOLVED_RULE: &'static str = "sidecar-unresolved-pattern";

pub const AMBIGUOUS_RULE: &'static str = "sidecar-ambiguous-pattern";

pub const SOURCE_ERROR_RULE: &'static str = "sidecar-source-error";

pub const PATTERN_ERROR_RULE: &'static str = "sidecar-pattern-error";

pub const Q: &'static str = "'";

pub const Q_COLON: &'static str = "': ";

pub const READ_SIDECAR_1: &'static str = "Cannot read sidecar '";

pub const READ_SIDECAR_FIX: &'static str = "Ensure the .graphite sidecar file exists and is readable.";

pub const READ_SIDECAR_HINT: &'static str = "Sidecar files are JSON and must be valid UTF-8.";

pub const INVALID_SIDECAR_1: &'static str = "Invalid JSON in sidecar '";

pub const INVALID_SIDECAR_FIX: &'static str = "Fix the JSON syntax in the sidecar file.";

pub const INVALID_SIDECAR_EXAMPLE: &'static str = "{\"anchors\": {\"my-id\": {\"pattern\": \"TODO\"}}}";

pub const INVALID_SIDECAR_HINT: &'static str = "Sidecar files must be valid JSON with an 'anchors' object.";

pub const PATTERN_1: &'static str = "Pattern '";

pub const FOR_EVIDENCE: &'static str = "' for evidence '";

pub const NO_MATCH_IN: &'static str = "' did not match anything in '";

pub const UPDATE_FIX_1: &'static str = "Update the pattern in '";

pub const UPDATE_FIX_2: &'static str = "' to match content in '";

pub const Q_DOT: &'static str = "'.";

pub const UNRESOLVED_HINT: &'static str = "Substring patterns match line content. JSONPath patterns navigate JSON structure.";

pub const MATCHED: &'static str = "' matched ";

pub const EXPECTED_ONE: &'static str = " locations (expected exactly 1)";

pub const REFINE_FIX_1: &'static str = "Refine the pattern in '";

pub const REFINE_FIX_2: &'static str = "' to match exactly one location.";

pub const AMBIGUOUS_HINT: &'static str = "Sidecar patterns must resolve to exactly one location.";

pub const READ_SOURCE_1: &'static str = "Cannot read source file '";

pub const READ_SOURCE_FIX: &'static str = "Ensure the source file exists and is a valid UTF-8 text file.";

pub const READ_SOURCE_HINT: &'static str = "Source files must be readable UTF-8 text.";

pub const NOT_JSON_1: &'static str = "JSONPath pattern '";

pub const NOT_JSON_2: &'static str = "' used but '";

pub const NOT_JSON_3: &'static str = "' is not valid JSON: ";

pub const NOT_JSON_FIX: &'static str = "Use a substring pattern for non-JSON files, or fix the JSON.";

pub const NOT_JSON_HINT: &'static str = "JSONPath patterns can only be used on .json files.";

pub const UNCLOSED_1: &'static str = "Unclosed bracket in JSONPath: ";

pub const UNCLOSED_FIX: &'static str = "Fix the JSONPath syntax.";

pub const UNCLOSED_HINT: &'static str = "Array access requires [index] syntax.";

pub const BAD_INDEX_1: &'static str = "Invalid array index in JSONPath: ";

pub const BAD_INDEX_FIX: &'static str = "Use a valid integer for array index.";

pub const BAD_INDEX_HINT: &'static str = "Array indices must be non-negative integers.";

pub const OOB_1: &'static str = "Array index ";

pub const OOB_2: &'static str = " out of bounds in JSONPath: ";

pub const OOB_FIX: &'static str = "Correct the array index in the pattern.";

pub const OOB_HINT: &'static str = "The JSON array must have at least index+1 elements.";

pub const KEY_1: &'static str = "Key '";

pub const KEY_2: &'static str = "' not found in JSON for pattern: ";

pub const KEY_FIX: &'static str = "Correct the key name in the JSONPath pattern.";

pub const KEY_HINT: &'static str = "The key must exist in the JSON structure.";

pub const LOCATE_1: &'static str = "Could not locate JSON value in file content for pattern: ";

pub const LOCATE_FIX: &'static str = "The JSONPath resolves but the resulting value was not found in the file.";

pub const LOCATE_HINT: &'static str = "Check that the file content matches the expected structure.";

pub const EMPTY_PATTERN_DETAIL: &'static str = "Empty pattern string";

pub const EMPTY_PATTERN_FIX: &'static str = "Provide a non-empty pattern.";

pub const EMPTY_PATTERN_HINT: &'static str = "Substring patterns must be at least one character.";

pub const NO_LINE_2: &'static str = "' did not match any line in '";

pub const NO_LINE_FIX: &'static str = "Adjust the pattern to match content in the source file.";

pub const NO_LINE_HINT: &'static str = "The pattern is matched as a substring against each line.";

/// A sidecar diagnostic.
pub open spec fn sc_diag(rule: Seq<char>, file: Seq<char>, detail: Seq<char>, fix: Seq<char>, example: Option<Seq<char>>, hint: Seq<char>) -> DiagnosticView {
    DiagnosticView { rule, severity: Severity::Error, node_id: None, file: Some(file), detail, fix, example, hint }
}

fn sc_diagnostic(rule: &str, file: &str, detail: String, fix: String, example: Option<String>, hint: &str) -> (d: Diagnostic)
    ensures
        d@ == sc_diag(rule@, file@, detail@, fix@, crate::opt_view(example), hint@),
{
    Diagnostic {
        rule: String::from_str(rule),
        severity: Severity::Error,
        node_id: None,
        file: Some(String::from_str(file)),
        detail,
        fix,
        example,
        hint: String::from_str(hint),
    }
}

fn cat2(a: &str, b: &str) -> (r: String)
    ensures
        r@ == a@ + b@,
{
    let mut r = String::from_str(a);
    r.append(b);
    r
}

fn cat3(a: &str, b: &str, c: &str) -> (r: String)
    ensures
        r@ == a@ + b@ + c@,
{
    let mut r = cat2(a, b);
    r.append(c);
    r
}

fn cat5(a: &str, b: &str, c: &str, d: &str, e: &str) -> (r: String)
    ensures
        r@ == a@ + b@ + c@ + d@ + e@,
{
    let mut r = cat3(a, b, c);
    r.append(d);
    r.append(e);
    r
}

// ---------------------------------------------------------------------------
// Substring patterns
// ---------------------------------------------------------------------------

/// The 1-based numbers of the first `k` lines that contain `pattern`.
pub open spec fn matching_lines_upto(ls: Seq<Seq<char>>, pattern: Seq<char>, k: int) -> Seq<nat>
    decreases k,
{
    if k <= 0 || k > ls.len() {
        seq![]
    } else {
        matching_lines_upto(ls, pattern, k - 1) + if contains(ls[k - 1], pattern) {
            seq![k as nat]
        } else {
            seq![]
        }
    }
}

/// The 1-based numbers of the lines of `content` that contain `pattern`.
pub open spec fn matching_lines(content: Seq<char>, pattern: Seq<char>) -> Seq<nat> {
    matching_lines_upto(lines(content), pattern, lines(content).len() as int)
}

proof fn lemma_matching_lines_upto_sound(ls: Seq<Seq<char>>, pattern: Seq<char>, k: int, j: int)
    requires
        0 <= j < matching_lines_upto(ls, pattern, k).len(),
    ensures
        1 <= matching_lines_upto(ls, pattern, k)[j] <= ls.len(),
        contains(ls[matching_lines_upto(ls, pattern, k)[j] - 1], pattern),
    decreases k,
{
    if !(k <= 0 || k > ls.len()) {
        let prev = matching_lines_upto(ls, pattern, k - 1);
        if j < prev.len() {
            lemma_matching_lines_upto_sound(ls, pattern, k - 1, j);
        }
    }
}

/// Every line number that a substring pattern resolves to names a line of the content
/// that contains the pattern.
pub proof fn lemma_substring_matches_are_sound(content: Seq<char>, pattern: Seq<char>, j: int)
    requires
        0 <= j < matching_lines(content, pattern).len(),
    ensures
        1 <= matching_lines(content, pattern)[j] <= lines(content).len(),
        contains(lines(content)[matching_lines(content, pattern)[j] - 1], pattern),
{
    let ls = lines(content);
    lemma_matching_lines_upto_sound(ls, pattern, ls.len() as int, j);
}

/// The locations in `file` of the lines numbered `ns`.
pub open spec fn at_lines(file: Seq<char>, ns: Seq<nat>) -> Seq<(Seq<char>, usize)> {
    ns.map_values(|n: nat| (file, n as usize))
}

/// Resolution of a substring pattern: every line that contains it, or the error for an
/// empty pattern or a pattern that no line contains.
pub open spec fn resolve_substring_spec(content: Seq<char>, pattern: Seq<char>, file: Seq<char>) -> Result<Seq<(Seq<char>, usize)>, DiagnosticView> {
    if pattern.len() == 0 {
        Err(sc_diag(PATTERN_ERROR_RULE@, file, EMPTY_PATTERN_DETAIL@, EMPTY_PATTERN_FIX@, None, EMPTY_PATTERN_HINT@))
    } else if matching_lines(content, pattern).len() == 0 {
        Err(sc_diag(UNRESOLVED_RULE@, file, PATTERN_1@ + pattern + NO_LINE_2@ + file + Q@, NO_LINE_FIX@, None, NO_LINE_HINT@))
    } else {
        Ok(at_lines(file, matching_lines(content, pattern)))
    }
}

/// The view of a resolution outcome.
pub open spec fn locs_result_view(r: Result<Vec<(String, usize)>, Diagnostic>) -> Result<Seq<(Seq<char>, usize)>, DiagnosticView> {
    match r {
        Ok(v) => Ok(locs_view(v@)),
        Err(d) => Err(d@),
    }
}

impl SidecarResolver {
    /// Resolves a substring pattern against the lines of `content`, read from `source_path`.
    pub fn resolve_substring(content: &str, pattern: &str, source_path: &str) -> (r: Result<Vec<(String, usize)>, Diagnostic>)
        ensures
            locs_result_view(r) == resolve_substring_spec(content@, pattern@, source_path@),
    {
        let p = chars_of(pattern);
        if p.len() == 0 {
            return Err(sc_diagnostic(PATTERN_ERROR_RULE, source_path, String::from_str(EMPTY_PATTERN_DETAIL), String::from_str(EMPTY_PATTERN_FIX), None, EMPTY_PATTERN_HINT));
        }
        let v = chars_of(content);
        let ghost s = v@;
        let ghost ls = lines(s);
        let ghost mut done: Seq<Seq<char>> = seq![];
        let mut results: Vec<(String, usize)> = Vec::new();
        let mut i: usize = 0;
        let mut line_number: usize = 0;
        while i < v.len()
            invariant
                s == v@,
                s == content@,
                ls == lines(s),
                i <= v@.len(),
                line_number == done.len(),
                done.len() <= i,
                ls == done + lines_from(s, i as int),
                locs_view(results@) == at_lines(source_path@, matching_lines_upto(ls, pattern@, done.len() as int)),
                p@ == pattern@,
            decreases v.len() - i,
        {
            let (c, e) = next_line(&v, i);
            let line = vstd::slice::slice_to_vec(vstd::slice::slice_subrange(v.as_slice(), i, c));
            proof {
                assert(ls =~= done.push(line@) + lines_from(s, e + 1));
                assert(ls[done.len() as int] == line@);
            }
            line_number = line_number + 1;
            let ghost before = matching_lines_upto(ls, pattern@, done.len() as int);
            if find_chars(&line, &p, 0).is_some() {
                let ghost prev = results@;
                let entry = (String::from_str(source_path), line_number);
                assert(loc_view(entry) == (source_path@, line_number));
                results.push(entry);
                proof {
                    assert(matching_lines_upto(ls, pattern@, done.len() + 1 as int) =~= before.push(line_number as nat));
                    assert(locs_view(results@) =~= locs_view(prev).push((source_path@, line_number)));
                    assert(at_lines(source_path@, before.push(line_number as nat)) =~= at_lines(source_path@, before).push((source_path@, line_number)));
                }
            } else {
                proof {
                    assert(matching_lines_upto(ls, pattern@, done.len() + 1 as int) =~= before);
                }
            }
            proof {
                done = done.push(line@);
            }
            if e >= v.len() {
                i = v.len();
            } else {
                i = e + 1;
            }
        }
        proof {
            assert(done + lines_from(s, i as int) =~= done);
        }
        if results.len() == 0 {
            return Err(sc_diagnostic(UNRESOLVED_RULE, source_path, cat5(PATTERN_1, pattern, NO_LINE_2, source_path, Q), String::from_str(NO_LINE_FIX), None, NO_LINE_HINT));
        }
        Ok(results)
    }
}


// ---------------------------------------------------------------------------
// JSONPath patterns
// ---------------------------------------------------------------------------

/// A pattern is a JSONPath when it starts with `$.` or `$[`.
pub open spec fn is_jsonpath(pattern: Seq<char>) -> bool {
    pattern.len() >= 2 && pattern[0] == '$' && (pattern[1] == '.' || pattern[1] == '[')
}

/// The path of a pattern without its leading `$.` (or, failing that, `$`).
pub open spec fn path_body(pattern: Seq<char>) -> Seq<char> {
    if pattern.len() >= 2 && pattern[0] == '$' && pattern[1] == '.' {
        pattern.subrange(2, pattern.len() as int)
    } else if pattern.len() >= 1 && pattern[0] == '$' {
        pattern.subrange(1, pattern.len() as int)
    } else {
        pattern
    }
}

/// The end of the key that starts at `i`: the first `.` or `[` at or after `i`, or the
/// length of the path.
pub open spec fn key_end(p: Seq<char>, i: int) -> int
    decreases p.len() - i,
{
    if i < 0 || i >= p.len() {
        p.len() as int
    } else if p[i] == '.' || p[i] == '[' {
        i
    } else {
        key_end(p, i + 1)
    }
}

pub proof fn lemma_key_end(p: Seq<char>, i: int)
    requires
        0 <= i <= p.len(),
    ensures
        i <= key_end(p, i) <= p.len(),
        key_end(p, i) < p.len() ==> (p[key_end(p, i)] == '.' || p[key_end(p, i)] == '['),
    decreases p.len() - i,
{
    if i < p.len() && !(p[i] == '.' || p[i] == '[') {
        lemma_key_end(p, i + 1);
    }
}

/// A decimal digit.
pub open spec fn is_digit(c: char) -> bool {
    '0' <= c && c <= '9'
}

/// The value of a decimal digit.
pub open spec fn digit_value(c: char) -> nat {
    (c as int - '0' as int) as nat
}

/// The value of a string of decimal digits.
pub open spec fn digits_value(s: Seq<char>) -> nat
    decreases s.len(),
{
    if s.len() == 0 {
        0
    } else {
        digits_value(s.drop_last()) * 10 + digit_value(s.last())
    }
}

/// What `str::parse::<usize>` accepts: an optional `+`, then one or more decimal digits
/// whose value fits in a `usize`.
/// The digits of a number: the text without one leading `+`.
pub open spec fn unsigned_digits(s: Seq<char>) -> Seq<char> {
    if s.len() > 0 && s[0] == '+' {
        s.subrange(1, s.len() as int)
    } else {
        s
    }
}

pub open spec fn parse_usize(s: Seq<char>) -> Option<nat> {
    let d = unsigned_digits(s);
    if d.len() > 0 && (forall|k: int| 0 <= k < d.len() ==> is_digit(#[trigger] d[k]))
        && digits_value(d) <= usize::MAX {
        Some(digits_value(d))
    } else {
        None
    }
}

pub open spec fn unclosed_diag(pattern: Seq<char>, file: Seq<char>) -> DiagnosticView {
    sc_diag(PATTERN_ERROR_RULE@, file, UNCLOSED_1@ + pattern, UNCLOSED_FIX@, None, UNCLOSED_HINT@)
}

pub open spec fn bad_index_diag(index_text: Seq<char>, file: Seq<char>) -> DiagnosticView {
    sc_diag(PATTERN_ERROR_RULE@, file, BAD_INDEX_1@ + index_text, BAD_INDEX_FIX@, None, BAD_INDEX_HINT@)
}

pub open spec fn out_of_bounds_diag(index: nat, pattern: Seq<char>, file: Seq<char>) -> DiagnosticView {
    sc_diag(UNRESOLVED_RULE@, file, OOB_1@ + decimal(index) + OOB_2@ + pattern, OOB_FIX@, None, OOB_HINT@)
}

pub open spec fn missing_key_diag(key: Seq<char>, pattern: Seq<char>, file: Seq<char>) -> DiagnosticView {
    sc_diag(UNRESOLVED_RULE@, file, KEY_1@ + key + KEY_2@ + pattern, KEY_FIX@, None, KEY_HINT@)
}

pub open spec fn not_json_diag(pattern: Seq<char>, file: Seq<char>, err: Seq<char>) -> DiagnosticView {
    sc_diag(SOURCE_ERROR_RULE@, file, NOT_JSON_1@ + pattern + NOT_JSON_2@ + file + NOT_JSON_3@ + err, NOT_JSON_FIX@, None, NOT_JSON_HINT@)
}

pub open spec fn locate_diag(pattern: Seq<char>, file: Seq<char>) -> DiagnosticView {
    sc_diag(UNRESOLVED_RULE@, file, LOCATE_1@ + pattern, LOCATE_FIX@, None, LOCATE_HINT@)
}

/// Follows the path `p` from position `i` on, starting at the JSON value `cur` (its
/// compact text): `[N]` steps into item `N` of an array (a `.` right after `]` is
/// skipped), a key steps into that member of an object (the `.` ending it is skipped; a
/// `[` ending it starts the next step); empty keys are skipped.
pub open spec fn walk(cur: Seq<char>, p: Seq<char>, i: int, pattern: Seq<char>, file: Seq<char>) -> Result<Seq<char>, DiagnosticView>
    decreases p.len() + 1 - i,
{
    if i < 0 || i >= p.len() {
        Ok(cur)
    } else if p[i] == '[' {
        match find_from(p, seq![']'], i) {
            None => Err(unclosed_diag(pattern, file)),
            Some(close) => {
                let index_text = p.subrange(i + 1, close);
                match parse_usize(index_text) {
                    None => Err(bad_index_diag(index_text, file)),
                    Some(n) => match json_get_index(cur, n) {
                        None => Err(out_of_bounds_diag(n, pattern, file)),
                        Some(next) => {
                            proof {
                                lemma_find_from_bounds(p, seq![']'], i);
                            }
                            let after = if close + 1 < p.len() && p[close + 1] == '.' {
                                close + 2
                            } else {
                                close + 1
                            };
                            walk(next, p, after, pattern, file)
                        },
                    },
                }
            },
        }
    } else {
        proof {
            lemma_key_end(p, i);
        }
        let end = key_end(p, i);
        let key = p.subrange(i, end);
        let after = if end < p.len() && p[end] == '[' {
            end
        } else {
            end + 1
        };
        if key.len() == 0 {
            walk(cur, p, after, pattern, file)
        } else {
            match json_get_key(cur, key) {
                None => Err(missing_key_diag(key, pattern, file)),
                Some(next) => walk(next, p, after, pattern, file),
            }
        }
    }
}

/// The number of `'\n'` in `s`.
pub open spec fn newline_count(s: Seq<char>) -> nat
    decreases s.len(),
{
    if s.len() == 0 {
        0
    } else {
        newline_count(s.drop_last()) + if s.last() == '\n' {
            1nat
        } else {
            0nat
        }
    }
}

/// Resolution of a JSONPath pattern: the line of the first occurrence, in the raw text,
/// of the compact text of the value that the path leads to.
pub open spec fn resolve_jsonpath_spec(content: Seq<char>, pattern: Seq<char>, file: Seq<char>) -> Result<Seq<(Seq<char>, usize)>, DiagnosticView> {
    match json_compact(content) {
        Err(e) => Err(not_json_diag(pattern, file, e)),
        Ok(root) => jsonpath_in(root, content, pattern, file),
    }
}

/// Resolution of a JSONPath pattern from the compact text `root` of the parsed content:
/// the path is followed from `root`, then the value found is located in `content`.
pub open spec fn jsonpath_in(root: Seq<char>, content: Seq<char>, pattern: Seq<char>, file: Seq<char>) -> Result<Seq<(Seq<char>, usize)>, DiagnosticView> {
    match walk(root, path_body(pattern), 0, pattern, file) {
        Err(d) => Err(d),
        Ok(target) => located(content, target, pattern, file),
    }
}

/// The line of the first occurrence of `target` in `content` (counted from 1), or the
/// error that it does not occur.
pub open spec fn located(content: Seq<char>, target: Seq<char>, pattern: Seq<char>, file: Seq<char>) -> Result<Seq<(Seq<char>, usize)>, DiagnosticView> {
    match find_from(content, target, 0) {
        Some(pos) => Ok(seq![(file, (newline_count(content.subrange(0, pos)) + 1) as usize)]),
        None => Err(locate_diag(pattern, file)),
    }
}

fn is_digit_exec(c: char) -> (r: bool)
    ensures
        r == is_digit(c),
{
    '0' <= c && c <= '9'
}

/// Parses an array index as `str::parse::<usize>` does.
pub fn parse_index(v: &Vec<char>) -> (r: Option<usize>)
    ensures
        match r {
            Some(n) => parse_usize(v@) == Some(n as nat),
            None => parse_usize(v@) is None,
        },
{
    let start: usize = if v.len() > 0 && v[0] == '+' {
        1
    } else {
        0
    };
    let ghost d = unsigned_digits(v@);
    assert(d =~= v@.subrange(start as int, v@.len() as int));
    if start == v.len() {
        return None;
    }
    let mut acc: usize = 0;
    let mut overflow = false;
    let mut i: usize = start;
    while i < v.len()
        invariant
            start <= i <= v@.len(),
            d == unsigned_digits(v@),
            d == v@.subrange(start as int, v@.len() as int),
            forall|k: int| start <= k < i ==> is_digit(#[trigger] v@[k]),
            !overflow ==> acc == digits_value(v@.subrange(start as int, i as int)),
            overflow ==> digits_value(v@.subrange(start as int, i as int)) > usize::MAX,
        decreases v.len() - i,
    {
        let c = v[i];
        if !is_digit_exec(c) {
            proof {
                assert(d[i - start] == c);
                assert(!is_digit(d[i - start]));
            }
            return None;
        }
        proof {
            assert(v@.subrange(start as int, i + 1).drop_last() =~= v@.subrange(start as int, i as int));
        }
        let dv = (c as u32 - '0' as u32) as usize;
        assert(dv == digit_value(c));
        if !overflow {
            match acc.checked_mul(10) {
                Some(m) => match m.checked_add(dv) {
                    Some(a) => {
                        acc = a;
                    },
                    None => {
                        overflow = true;
                    },
                },
                None => {
                    overflow = true;
                },
            }
        }
        i = i + 1;
    }
    proof {
        assert(v@.subrange(start as int, v@.len() as int) == d);
        assert forall|k: int| 0 <= k < d.len() implies is_digit(#[trigger] d[k]) by {
            assert(d[k] == v@[start + k]);
        }
    }
    if overflow {
        None
    } else {
        Some(acc)
    }
}

fn key_end_exec(p: &Vec<char>, i: usize) -> (e: usize)
    requires
        i <= p@.len(),
    ensures
        e == key_end(p@, i as int),
{
    let mut e = i;
    while e < p.len() && p[e] != '.' && p[e] != '['
        invariant
            i <= e <= p@.len(),
            key_end(p@, i as int) == key_end(p@, e as int),
        decreases p.len() - e,
    {
        e = e + 1;
    }
    e
}

fn count_newlines(v: &Vec<char>, end: usize) -> (n: usize)
    requires
        end <= v@.len(),
    ensures
        n == newline_count(v@.subrange(0, end as int)),
        n <= end,
{
    let mut n: usize = 0;
    let mut i: usize = 0;
    while i < end
        invariant
            i <= end <= v@.len(),
            n == newline_count(v@.subrange(0, i as int)),
            n <= i,
        decreases end - i,
    {
        proof {
            assert(v@.subrange(0, i + 1).drop_last() =~= v@.subrange(0, i as int));
        }
        if v[i] == '\n' {
            n = n + 1;
        }
        i = i + 1;
    }
    n
}

/// The view of a read that gives text or an error message.
pub open spec fn text_result_view(r: Result<String, String>) -> Result<Seq<char>, Seq<char>> {
    match r {
        Ok(s) => Ok(s@),
        Err(e) => Err(e@),
    }
}

impl SidecarResolver {
    /// Takes one step of a JSONPath: from position `i` of the path `p` at the value `cur`,
    /// the next value and position, or the diagnostic for a step that cannot be taken.
    fn walk_step(cur: &String, p: &Vec<char>, i: usize, pattern: &str, source_path: &str) -> (r: Result<(String, usize), Diagnostic>)
        requires
            i < p@.len(),
        ensures
            match r {
                Ok((next, j)) => i < j <= p@.len() + 1 && walk(cur@, p@, i as int, pattern@, source_path@)
                    == walk(next@, p@, j as int, pattern@, source_path@),
                Err(d) => walk(cur@, p@, i as int, pattern@, source_path@) == Err::<Seq<char>, _>(d@),
            },
    {
        let plen = p.len();
        if p[i] == '[' {
            let close_pat = vec![']'];
            assert(close_pat@ =~= seq![']']);
            match find_chars(p, &close_pat, i) {
                None => Err(sc_diagnostic(PATTERN_ERROR_RULE, source_path, cat2(UNCLOSED_1, pattern), String::from_str(UNCLOSED_FIX), None, UNCLOSED_HINT)),
                Some(close) => {
                    proof {
                        lemma_find_from_bounds(p@, seq![']'], i as int);
                        assert(close < p@.len());
                    }
                    let after_close: usize = close + 1;
                    let index_chars = vstd::slice::slice_to_vec(vstd::slice::slice_subrange(p.as_slice(), i + 1, close));
                    match parse_index(&index_chars) {
                        None => {
                            let index_text = string_of(index_chars.as_slice());
                            Err(sc_diagnostic(PATTERN_ERROR_RULE, source_path, cat2(BAD_INDEX_1, index_text.as_str()), String::from_str(BAD_INDEX_FIX), None, BAD_INDEX_HINT))
                        },
                        Some(n) => match get_index(cur.as_str(), n) {
                            None => {
                                let digits = decimal_string(n);
                                Err(sc_diagnostic(UNRESOLVED_RULE, source_path, cat4(OOB_1, digits.as_str(), OOB_2, pattern), String::from_str(OOB_FIX), None, OOB_HINT))
                            },
                            Some(next) => {
                                let after = if after_close < p.len() && p[after_close] == '.' {
                                    after_close + 1
                                } else {
                                    after_close
                                };
                                Ok((next, after))
                            },
                        },
                    }
                },
            }
        } else {
            proof {
                lemma_key_end(p@, i as int);
            }
            let end = key_end_exec(p, i);
            let after = if end < p.len() {
                if p[end] == '[' {
                    end
                } else {
                    end + 1
                }
            } else {
                end
            };
            if end == i {
                return Ok((cur.clone(), after));
            }
            let key_chars = vstd::slice::slice_to_vec(vstd::slice::slice_subrange(p.as_slice(), i, end));
            let key = string_of(key_chars.as_slice());
            assert(key@ == p@.subrange(i as int, end as int));
            match get_key(cur.as_str(), key.as_str()) {
                None => Err(sc_diagnostic(UNRESOLVED_RULE, source_path, cat4(KEY_1, key.as_str(), KEY_2, pattern), String::from_str(KEY_FIX), None, KEY_HINT)),
                Some(next) => {
                    proof {
                        if end == p@.len() {
                            assert(walk(next@, p@, end + 1, pattern@, source_path@) == walk(next@, p@, end as int, pattern@, source_path@));
                        }
                    }
                    Ok((next, after))
                },
            }
        }
    }

    /// Resolves a JSONPath pattern against the JSON text `content`, read from
    /// `source_path`.
    pub fn resolve_jsonpath(content: &str, pattern: &str, source_path: &str) -> (r: Result<Vec<(String, usize)>, Diagnostic>)
        ensures
            locs_result_view(r) == resolve_jsonpath_spec(content@, pattern@, source_path@),
    {
        let root = match json_compact_text(content) {
            Ok(t) => t,
            Err(e) => {
                let mut detail = cat5(NOT_JSON_1, pattern, NOT_JSON_2, source_path, NOT_JSON_3);
                detail.append(e.as_str());
                return Err(sc_diagnostic(SOURCE_ERROR_RULE, source_path, detail, String::from_str(NOT_JSON_FIX), None, NOT_JSON_HINT));
            },
        };
        Self::jsonpath_in_value(root.as_str(), content, pattern, source_path)
    }

    /// Follows the JSONPath `pattern` from `root`, the compact text of the parsed content,
    /// then locates the value found in `content`.
    pub fn jsonpath_in_value(root: &str, content: &str, pattern: &str, source_path: &str) -> (r: Result<Vec<(String, usize)>, Diagnostic>)
        ensures
            locs_result_view(r) == jsonpath_in(root@, content@, pattern@, source_path@),
    {
        let pv = chars_of(pattern);
        let start: usize = if pv.len() >= 2 && pv[0] == '$' && pv[1] == '.' {
            2
        } else if pv.len() >= 1 && pv[0] == '$' {
            1
        } else {
            0
        };
        let p = vstd::slice::slice_to_vec(vstd::slice::slice_subrange(pv.as_slice(), start, pv.len()));
        assert(p@ =~= path_body(pattern@));
        let mut cur = String::from_str(root);
        let mut i: usize = 0;
        while i < p.len()
            invariant
                i <= p@.len() + 1,
                p@ == path_body(pattern@),
                walk(root@, p@, 0, pattern@, source_path@)
                    == walk(cur@, p@, i as int, pattern@, source_path@),
            decreases p.len() + 1 - i,
        {
            match Self::walk_step(&cur, &p, i, pattern, source_path) {
                Ok((next, j)) => {
                    cur = next;
                    i = j;
                },
                Err(d) => {
                    return Err(d);
                },
            }
        }
        Self::locate_value(content, cur.as_str(), pattern, source_path)
    }

    /// The line of the first occurrence of `target` in `content`, counted from 1, as the
    /// location of the evidence; an error when `target` does not occur.
    pub fn locate_value(content: &str, target: &str, pattern: &str, source_path: &str) -> (r: Result<Vec<(String, usize)>, Diagnostic>)
        ensures
            locs_result_view(r) == located(content@, target@, pattern@, source_path@),
    {
        let cv = chars_of(content);
        let tv = chars_of(target);
        match find_chars(&cv, &tv, 0) {
            Some(pos) => {
                proof {
                    lemma_find_from_bounds(cv@, tv@, 0);
                    if tv@.len() == 0 {
                        assert(cv@.subrange(0, 0) =~= tv@);
                        assert(pos == 0);
                    }
                }
                let n = count_newlines(&cv, pos);
                let mut out: Vec<(String, usize)> = Vec::new();
                let entry = (String::from_str(source_path), n + 1);
                assert(loc_view(entry) == (source_path@, (n + 1) as usize));
                out.push(entry);
                assert(locs_view(out@) =~= seq![(source_path@, (n + 1) as usize)]);
                Ok(out)
            },
            None => Err(sc_diagnostic(UNRESOLVED_RULE, source_path, cat2(LOCATE_1, pattern), String::from_str(LOCATE_FIX), None, LOCATE_HINT)),
        }
    }
}

fn cat4(a: &str, b: &str, c: &str, d: &str) -> (r: String)
    ensures
        r@ == a@ + b@ + c@ + d@,
{
    let mut r = cat3(a, b, c);
    r.append(d);
    r
}


// ---------------------------------------------------------------------------
// Sidecar files
// ---------------------------------------------------------------------------

/// What reading a sidecar gave: no sidecar beside the source, a read error, a file that
/// is not a valid sidecar (the parser's message), or its anchors as `(id, pattern)`.
pub enum SidecarRead {
    Absent,
    Unreadable(String),
    Malformed(String),
    Anchors(Vec<(String, String)>),
}

pub open spec fn read_source_diag(file: Seq<char>, err: Seq<char>) -> DiagnosticView {
    sc_diag(SOURCE_ERROR_RULE@, file, READ_SOURCE_1@ + file + Q_COLON@ + err, READ_SOURCE_FIX@, None, READ_SOURCE_HINT@)
}

pub open spec fn read_sidecar_diag(sidecar: Seq<char>, err: Seq<char>) -> DiagnosticView {
    sc_diag(PARSE_ERROR_RULE@, sidecar, READ_SIDECAR_1@ + sidecar + Q_COLON@ + err, READ_SIDECAR_FIX@, None, READ_SIDECAR_HINT@)
}

pub open spec fn invalid_sidecar_diag(sidecar: Seq<char>, err: Seq<char>) -> DiagnosticView {
    sc_diag(PARSE_ERROR_RULE@, sidecar, INVALID_SIDECAR_1@ + sidecar + Q_COLON@ + err, INVALID_SIDECAR_FIX@, Some(INVALID_SIDECAR_EXAMPLE@), INVALID_SIDECAR_HINT@)
}

pub open spec fn unmatched_diag(id: Seq<char>, pattern: Seq<char>, file: Seq<char>, sidecar: Seq<char>) -> DiagnosticView {
    sc_diag(
        UNRESOLVED_RULE@,
        file,
        PATTERN_1@ + pattern + FOR_EVIDENCE@ + id + NO_MATCH_IN@ + file + Q@,
        UPDATE_FIX_1@ + sidecar + UPDATE_FIX_2@ + file + Q_DOT@,
        None,
        UNRESOLVED_HINT@,
    )
}

pub open spec fn ambiguous_diag(id: Seq<char>, pattern: Seq<char>, count: nat, file: Seq<char>, sidecar: Seq<char>) -> DiagnosticView {
    sc_diag(
        AMBIGUOUS_RULE@,
        file,
        PATTERN_1@ + pattern + FOR_EVIDENCE@ + id + MATCHED@ + decimal(count) + EXPECTED_ONE@,
        REFINE_FIX_1@ + sidecar + REFINE_FIX_2@,
        None,
        AMBIGUOUS_HINT@,
    )
}

/// Resolution of one pattern against the source file's text (or the error reading it).
pub open spec fn resolve_pattern_spec(source: Result<Seq<char>, Seq<char>>, pattern: Seq<char>, file: Seq<char>) -> Result<Seq<(Seq<char>, usize)>, DiagnosticView> {
    match source {
        Err(e) => Err(read_source_diag(file, e)),
        Ok(content) => if is_jsonpath(pattern) {
            resolve_jsonpath_spec(content, pattern, file)
        } else {
            resolve_substring_spec(content, pattern, file)
        },
    }
}

/// The map after adding `ls` to the locations of `id`.
pub open spec fn add_locations(
    m: Seq<(Seq<char>, Seq<(Seq<char>, usize)>)>,
    id: Seq<char>,
    ls: Seq<(Seq<char>, usize)>,
) -> Seq<(Seq<char>, Seq<(Seq<char>, usize)>)> {
    store(m, id, if has_key(m, id) { value_of(m, id) + ls } else { ls })
}

/// Resolution of the first `k` anchors, in order: each pattern must resolve to exactly
/// one location; the first anchor that does not decides the error.
pub open spec fn resolve_anchors_upto(
    anchors: Seq<(Seq<char>, Seq<char>)>,
    source: Result<Seq<char>, Seq<char>>,
    file: Seq<char>,
    sidecar: Seq<char>,
    k: int,
) -> Result<Seq<(Seq<char>, Seq<(Seq<char>, usize)>)>, DiagnosticView>
    decreases k,
{
    if k <= 0 || k > anchors.len() {
        Ok(seq![])
    } else {
        match resolve_anchors_upto(anchors, source, file, sidecar, k - 1) {
            Err(d) => Err(d),
            Ok(m) => {
                let id = anchors[k - 1].0;
                let pattern = anchors[k - 1].1;
                match resolve_pattern_spec(source, pattern, file) {
                    Err(d) => Err(d),
                    Ok(ls) => if ls.len() == 0 {
                        Err(unmatched_diag(id, pattern, file, sidecar))
                    } else if ls.len() > 1 {
                        Err(ambiguous_diag(id, pattern, ls.len(), file, sidecar))
                    } else {
                        Ok(add_locations(m, id, ls))
                    },
                }
            },
        }
    }
}

/// Resolution of all the anchors of a sidecar.
pub open spec fn resolve_anchors_spec(
    anchors: Seq<(Seq<char>, Seq<char>)>,
    source: Result<Seq<char>, Seq<char>>,
    file: Seq<char>,
    sidecar: Seq<char>,
) -> Result<Seq<(Seq<char>, Seq<(Seq<char>, usize)>)>, DiagnosticView> {
    resolve_anchors_upto(anchors, source, file, sidecar, anchors.len() as int)
}

/// Resolution of a source file's sidecar, from what reading the sidecar gave.
pub open spec fn resolve_sidecar_spec(
    read: SidecarRead,
    source: Result<Seq<char>, Seq<char>>,
    file: Seq<char>,
    sidecar: Seq<char>,
) -> Result<Seq<(Seq<char>, Seq<(Seq<char>, usize)>)>, DiagnosticView> {
    match read {
        SidecarRead::Absent => Ok(seq![]),
        SidecarRead::Unreadable(e) => Err(read_sidecar_diag(sidecar, e@)),
        SidecarRead::Malformed(e) => Err(invalid_sidecar_diag(sidecar, e@)),
        SidecarRead::Anchors(a) => resolve_anchors_spec(pairs_view(a@), source, file, sidecar),
    }
}

/// The view of a resolved sidecar map or its error.
pub open spec fn map_result_view(r: Result<SidecarMap, Diagnostic>) -> Result<Seq<(Seq<char>, Seq<(Seq<char>, usize)>)>, DiagnosticView> {
    match r {
        Ok(m) => Ok(m@),
        Err(d) => Err(d@),
    }
}

pub proof fn lemma_anchor_error_stays(
    anchors: Seq<(Seq<char>, Seq<char>)>,
    source: Result<Seq<char>, Seq<char>>,
    file: Seq<char>,
    sidecar: Seq<char>,
    k: int,
    j: int,
)
    requires
        0 <= k <= j <= anchors.len(),
        resolve_anchors_upto(anchors, source, file, sidecar, k) is Err,
    ensures
        resolve_anchors_upto(anchors, source, file, sidecar, j) == resolve_anchors_upto(anchors, source, file, sidecar, k),
    decreases j - k,
{
    if j > k {
        lemma_anchor_error_stays(anchors, source, file, sidecar, k, j - 1);
    }
}

impl SidecarResolver {
    /// The name of the sidecar of a file named `file_name`: `bar.rs` gives
    /// `bar.rs.graphite`.
    pub fn sidecar_file_name(file_name: &str) -> (r: String)
        ensures
            r@ == file_name@ + SIDECAR_SUFFIX@,
    {
        cat2(file_name, SIDECAR_SUFFIX)
    }

    /// The path of the sidecar of `source_path`: its file name with `.graphite` appended
    /// (`foo/bar.rs` gives `foo/bar.rs.graphite`); `None` when the path has no file name.
    pub fn sidecar_path(source_path: &str) -> (r: Option<String>)
        ensures
            match crate::paths::file_name_of(source_path@) {
                Some(n) => r matches Some(p) && p@ == crate::paths::with_file_name(source_path@, n + SIDECAR_SUFFIX@),
                None => r is None,
            },
    {
        match crate::paths::path_file_name(source_path) {
            Some(n) => {
                let name = Self::sidecar_file_name(n.as_str());
                Some(crate::paths::path_with_file_name(source_path, name.as_str()))
            },
            None => None,
        }
    }

    /// The sidecar of `source_path` when the file at [`Self::sidecar_path`] exists
    /// (`sidecar_exists`), else `None`.
    pub fn find_sidecar(source_path: &str, sidecar_exists: bool) -> (r: Option<String>)
        ensures
            sidecar_exists ==> match crate::paths::file_name_of(source_path@) {
                Some(n) => r matches Some(p) && p@ == crate::paths::with_file_name(source_path@, n + SIDECAR_SUFFIX@),
                None => r is None,
            },
            !sidecar_exists ==> r is None,
    {
        if sidecar_exists {
            Self::sidecar_path(source_path)
        } else {
            None
        }
    }

    /// Resolves `pattern` against the source file read from `source_path` (its text, or
    /// the error message of the read).
    pub fn resolve_pattern(source_path: &str, source: &Result<String, String>, pattern: &str) -> (r: Result<Vec<(String, usize)>, Diagnostic>)
        ensures
            locs_result_view(r) == resolve_pattern_spec(text_result_view(*source), pattern@, source_path@),
    {
        match source {
            Err(e) => Err(sc_diagnostic(
                SOURCE_ERROR_RULE,
                source_path,
                cat4(READ_SOURCE_1, source_path, Q_COLON, e.as_str()),
                String::from_str(READ_SOURCE_FIX),
                None,
                READ_SOURCE_HINT,
            )),
            Ok(content) => {
                let pv = chars_of(pattern);
                if pv.len() >= 2 && pv[0] == '$' && (pv[1] == '.' || pv[1] == '[') {
                    Self::resolve_jsonpath(content.as_str(), pattern, source_path)
                } else {
                    Self::resolve_substring(content.as_str(), pattern, source_path)
                }
            },
        }
    }

    /// Resolves every anchor of a sidecar, in order, against the source file; each
    /// pattern must resolve to exactly one location.
    pub fn resolve_anchors(source_path: &str, sidecar_path: &str, anchors: &Vec<(String, String)>, source: &Result<String, String>) -> (r: Result<SidecarMap, Diagnostic>)
        ensures
            map_result_view(r) == resolve_anchors_spec(pairs_view(anchors@), text_result_view(*source), source_path@, sidecar_path@),
    {
        let ghost av = pairs_view(anchors@);
        let ghost sv = text_result_view(*source);
        let mut map = EvidenceMap::new();
        let mut k: usize = 0;
        while k < anchors.len()
            invariant
                k <= anchors@.len(),
                av == pairs_view(anchors@),
                sv == text_result_view(*source),
                resolve_anchors_upto(av, sv, source_path@, sidecar_path@, k as int) == Ok::<_, DiagnosticView>(map@),
            decreases anchors.len() - k,
        {
            let id = &anchors[k].0;
            let pattern = &anchors[k].1;
            assert(av[k as int] == (id@, pattern@));
            let locations = match Self::resolve_pattern(source_path, source, pattern.as_str()) {
                Ok(ls) => ls,
                Err(d) => {
                    proof {
                        lemma_anchor_error_stays(av, sv, source_path@, sidecar_path@, k + 1, anchors@.len() as int);
                    }
                    return Err(d);
                },
            };
            if locations.len() == 0 {
                let d = sc_diagnostic_fix(
                    UNRESOLVED_RULE,
                    source_path,
                    cat5(PATTERN_1, pattern.as_str(), FOR_EVIDENCE, id.as_str(), NO_MATCH_IN),
                    source_path,
                    Q,
                    cat5(UPDATE_FIX_1, sidecar_path, UPDATE_FIX_2, source_path, Q_DOT),
                    UNRESOLVED_HINT,
                );
                proof {
                    lemma_anchor_error_stays(av, sv, source_path@, sidecar_path@, k + 1, anchors@.len() as int);
                }
                return Err(d);
            }
            if locations.len() > 1 {
                let count = decimal_string(locations.len());
                let mut detail = cat5(PATTERN_1, pattern.as_str(), FOR_EVIDENCE, id.as_str(), MATCHED);
                detail.append(count.as_str());
                detail.append(EXPECTED_ONE);
                let d = sc_diagnostic(AMBIGUOUS_RULE, source_path, detail, cat3(REFINE_FIX_1, sidecar_path, REFINE_FIX_2), None, AMBIGUOUS_HINT);
                proof {
                    lemma_anchor_error_stays(av, sv, source_path@, sidecar_path@, k + 1, anchors@.len() as int);
                }
                return Err(d);
            }
            map.extend(id.clone(), locations);
            k = k + 1;
        }
        Ok(map)
    }

    /// Resolves the sidecar of the source file at `source_path` from what reading the
    /// sidecar gave and what reading the source gave.
    pub fn resolve_sidecar(source_path: &str, sidecar_path: &str, read: SidecarRead, source: &Result<String, String>) -> (r: Result<SidecarMap, Diagnostic>)
        ensures
            map_result_view(r) == resolve_sidecar_spec(read, text_result_view(*source), source_path@, sidecar_path@),
    {
        match read {
            SidecarRead::Absent => Ok(EvidenceMap::new()),
            SidecarRead::Unreadable(e) => Err(sc_diagnostic(
                PARSE_ERROR_RULE,
                sidecar_path,
                cat4(READ_SIDECAR_1, sidecar_path, Q_COLON, e.as_str()),
                String::from_str(READ_SIDECAR_FIX),
                None,
                READ_SIDECAR_HINT,
            )),
            SidecarRead::Malformed(e) => Err(sc_diagnostic(
                PARSE_ERROR_RULE,
                sidecar_path,
                cat4(INVALID_SIDECAR_1, sidecar_path, Q_COLON, e.as_str()),
                String::from_str(INVALID_SIDECAR_FIX),
                Some(String::from_str(INVALID_SIDECAR_EXAMPLE)),
                INVALID_SIDECAR_HINT,
            )),
            SidecarRead::Anchors(a) => Self::resolve_anchors(source_path, sidecar_path, &a, source),
        }
    }
}

fn sc_diagnostic_fix(rule: &str, file: &str, detail_head: String, detail_mid: &str, detail_tail: &str, fix: String, hint: &str) -> (d: Diagnostic)
    ensures
        d@ == sc_diag(rule@, file@, detail_head@ + detail_mid@ + detail_tail@, fix@, None, hint@),
{
    let mut detail = detail_head;
    detail.append(detail_mid);
    detail.append(detail_tail);
    sc_diagnostic(rule, file, detail, fix, None, hint)
}

} // verus!
