//! Parsing and checking graph schemas: categories with their keys, and edges between them.
use vstd::prelude::*;
use vstd::string::*;

use crate::text::{
    chars_of, contains, decimal, decimal_string, find_chars, find_from, lines, lines_from,
    matches_at_exec, next_line, string_of, trim, trim_bounds, trim_start_index,
};
use crate::yaml::{
    field_index_from, find_field, mapping_view, pairs_view, yaml_mapping, yaml_mapping_entries, yaml_read_string,
    yaml_string,
};
use crate::{
    edges_view, has_key, store, value_of, DiagnosticView, Diagnostic, EdgeDef, EdgeView, KindDef,
    KindMap, Schema, Severity,
};

verus! {

/// Parses schema YAML into a checked [`Schema`].
pub struct SchemaParser;

/// What `char::is_alphanumeric` answers for a character (Unicode `Alphabetic` or numeric).
pub uninterp spec fn unicode_alphanumeric(c: char) -> bool;

/// Calls `char::is_alphanumeric`; the answer is the named property of `c`.
#[verifier::external_body]
fn is_alphanumeric(c: char) -> (r: bool)
    ensures
        r == unicode_alphanumeric(c),
{
    c.is_alphanumeric()
}

/// What `str::to_uppercase` gives for a string (Unicode upper-case mapping).
pub uninterp spec fn unicode_uppercase(s: Seq<char>) -> Seq<char>;

/// Calls `str::to_uppercase`; the result is the named mapping of `s`.
#[verifier::external_body]
fn to_uppercase(s: &str) -> (r: String)
    ensures
        r@ == unicode_uppercase(s@),
{
    s.to_uppercase()
}

pub const SCHEMA_PARSE_ERROR: &'static str = "schema-parse-error";

pub const CATEGORIES_SECTION: &'static str = "categories";

pub const KINDS_SECTION: &'static str = "kinds";

pub const EDGES_SECTION: &'static str = "edges";

pub const KEY_FIELD: &'static str = "key";

pub const FROM_FIELD: &'static str = "from";

pub const TO_FIELD: &'static str = "to";

pub const ANY_KIND: &'static str = "any";

pub const INDEX_KIND: &'static str = "index";

pub const EVIDENCE_KIND: &'static str = "evidence";

pub const MISSING_FIELD_1: &'static str = "missing field `";

pub const BACKTICK: &'static str = "`";

pub const DUP_DETAIL_1: &'static str = "Duplicate ";

pub const DUP_DETAIL_2: &'static str = " name '";

pub const DUP_DETAIL_3: &'static str = "' appears ";

pub const DUP_DETAIL_4: &'static str = " times";

pub const DUP_FIX_1: &'static str = "Remove duplicate '";

pub const DUP_FIX_2: &'static str = "' entries from the '";

pub const DUP_FIX_3: &'static str = "' section.";

pub const DUP_HINT_1: &'static str = "Each ";

pub const DUP_HINT_2: &'static str = " must have a unique name. Rename or remove the duplicate.";

pub const YAML_DETAIL_1: &'static str = "Invalid YAML: ";

pub const YAML_FIX: &'static str = "Ensure the schema YAML is valid and all fields are correctly formatted.";

pub const YAML_HINT: &'static str = "Check the YAML syntax and field names.";

pub const UNDEFINED_DETAIL_1: &'static str = "Edge '";

pub const UNDEFINED_DETAIL_2: &'static str = "' references undefined kind '";

pub const UNDEFINED_DETAIL_3: &'static str = "' in '";

pub const QUOTE: &'static str = "'";

pub const UNDEFINED_FIX_1: &'static str = "Define kind '";

pub const UNDEFINED_FIX_2: &'static str = "' in the 'kinds' section, use 'any' for a wildcard, or use a built-in kind ('index', 'evidence').";

pub const UNDEFINED_EXAMPLE_1: &'static str = "  kinds:\n    ";

pub const UNDEFINED_EXAMPLE_2: &'static str = ":\n      key: ";

pub const NEWLINE: &'static str = "\n";

pub const UNDEFINED_HINT: &'static str = "All kinds referenced in edges must be defined in the 'kinds' section or be built-in kinds (index, evidence, any).";

/// A `schema-parse-error` diagnostic.
pub open spec fn schema_diag(detail: Seq<char>, fix: Seq<char>, example: Option<Seq<char>>, hint: Seq<char>) -> DiagnosticView {
    DiagnosticView {
        rule: SCHEMA_PARSE_ERROR@,
        severity: Severity::Error,
        node_id: None,
        file: None,
        detail,
        fix,
        example,
        hint,
    }
}

/// The diagnostic for a name that occurs `count` times in `section`.
pub open spec fn duplicate_diag(section: Seq<char>, key: Seq<char>, count: nat) -> DiagnosticView {
    schema_diag(
        DUP_DETAIL_1@ + section + DUP_DETAIL_2@ + key + DUP_DETAIL_3@ + decimal(count) + DUP_DETAIL_4@,
        DUP_FIX_1@ + key + DUP_FIX_2@ + section + DUP_FIX_3@,
        None,
        DUP_HINT_1@ + section + DUP_HINT_2@,
    )
}

/// The diagnostic for schema text that cannot be read.
pub open spec fn schema_yaml_diag(err: Seq<char>) -> DiagnosticView {
    schema_diag(YAML_DETAIL_1@ + err, YAML_FIX@, None, YAML_HINT@)
}

/// The diagnostic for edge `edge` whose `field` (`from` or `to`) names an undefined kind.
pub open spec fn undefined_kind_diag(edge: Seq<char>, field: Seq<char>, kind: Seq<char>) -> DiagnosticView {
    schema_diag(
        UNDEFINED_DETAIL_1@ + edge + UNDEFINED_DETAIL_2@ + kind + UNDEFINED_DETAIL_3@ + field + QUOTE@,
        UNDEFINED_FIX_1@ + kind + UNDEFINED_FIX_2@,
        Some(UNDEFINED_EXAMPLE_1@ + kind + UNDEFINED_EXAMPLE_2@ + unicode_uppercase(kind) + NEWLINE@),
        UNDEFINED_HINT@,
    )
}

// ---------------------------------------------------------------------------
// Duplicate names in a section of the raw text
// ---------------------------------------------------------------------------

/// State of the scan for duplicate names in one section: whether the section is open,
/// whether it has ended, the indentation of its entries (that of the first one), and how
/// often each entry name occurred.
pub struct DupScan {
    pub in_section: bool,
    pub stopped: bool,
    pub depth: Option<nat>,
    pub counts: Seq<(Seq<char>, nat)>,
}

/// A character allowed in a name: alphanumeric, `_` or `-`.
pub open spec fn name_char(c: char) -> bool {
    unicode_alphanumeric(c) || c == '_' || c == '-'
}

/// The name an indented line declares: the text before its first `:`, trimmed, when it
/// is not empty, does not start with `-`, and holds only name characters.
pub open spec fn declared_name(t: Seq<char>) -> Option<Seq<char>> {
    match find_from(t, seq![':'], 0) {
        None => None,
        Some(colon) => {
            let name = trim(t.subrange(0, colon));
            if name.len() > 0 && name[0] != '-' && forall|k: int| 0 <= k < name.len() ==> name_char(#[trigger] name[k]) {
                Some(name)
            } else {
                None
            }
        },
    }
}

/// One more occurrence of `name`.
pub open spec fn bump(counts: Seq<(Seq<char>, nat)>, name: Seq<char>) -> Seq<(Seq<char>, nat)> {
    store(counts, name, if has_key(counts, name) { value_of(counts, name) + 1 } else { 1 })
}

/// The scan after one more line. The line `<section>:` opens the section; inside it, an
/// unindented line ending with `:` and holding no space closes it. An indented line
/// (one with whitespace at either end) that declares a name is an entry of the section
/// when it is the first such line or is indented as the first one was; the name of an
/// entry is counted. Lines indented otherwise (the fields inside an entry) count nothing.
pub open spec fn dup_step(st: DupScan, line: Seq<char>, marker: Seq<char>) -> DupScan {
    if st.stopped {
        st
    } else {
        let t = trim(line);
        if t == marker {
            DupScan { in_section: true, ..st }
        } else if !st.in_section {
            st
        } else if t.len() == line.len() && t.len() > 0 && t.last() == ':' && !contains(t, seq![' ']) {
            DupScan { stopped: true, ..st }
        } else if t.len() != line.len() {
            let d = trim_start_index(line, 0) as nat;
            match declared_name(t) {
                Some(name) => match st.depth {
                    None => DupScan { depth: Some(d), counts: bump(st.counts, name), ..st },
                    Some(d0) => if d == d0 {
                        DupScan { counts: bump(st.counts, name), ..st }
                    } else {
                        st
                    },
                },
                None => st,
            }
        } else {
            st
        }
    }
}

/// The scan over the first `k` lines.
pub open spec fn dup_scan(ls: Seq<Seq<char>>, marker: Seq<char>, k: int) -> DupScan
    decreases k,
{
    if k <= 0 || k > ls.len() {
        DupScan { in_section: false, stopped: false, depth: None, counts: seq![] }
    } else {
        dup_step(dup_scan(ls, marker, k - 1), ls[k - 1], marker)
    }
}

/// The first counted name that occurs more than once, from position `i` on.
pub open spec fn first_dup_from(counts: Seq<(Seq<char>, nat)>, i: int) -> Option<(Seq<char>, nat)>
    decreases counts.len() - i,
{
    if i < 0 || i >= counts.len() {
        None
    } else if counts[i].1 > 1 {
        Some(counts[i])
    } else {
        first_dup_from(counts, i + 1)
    }
}

/// The first name declared more than once in `section` of the text, with its count.
pub open spec fn section_duplicate(yaml: Seq<char>, section: Seq<char>) -> Option<(Seq<char>, nat)> {
    let ls = lines(yaml);
    first_dup_from(dup_scan(ls, section + seq![':'], ls.len() as int).counts, 0)
}

/// The view of the indentation of the entries.
pub open spec fn depth_view(d: Option<usize>) -> Option<nat> {
    match d {
        Some(n) => Some(n as nat),
        None => None,
    }
}

/// The view of the counts.
pub open spec fn counts_view(v: Seq<(String, usize)>) -> Seq<(Seq<char>, nat)> {
    v.map_values(|p: (String, usize)| (p.0@, p.1 as nat))
}

fn text_of(s: &str) -> (r: String)
    ensures
        r@ == s@,
{
    String::from_str(s)
}

fn duplicate_diagnostic(section: &str, key: &str, count: usize) -> (d: Diagnostic)
    ensures
        d@ == duplicate_diag(section@, key@, count as nat),
{
    let n = decimal_string(count);
    let mut detail = text_of(DUP_DETAIL_1);
    detail.append(section);
    detail.append(DUP_DETAIL_2);
    detail.append(key);
    detail.append(DUP_DETAIL_3);
    detail.append(n.as_str());
    detail.append(DUP_DETAIL_4);
    let mut fix = text_of(DUP_FIX_1);
    fix.append(key);
    fix.append(DUP_FIX_2);
    fix.append(section);
    fix.append(DUP_FIX_3);
    let mut hint = text_of(DUP_HINT_1);
    hint.append(section);
    hint.append(DUP_HINT_2);
    Diagnostic {
        rule: text_of(SCHEMA_PARSE_ERROR),
        severity: Severity::Error,
        node_id: None,
        file: None,
        detail,
        fix,
        example: None,
        hint,
    }
}

fn declared_name_exec(t: &Vec<char>) -> (r: Option<Vec<char>>)
    ensures
        match declared_name(t@) {
            Some(n) => r matches Some(v) && v@ == n,
            None => r is None,
        },
{
    let colon_pat = vec![':'];
    assert(colon_pat@ == seq![':']);
    let colon = match find_chars(t, &colon_pat, 0) {
        Some(c) => c,
        None => {
            return None;
        },
    };
    proof {
        crate::text::lemma_find_from_bounds(t@, colon_pat@, 0);
    }
    let head = vstd::slice::slice_to_vec(vstd::slice::slice_subrange(t.as_slice(), 0, colon));
    let (a, b) = trim_bounds(&head);
    let name = vstd::slice::slice_to_vec(vstd::slice::slice_subrange(head.as_slice(), a, b));
    assert(head@ == t@.subrange(0, colon as int));
    assert(name@ == trim(t@.subrange(0, colon as int)));
    if name.len() == 0 || name[0] == '-' {
        return None;
    }
    let mut k: usize = 0;
    while k < name.len()
        invariant
            k <= name@.len(),
            name@.len() > 0,
            name@[0] != '-',
            name@ == trim(t@.subrange(0, colon as int)),
            find_from(t@, seq![':'], 0) == Some(colon as int),
            forall|j: int| 0 <= j < k ==> name_char(#[trigger] name@[j]),
        decreases name.len() - k,
    {
        let c = name[k];
        if !(is_alphanumeric(c) || c == '_' || c == '-') {
            assert(!name_char(name@[k as int]));
            return None;
        }
        k = k + 1;
    }
    Some(name)
}

fn count_name(counts: &mut Vec<(String, usize)>, name: String, Ghost(bound): Ghost<nat>)
    requires
        crate::distinct_keys(counts_view(old(counts)@)),
        1 <= bound <= usize::MAX,
        forall|j: int| 0 <= j < old(counts)@.len() ==> old(counts)@[j].1 < bound,
    ensures
        counts_view(final(counts)@) == bump(counts_view(old(counts)@), name@),
        crate::distinct_keys(counts_view(final(counts)@)),
        forall|j: int| 0 <= j < final(counts)@.len() ==> final(counts)@[j].1 <= bound,
{
    let ghost c0 = counts_view(counts@);
    let mut i: usize = 0;
    while i < counts.len()
        invariant
            i <= counts@.len(),
            counts@ == old(counts)@,
            c0 == counts_view(counts@),
            crate::distinct_keys(c0),
            1 <= bound <= usize::MAX,
            forall|j: int| 0 <= j < counts@.len() ==> counts@[j].1 < bound,
            forall|j: int| 0 <= j < i ==> c0[j].0 != name@,
        decreases counts.len() - i,
    {
        assert(c0[i as int].0 == counts@[i as int].0@);
        if crate::text::str_eq(counts[i].0.as_str(), name.as_str()) {
            let n = counts[i].1;
            proof {
                let c = choose|j: int| 0 <= j < c0.len() && c0[j].0 == name@;
                assert(c0[i as int].0 == name@);
                assert(c == i as int);
            }
            counts.set(i, (name, n + 1));
            assert(counts_view(counts@) =~= bump(c0, counts@[i as int].0@));
            return;
        }
        i = i + 1;
    }
    let ghost nv = name@;
    counts.push((name, 1));
    assert(counts_view(counts@) =~= c0.push((nv, 1nat)));
}

/// Looks in the raw text for a name declared twice in `section` (the YAML reader keeps
/// only one of two equal keys, so the text itself is inspected).
pub fn check_yaml_section_duplicates(yaml: &str, section: &str) -> (r: Result<(), Diagnostic>)
    ensures
        match section_duplicate(yaml@, section@) {
            None => r is Ok,
            Some((key, count)) => r matches Err(d) && d@ == duplicate_diag(section@, key, count),
        },
{
    let v = chars_of(yaml);
    let ghost s = v@;
    let ghost ls = lines(s);
    let mut marker = chars_of(section);
    marker.push(':');
    let ghost mk = section@ + seq![':'];
    assert(marker@ =~= mk);
    let space = vec![' '];
    assert(space@ == seq![' ']);
    let mut in_section = false;
    let mut depth: Option<usize> = None;
    let mut counts: Vec<(String, usize)> = Vec::new();
    assert(counts_view(counts@) =~= Seq::<(Seq<char>, nat)>::empty());
    let ghost mut done: Seq<Seq<char>> = seq![];
    let mut i: usize = 0;
    while i < v.len()
        invariant
            s == v@,
            s == yaml@,
            ls == lines(s),
            marker@ == mk,
            space@ == seq![' '],
            i <= v@.len(),
            done.len() <= i,
            ls == done + lines_from(s, i as int),
            dup_scan(ls, mk, done.len() as int) == (DupScan {
                in_section,
                stopped: false,
                depth: depth_view(depth),
                counts: counts_view(counts@),
            }),
            crate::distinct_keys(counts_view(counts@)),
            forall|j: int| 0 <= j < counts@.len() ==> counts@[j].1 <= done.len(),
        ensures
            dup_scan(ls, mk, ls.len() as int).counts == counts_view(counts@),
            crate::distinct_keys(counts_view(counts@)),
        decreases v.len() - i,
    {
        let (c, e) = next_line(&v, i);
        let line = vstd::slice::slice_to_vec(vstd::slice::slice_subrange(v.as_slice(), i, c));
        let (a, b) = trim_bounds(&line);
        let t = vstd::slice::slice_to_vec(vstd::slice::slice_subrange(line.as_slice(), a, b));
        let ghost k = done.len();
        proof {
            assert(ls[k as int] == line@);
            assert(ls =~= done.push(line@) + lines_from(s, e + 1));
        }
        let ghost st = dup_scan(ls, mk, k as int);
        let same = t.len() == marker.len() && matches_at_exec(&t, &marker, 0);
        proof {
            if same {
                assert(t@ =~= mk);
            }
            if t@ == mk {
                assert(t@.subrange(0, mk.len() as int) =~= mk);
            }
        }
        if same {
            in_section = true;
        } else if in_section {
            let unindented = t.len() == line.len();
            if unindented && t.len() > 0 && t[t.len() - 1] == ':' && find_chars(&t, &space, 0).is_none() {
                proof {
                    assert(dup_scan(ls, mk, k + 1 as int).stopped);
                    lemma_scan_stopped(ls, mk, k + 1 as int, ls.len() as int);
                }
                break;
            }
            if !unindented {
                match declared_name_exec(&t) {
                    Some(name) => {
                        let entry = match depth {
                            None => {
                                depth = Some(a);
                                true
                            },
                            Some(d0) => a == d0,
                        };
                        if entry {
                            let nm = string_of(name.as_slice());
                            count_name(&mut counts, nm, Ghost((k + 1) as nat));
                        }
                    },
                    None => {},
                }
            }
        }
        proof {
            done = done.push(line@);
        }
        if e >= v.len() {
            i = v.len();
        } else {
            i = e + 1;
        }
    }
    proof {
        if i >= v.len() {
            assert(done + lines_from(s, i as int) =~= done);
        }
    }
    let mut j: usize = 0;
    while j < counts.len()
        invariant
            j <= counts@.len(),
            ls == lines(yaml@),
            mk == section@ + seq![':'],
            dup_scan(ls, mk, ls.len() as int).counts == counts_view(counts@),
            first_dup_from(counts_view(counts@), 0) == first_dup_from(counts_view(counts@), j as int),
        decreases counts.len() - j,
    {
        assert(counts_view(counts@)[j as int] == (counts@[j as int].0@, counts@[j as int].1 as nat));
        if counts[j].1 > 1 {
            return Err(duplicate_diagnostic(section, counts[j].0.as_str(), counts[j].1));
        }
        j = j + 1;
    }
    Ok(())
}

/// Once the scan has stopped, later lines change nothing.
pub proof fn lemma_scan_stopped(ls: Seq<Seq<char>>, mk: Seq<char>, k: int, m: int)
    requires
        0 < k <= m <= ls.len(),
        dup_scan(ls, mk, k).stopped,
    ensures
        dup_scan(ls, mk, m) == dup_scan(ls, mk, k),
    decreases m - k,
{
    if m > k {
        lemma_scan_stopped(ls, mk, k, m - 1);
    }
}

// ---------------------------------------------------------------------------
// Reading the schema YAML
// ---------------------------------------------------------------------------

/// The message for a required field that is missing.
pub open spec fn missing_field_msg(name: Seq<char>) -> Seq<char> {
    MISSING_FIELD_1@ + name + BACKTICK@
}

/// A required string field of the YAML mapping `doc`.
pub open spec fn required_field(doc: Seq<char>, name: Seq<char>) -> Result<Seq<char>, Seq<char>> {
    required_field_of(yaml_mapping(doc), name)
}

/// A required string field, from what the YAML reader gave for the mapping: its
/// entries, or its error.
pub open spec fn required_field_of(m: Result<Seq<(Seq<char>, Seq<char>)>, Seq<char>>, name: Seq<char>) -> Result<Seq<char>, Seq<char>> {
    match m {
        Err(e) => Err(e),
        Ok(es) => match field_index_from(es, name, 0) {
            Err(e) => Err(e),
            Ok(None) => Err(missing_field_msg(name)),
            Ok(Some(i)) => yaml_string(es[i].1),
        },
    }
}

/// The text of a required section of the top-level mapping; the categories may also be
/// given under the older name `kinds`.
pub open spec fn section_text(es: Seq<(Seq<char>, Seq<char>)>, name: Seq<char>, alias: Option<Seq<char>>) -> Result<Seq<char>, Seq<char>> {
    match field_index_from(es, name, 0) {
        Err(e) => Err(e),
        Ok(Some(i)) => Ok(es[i].1),
        Ok(None) => match alias {
            None => Err(missing_field_msg(name)),
            Some(a) => match field_index_from(es, a, 0) {
                Err(e) => Err(e),
                Ok(Some(i)) => Ok(es[i].1),
                Ok(None) => Err(missing_field_msg(name)),
            },
        },
    }
}

/// Reads category entries from position `i` on into `acc`: each name maps to its `key`;
/// a later entry with the same name replaces an earlier one.
pub open spec fn read_kinds_from(
    es: Seq<(Seq<char>, Seq<char>)>,
    i: int,
    acc: Seq<(Seq<char>, Seq<char>)>,
) -> Result<Seq<(Seq<char>, Seq<char>)>, Seq<char>>
    decreases es.len() - i,
{
    if i < 0 || i >= es.len() {
        Ok(acc)
    } else {
        match yaml_string(es[i].0) {
            Err(e) => Err(e),
            Ok(name) => match required_field(es[i].1, KEY_FIELD@) {
                Err(e) => Err(e),
                Ok(key) => read_kinds_from(es, i + 1, store(acc, name, key)),
            },
        }
    }
}

/// Some edge has the given name.
pub open spec fn has_edge(es: Seq<EdgeView>, name: Seq<char>) -> bool {
    exists|j: int| 0 <= j < es.len() && es[j].name == name
}

/// The edges after adding `e`: an edge with the same name is replaced in place.
pub open spec fn store_edge(es: Seq<EdgeView>, e: EdgeView) -> Seq<EdgeView> {
    if has_edge(es, e.name) {
        es.update(choose|j: int| 0 <= j < es.len() && es[j].name == e.name, e)
    } else {
        es.push(e)
    }
}

/// Reads edge entries from position `i` on into `acc`: each name with its `from` and `to`.
pub open spec fn read_edges_from(es: Seq<(Seq<char>, Seq<char>)>, i: int, acc: Seq<EdgeView>) -> Result<Seq<EdgeView>, Seq<char>>
    decreases es.len() - i,
{
    if i < 0 || i >= es.len() {
        Ok(acc)
    } else {
        match yaml_string(es[i].0) {
            Err(e) => Err(e),
            Ok(name) => match required_field(es[i].1, FROM_FIELD@) {
                Err(e) => Err(e),
                Ok(from) => match required_field(es[i].1, TO_FIELD@) {
                    Err(e) => Err(e),
                    Ok(to) => read_edges_from(es, i + 1, store_edge(acc, EdgeView { name, from, to })),
                },
            },
        }
    }
}

/// The categories and edges the schema text declares, before any check of edge ends.
pub open spec fn read_schema(yaml: Seq<char>) -> Result<(Seq<(Seq<char>, Seq<char>)>, Seq<EdgeView>), Seq<char>> {
    read_schema_of(yaml_mapping(yaml))
}

/// The categories and edges, from what the YAML reader gave for the whole schema text:
/// its top-level entries, or its error.
pub open spec fn read_schema_of(m: Result<Seq<(Seq<char>, Seq<char>)>, Seq<char>>) -> Result<(Seq<(Seq<char>, Seq<char>)>, Seq<EdgeView>), Seq<char>> {
    match m {
        Err(e) => Err(e),
        Ok(top) => match section_text(top, CATEGORIES_SECTION@, Some(KINDS_SECTION@)) {
            Err(e) => Err(e),
            Ok(kt) => match yaml_mapping(kt) {
                Err(e) => Err(e),
                Ok(kes) => match read_kinds_from(kes, 0, seq![]) {
                    Err(e) => Err(e),
                    Ok(kinds) => match section_text(top, EDGES_SECTION@, None) {
                        Err(e) => Err(e),
                        Ok(et) => match yaml_mapping(et) {
                            Err(e) => Err(e),
                            Ok(ees) => match read_edges_from(ees, 0, seq![]) {
                                Err(e) => Err(e),
                                Ok(edges) => Ok((kinds, edges)),
                            },
                        },
                    },
                },
            },
        },
    }
}

/// A kind that an edge end may name: `any`, a built-in kind (`index`, `evidence`), or a
/// declared category.
pub open spec fn valid_kind_ref(kind: Seq<char>, kinds: Seq<(Seq<char>, Seq<char>)>) -> bool {
    kind == ANY_KIND@ || kind == INDEX_KIND@ || kind == EVIDENCE_KIND@ || has_key(kinds, kind)
}

/// The diagnostic for the first edge, from position `j` on, with an end that names no
/// valid kind (its `from` end is looked at first).
pub open spec fn first_bad_edge(edges: Seq<EdgeView>, kinds: Seq<(Seq<char>, Seq<char>)>, j: int) -> Option<DiagnosticView>
    decreases edges.len() - j,
{
    if j < 0 || j >= edges.len() {
        None
    } else if !valid_kind_ref(edges[j].from, kinds) {
        Some(undefined_kind_diag(edges[j].name, FROM_FIELD@, edges[j].from))
    } else if !valid_kind_ref(edges[j].to, kinds) {
        Some(undefined_kind_diag(edges[j].name, TO_FIELD@, edges[j].to))
    } else {
        first_bad_edge(edges, kinds, j + 1)
    }
}

/// The view of a schema: its categories and its edges.
pub open spec fn schema_view(s: Schema) -> (Seq<(Seq<char>, Seq<char>)>, Seq<EdgeView>) {
    (s.categories@, edges_view(s.edges@))
}

/// The schema a YAML text describes, or the diagnostic it is rejected with: names declared
/// twice in the `categories`, `kinds` or `edges` section, YAML that does not have the
/// schema's shape, or an edge end that names no valid kind.
pub open spec fn parse_schema(yaml: Seq<char>) -> Result<(Seq<(Seq<char>, Seq<char>)>, Seq<EdgeView>), DiagnosticView> {
    match section_duplicate(yaml, CATEGORIES_SECTION@) {
        Some((k, c)) => Err(duplicate_diag(CATEGORIES_SECTION@, k, c)),
        None => match section_duplicate(yaml, KINDS_SECTION@) {
            Some((k, c)) => Err(duplicate_diag(KINDS_SECTION@, k, c)),
            None => match section_duplicate(yaml, EDGES_SECTION@) {
                Some((k, c)) => Err(duplicate_diag(EDGES_SECTION@, k, c)),
                None => match read_schema(yaml) {
                    Err(e) => Err(schema_yaml_diag(e)),
                    Ok((kinds, edges)) => match first_bad_edge(edges, kinds, 0) {
                        Some(d) => Err(d),
                        None => Ok((kinds, edges)),
                    },
                },
            },
        },
    }
}

fn missing_field_message(name: &str) -> (r: String)
    ensures
        r@ == missing_field_msg(name@),
{
    let mut r = text_of(MISSING_FIELD_1);
    r.append(name);
    r.append(BACKTICK);
    r
}

fn read_required_field(doc: &str, name: &str) -> (r: Result<String, String>)
    ensures
        match required_field(doc@, name@) {
            Ok(v) => r matches Ok(x) && x@ == v,
            Err(e) => r matches Err(x) && x@ == e,
        },
{
    required_field_entries(yaml_mapping_entries(doc), name)
}

/// Reads a required string field from what the YAML reader gave for a mapping: its
/// entries, or its error.
pub fn required_field_entries(m: Result<Vec<(String, String)>, String>, name: &str) -> (r: Result<String, String>)
    ensures
        match required_field_of(mapping_view(m), name@) {
            Ok(v) => r matches Ok(x) && x@ == v,
            Err(e) => r matches Err(x) && x@ == e,
        },
{
    let es = match m {
        Ok(es) => es,
        Err(e) => {
            return Err(e);
        },
    };
    match find_field(&es, name) {
        Err(e) => Err(e),
        Ok(None) => Err(missing_field_message(name)),
        Ok(Some(i)) => {
            assert(pairs_view(es@)[i as int].1 == es@[i as int].1@);
            yaml_read_string(es[i].1.as_str())
        },
    }
}

fn read_section(es: &Vec<(String, String)>, name: &str, alias: Option<&str>) -> (r: Result<String, String>)
    ensures
        match section_text(pairs_view(es@), name@, match alias { Some(a) => Some(a@), None => None }) {
            Ok(v) => r matches Ok(x) && x@ == v,
            Err(e) => r matches Err(x) && x@ == e,
        },
{
    match find_field(es, name) {
        Err(e) => Err(e),
        Ok(Some(i)) => {
            assert(pairs_view(es@)[i as int].1 == es@[i as int].1@);
            Ok(es[i].1.clone())
        },
        Ok(None) => match alias {
            None => Err(missing_field_message(name)),
            Some(a) => match find_field(es, a) {
                Err(e) => Err(e),
                Ok(Some(i)) => {
                    assert(pairs_view(es@)[i as int].1 == es@[i as int].1@);
                    Ok(es[i].1.clone())
                },
                Ok(None) => Err(missing_field_message(name)),
            },
        },
    }
}

fn read_kinds(kt: &str) -> (r: Result<KindMap, String>)
    ensures
        match yaml_mapping(kt@) {
            Err(e) => r matches Err(x) && x@ == e,
            Ok(kes) => match read_kinds_from(kes, 0, seq![]) {
                Ok(v) => r matches Ok(m) && m@ == v,
                Err(e) => r matches Err(x) && x@ == e,
            },
        },
{
    kinds_from_mapping(yaml_mapping_entries(kt))
}

/// Reads the categories from what the YAML reader gave for the categories section: its
/// entries, or its error.
pub fn kinds_from_mapping(m: Result<Vec<(String, String)>, String>) -> (r: Result<KindMap, String>)
    ensures
        match mapping_view(m) {
            Err(e) => r matches Err(x) && x@ == e,
            Ok(kes) => match read_kinds_from(kes, 0, seq![]) {
                Ok(v) => r matches Ok(k) && k@ == v,
                Err(e) => r matches Err(x) && x@ == e,
            },
        },
{
    let es = match m {
        Ok(es) => es,
        Err(e) => {
            return Err(e);
        },
    };
    let ghost ev = pairs_view(es@);
    let mut kinds = KindMap::new();
    let mut i: usize = 0;
    while i < es.len()
        invariant
            i <= es@.len(),
            ev == pairs_view(es@),
            mapping_view(m) == Ok::<_, Seq<char>>(ev),
            read_kinds_from(ev, 0, seq![]) == read_kinds_from(ev, i as int, kinds@),
        decreases es.len() - i,
    {
        assert(ev[i as int] == (es@[i as int].0@, es@[i as int].1@));
        let name = match yaml_read_string(es[i].0.as_str()) {
            Ok(n) => n,
            Err(e) => {
                return Err(e);
            },
        };
        let key = match read_required_field(es[i].1.as_str(), KEY_FIELD) {
            Ok(k) => k,
            Err(e) => {
                return Err(e);
            },
        };
        kinds.insert(name, KindDef { key });
        i = i + 1;
    }
    Ok(kinds)
}

fn insert_edge(edges: &mut Vec<EdgeDef>, e: EdgeDef)
    requires
        forall|a: int, b: int| 0 <= a < b < old(edges)@.len() ==> old(edges)@[a].name@ != old(edges)@[b].name@,
    ensures
        edges_view(final(edges)@) == store_edge(edges_view(old(edges)@), e@),
        forall|a: int, b: int| 0 <= a < b < final(edges)@.len() ==> final(edges)@[a].name@ != final(edges)@[b].name@,
{
    let ghost ev = edges_view(edges@);
    let ghost e0 = e@;
    let mut i: usize = 0;
    while i < edges.len()
        invariant
            i <= edges@.len(),
            edges@ == old(edges)@,
            ev == edges_view(edges@),
            e0 == e@,
            forall|a: int, b: int| 0 <= a < b < edges@.len() ==> edges@[a].name@ != edges@[b].name@,
            forall|j: int| 0 <= j < i ==> edges@[j].name@ != e0.name,
        decreases edges.len() - i,
    {
        assert(ev[i as int].name == edges@[i as int].name@);
        if crate::text::str_eq(edges[i].name.as_str(), e.name.as_str()) {
            proof {
                assert(ev[i as int].name == e0.name);
                let c = choose|j: int| 0 <= j < ev.len() && ev[j].name == e0.name;
                assert(ev[c].name == edges@[c].name@);
                assert(c == i as int);
            }
            edges.set(i, e);
            assert(edges_view(edges@) =~= ev.update(i as int, e0));
            return;
        }
        i = i + 1;
    }
    proof {
        assert forall|j: int| 0 <= j < ev.len() implies ev[j].name != e0.name by {
            assert(ev[j].name == edges@[j].name@);
        }
    }
    edges.push(e);
    assert(edges_view(edges@) =~= ev.push(e0));
}

fn read_edges(et: &str) -> (r: Result<Vec<EdgeDef>, String>)
    ensures
        match yaml_mapping(et@) {
            Err(e) => r matches Err(x) && x@ == e,
            Ok(ees) => match read_edges_from(ees, 0, seq![]) {
                Ok(v) => r matches Ok(m) && edges_view(m@) == v,
                Err(e) => r matches Err(x) && x@ == e,
            },
        },
{
    edges_from_mapping(yaml_mapping_entries(et))
}

/// Reads the edges from what the YAML reader gave for the edges section: its entries,
/// or its error.
pub fn edges_from_mapping(m: Result<Vec<(String, String)>, String>) -> (r: Result<Vec<EdgeDef>, String>)
    ensures
        match mapping_view(m) {
            Err(e) => r matches Err(x) && x@ == e,
            Ok(ees) => match read_edges_from(ees, 0, seq![]) {
                Ok(v) => r matches Ok(es) && edges_view(es@) == v,
                Err(e) => r matches Err(x) && x@ == e,
            },
        },
{
    let es = match m {
        Ok(es) => es,
        Err(e) => {
            return Err(e);
        },
    };
    let ghost ev = pairs_view(es@);
    let mut edges: Vec<EdgeDef> = Vec::new();
    assert(edges_view(edges@) =~= Seq::<EdgeView>::empty());
    let mut i: usize = 0;
    while i < es.len()
        invariant
            i <= es@.len(),
            ev == pairs_view(es@),
            mapping_view(m) == Ok::<_, Seq<char>>(ev),
            forall|a: int, b: int| 0 <= a < b < edges@.len() ==> edges@[a].name@ != edges@[b].name@,
            read_edges_from(ev, 0, seq![]) == read_edges_from(ev, i as int, edges_view(edges@)),
        decreases es.len() - i,
    {
        assert(ev[i as int] == (es@[i as int].0@, es@[i as int].1@));
        let name = match yaml_read_string(es[i].0.as_str()) {
            Ok(n) => n,
            Err(e) => {
                return Err(e);
            },
        };
        let from = match read_required_field(es[i].1.as_str(), FROM_FIELD) {
            Ok(k) => k,
            Err(e) => {
                return Err(e);
            },
        };
        let to = match read_required_field(es[i].1.as_str(), TO_FIELD) {
            Ok(k) => k,
            Err(e) => {
                return Err(e);
            },
        };
        insert_edge(&mut edges, EdgeDef { name, from, to });
        i = i + 1;
    }
    Ok(edges)
}

fn read_schema_exec(yaml: &str) -> (r: Result<(KindMap, Vec<EdgeDef>), String>)
    ensures
        match read_schema(yaml@) {
            Ok((k, e)) => r matches Ok((km, ev)) && km@ == k && edges_view(ev@) == e,
            Err(e) => r matches Err(x) && x@ == e,
        },
{
    schema_from_mapping(yaml_mapping_entries(yaml))
}

/// Reads the categories and edges from what the YAML reader gave for the whole schema
/// text: its top-level entries, or its error.
pub fn schema_from_mapping(m: Result<Vec<(String, String)>, String>) -> (r: Result<(KindMap, Vec<EdgeDef>), String>)
    ensures
        match read_schema_of(mapping_view(m)) {
            Ok((k, e)) => r matches Ok((km, ev)) && km@ == k && edges_view(ev@) == e,
            Err(e) => r matches Err(x) && x@ == e,
        },
{
    let top = match m {
        Ok(t) => t,
        Err(e) => {
            return Err(e);
        },
    };
    let kt = match read_section(&top, CATEGORIES_SECTION, Some(KINDS_SECTION)) {
        Ok(t) => t,
        Err(e) => {
            return Err(e);
        },
    };
    let kinds = match read_kinds(kt.as_str()) {
        Ok(k) => k,
        Err(e) => {
            return Err(e);
        },
    };
    let et = match read_section(&top, EDGES_SECTION, None) {
        Ok(t) => t,
        Err(e) => {
            return Err(e);
        },
    };
    let edges = match read_edges(et.as_str()) {
        Ok(e) => e,
        Err(e) => {
            return Err(e);
        },
    };
    Ok((kinds, edges))
}

/// Whether `kind` may stand at an end of an edge: `any`, a built-in kind or a category.
pub fn is_valid_kind_ref(kind: &str, kinds: &KindMap) -> (r: bool)
    ensures
        r == valid_kind_ref(kind@, kinds@),
{
    crate::text::str_eq(kind, ANY_KIND) || crate::text::str_eq(kind, INDEX_KIND) || crate::text::str_eq(kind, EVIDENCE_KIND) || kinds.contains_key(kind)
}

/// The diagnostic for edge `edge_name` whose `field` names the undefined kind `kind`.
pub fn make_undefined_kind_error(edge_name: &str, field: &str, kind: &str) -> (d: Diagnostic)
    ensures
        d@ == undefined_kind_diag(edge_name@, field@, kind@),
{
    let mut detail = text_of(UNDEFINED_DETAIL_1);
    detail.append(edge_name);
    detail.append(UNDEFINED_DETAIL_2);
    detail.append(kind);
    detail.append(UNDEFINED_DETAIL_3);
    detail.append(field);
    detail.append(QUOTE);
    let mut fix = text_of(UNDEFINED_FIX_1);
    fix.append(kind);
    fix.append(UNDEFINED_FIX_2);
    let upper = to_uppercase(kind);
    let mut example = text_of(UNDEFINED_EXAMPLE_1);
    example.append(kind);
    example.append(UNDEFINED_EXAMPLE_2);
    example.append(upper.as_str());
    example.append(NEWLINE);
    Diagnostic {
        rule: text_of(SCHEMA_PARSE_ERROR),
        severity: Severity::Error,
        node_id: None,
        file: None,
        detail,
        fix,
        example: Some(example),
        hint: text_of(UNDEFINED_HINT),
    }
}

fn yaml_error_diagnostic(err: &str) -> (d: Diagnostic)
    ensures
        d@ == schema_yaml_diag(err@),
{
    let mut detail = text_of(YAML_DETAIL_1);
    detail.append(err);
    Diagnostic {
        rule: text_of(SCHEMA_PARSE_ERROR),
        severity: Severity::Error,
        node_id: None,
        file: None,
        detail,
        fix: text_of(YAML_FIX),
        example: None,
        hint: text_of(YAML_HINT),
    }
}

/// The view of a schema parse outcome.
pub open spec fn schema_result_view(r: Result<Schema, Diagnostic>) -> Result<(Seq<(Seq<char>, Seq<char>)>, Seq<EdgeView>), DiagnosticView> {
    match r {
        Ok(s) => Ok(schema_view(s)),
        Err(d) => Err(d@),
    }
}

impl SchemaParser {
    /// Parses schema YAML (`categories` or `kinds`, and `edges`) into a [`Schema`] whose
    /// edges only name declared categories, `any`, or the built-in kinds.
    pub fn parse(yaml: &str) -> (r: Result<Schema, Diagnostic>)
        ensures
            schema_result_view(r) == parse_schema(yaml@),
    {
        check_yaml_section_duplicates(yaml, CATEGORIES_SECTION)?;
        check_yaml_section_duplicates(yaml, KINDS_SECTION)?;
        check_yaml_section_duplicates(yaml, EDGES_SECTION)?;
        let (kinds, edges) = match read_schema_exec(yaml) {
            Ok(p) => p,
            Err(e) => {
                return Err(yaml_error_diagnostic(e.as_str()));
            },
        };
        let mut j: usize = 0;
        while j < edges.len()
            invariant
                j <= edges@.len(),
                parse_schema(yaml@) == match first_bad_edge(edges_view(edges@), kinds@, 0) {
                    Some(d) => Err(d),
                    None => Ok((kinds@, edges_view(edges@))),
                },
                first_bad_edge(edges_view(edges@), kinds@, 0) == first_bad_edge(edges_view(edges@), kinds@, j as int),
            decreases edges.len() - j,
        {
            let e = &edges[j];
            assert(edges_view(edges@)[j as int] == e@);
            if !is_valid_kind_ref(e.from.as_str(), &kinds) {
                return Err(make_undefined_kind_error(e.name.as_str(), FROM_FIELD, e.from.as_str()));
            }
            if !is_valid_kind_ref(e.to.as_str(), &kinds) {
                return Err(make_undefined_kind_error(e.name.as_str(), TO_FIELD, e.to.as_str()));
            }
            j = j + 1;
        }
        Ok(Schema { categories: kinds, edges })
    }
}

/// The YAML text of the default schema.
pub const DEFAULT_SCHEMA_YAML: &'static str = "kinds:\n  requirement: { key: REQ }\n  adr: { key: ADR }\n  service: { key: SVC }\n  test: { key: TST }\n  compliance: { key: CPL }\n  runbook: { key: RBK }\n  infra: { key: INF }\nedges:\n  implemented_by: { from: requirement, to: service }\n  verified_by: { from: requirement, to: test }\n  describes: { from: adr, to: service }\n  references: { from: any, to: any }\n  relates_to: { from: any, to: any }\n  evidence: { from: any, to: evidence }\n";

/// The categories of the default schema, in order, with their keys.
pub open spec fn default_categories() -> Seq<(Seq<char>, Seq<char>)> {
    seq![
        ("requirement"@, "REQ"@),
        ("adr"@, "ADR"@),
        ("service"@, "SVC"@),
        ("test"@, "TST"@),
        ("compliance"@, "CPL"@),
        ("runbook"@, "RBK"@),
        ("infra"@, "INF"@),
    ]
}

/// An edge definition as mathematical strings.
pub open spec fn edge_v(name: Seq<char>, from: Seq<char>, to: Seq<char>) -> EdgeView {
    EdgeView { name, from, to }
}

/// The edges of the default schema, in order.
pub open spec fn default_edges() -> Seq<EdgeView> {
    seq![
        edge_v("implemented_by"@, "requirement"@, "service"@),
        edge_v("verified_by"@, "requirement"@, "test"@),
        edge_v("describes"@, "adr"@, "service"@),
        edge_v("references"@, "any"@, "any"@),
        edge_v("relates_to"@, "any"@, "any"@),
        edge_v("evidence"@, "any"@, "evidence"@),
    ]
}

fn edge(name: &str, from: &str, to: &str) -> (e: EdgeDef)
    ensures
        e@ == edge_v(name@, from@, to@),
{
    EdgeDef { name: text_of(name), from: text_of(from), to: text_of(to) }
}

fn put_kind(m: &mut KindMap, name: &str, key: &str)
    requires
        !has_key(old(m)@, name@),
    ensures
        final(m)@ == old(m)@.push((name@, key@)),
{
    m.insert(text_of(name), KindDef { key: text_of(key) });
}

impl SchemaParser {
    /// The default schema: seven categories and six edges.
    pub fn default_schema() -> (s: Schema)
        ensures
            s.categories@ == default_categories(),
            edges_view(s.edges@) == default_edges(),
    {
        proof {
            reveal_strlit("requirement");
            reveal_strlit("adr");
            reveal_strlit("service");
            reveal_strlit("test");
            reveal_strlit("compliance");
            reveal_strlit("runbook");
            reveal_strlit("infra");
            assert("requirement"@.len() == 11);
            assert("adr"@.len() == 3);
            assert("service"@.len() == 7);
            assert("test"@.len() == 4);
            assert("compliance"@.len() == 10);
            assert("runbook"@.len() == 7);
            assert("infra"@.len() == 5);
            assert("service"@[0] == 's');
            assert("runbook"@[0] == 'r');
        }
        let mut m = KindMap::new();
        put_kind(&mut m, "requirement", "REQ");
        put_kind(&mut m, "adr", "ADR");
        put_kind(&mut m, "service", "SVC");
        put_kind(&mut m, "test", "TST");
        assert(forall|i: int| 0 <= i < m@.len() ==> m@[i].0 != "compliance"@);
        put_kind(&mut m, "compliance", "CPL");
        assert(forall|i: int| 0 <= i < m@.len() ==> m@[i].0 != "runbook"@);
        put_kind(&mut m, "runbook", "RBK");
        assert(forall|i: int| 0 <= i < m@.len() ==> m@[i].0 != "infra"@);
        put_kind(&mut m, "infra", "INF");
        assert(m@ =~= default_categories());
        let mut edges: Vec<EdgeDef> = Vec::new();
        edges.push(edge("implemented_by", "requirement", "service"));
        edges.push(edge("verified_by", "requirement", "test"));
        edges.push(edge("describes", "adr", "service"));
        edges.push(edge("references", "any", "any"));
        edges.push(edge("relates_to", "any", "any"));
        edges.push(edge("evidence", "any", "evidence"));
        assert(edges_view(edges@) =~= default_edges());
        Schema { categories: m, edges }
    }
}

/// Every edge of a parsed schema starts and ends at `any`, a built-in kind, or a
/// category the schema declares.
pub proof fn lemma_parsed_edges_are_valid(yaml: Seq<char>)
    ensures
        parse_schema(yaml) matches Ok((kinds, edges)) ==> forall|j: int|
            0 <= j < edges.len() ==> valid_kind_ref(#[trigger] edges[j].from, kinds) && valid_kind_ref(
                edges[j].to,
                kinds,
            ),
{
    if let Ok((kinds, edges)) = parse_schema(yaml) {
        assert forall|j: int| 0 <= j < edges.len() implies valid_kind_ref(#[trigger] edges[j].from, kinds) && valid_kind_ref(edges[j].to, kinds) by {
            lemma_no_bad_edge(edges, kinds, 0, j);
        }
    }
}

proof fn lemma_no_bad_edge(edges: Seq<EdgeView>, kinds: Seq<(Seq<char>, Seq<char>)>, i: int, j: int)
    requires
        0 <= i <= j < edges.len(),
        first_bad_edge(edges, kinds, i) is None,
    ensures
        valid_kind_ref(edges[j].from, kinds) && valid_kind_ref(edges[j].to, kinds),
    decreases j - i,
{
    if i < j {
        lemma_no_bad_edge(edges, kinds, i + 1, j);
    }
}

} // verus!
