//! The decisions of the command-line tool: loading a graph from node files, merging
//! evidence, the outcome of validation, and the reports of the commands. Reading and
//! writing files, running `git` and printing are left to the caller.
use vstd::prelude::*;
use vstd::string::*;

use crate::node_parser::{
    closing_offset, dashes, frame, frontmatter_start, newline_dashes, parse_node,
    parse_result_view, Framing, NodeParser,
};
use crate::text::{lemma_find_from_first, matches_at, starts_with};
use crate::schema::{default_categories, default_edges, parse_schema, schema_view, SchemaParser};
use crate::validation::{edge_refs, evidence_refs, extract_edge_refs, extract_evidence_refs, strs};
use crate::{
    diags_view, has_key, insert_node, value_of, Diagnostic, DiagnosticView, EdgeView, Graph,
    NodeView, Schema, Severity,
};

verus! {

pub const READ_ERROR_RULE: &'static str = "read-error";

pub const DUPLICATE_ID_RULE: &'static str = "duplicate-node-id";

pub const GRAPH_NOT_FOUND_RULE: &'static str = "graph-not-found";

pub const SCHEMA_READ_RULE: &'static str = "schema-read-error";

pub const NODE_EXTENSION: &'static str = "node";

pub const CANNOT_READ_1: &'static str = "Cannot read '";

pub const QUOTE_COLON: &'static str = "': ";

pub const READ_FILE_FIX: &'static str = "Ensure the file is readable UTF-8.";

pub const READ_FILE_HINT: &'static str = "Graph files must be valid UTF-8.";

pub const DUPLICATE_1: &'static str = "Duplicate node ID '";

pub const DUPLICATE_2: &'static str = "' — first defined in '";

pub const QUOTE: &'static str = "'";

pub const DUPLICATE_FIX: &'static str = "Rename one of the nodes to have a unique ID.";

pub const DUPLICATE_HINT: &'static str = "Every node ID must be globally unique across the graph.";

pub const NOT_FOUND_1: &'static str = "Graph directory '";

pub const NOT_FOUND_2: &'static str = "' not found";

pub const NOT_FOUND_FIX: &'static str = "Run `graphite init` or point to a valid graph directory.";

pub const NOT_FOUND_HINT: &'static str = "The graph directory should contain .node files.";

pub const READ_DIR_1: &'static str = "Cannot read directory '";

pub const READ_DIR_FIX: &'static str = "Check directory permissions.";

pub const READ_DIR_HINT: &'static str = "Graph directory must be readable.";

pub const SCHEMA_READ_1: &'static str = "Cannot read schema file '";

pub const SCHEMA_READ_FIX: &'static str = "Ensure graph.schema exists and is readable UTF-8.";

pub const SCHEMA_READ_HINT: &'static str = "Place graph.schema at the repository root next to graphite.yaml.";

/// An error diagnostic about a file, with no node and no example.
pub open spec fn file_diag(rule: Seq<char>, file: Seq<char>, detail: Seq<char>, fix: Seq<char>, hint: Seq<char>) -> DiagnosticView {
    DiagnosticView {
        rule,
        severity: Severity::Error,
        node_id: None,
        file: Some(file),
        detail,
        fix,
        example: None,
        hint,
    }
}

fn file_diagnostic(rule: &str, file: &str, detail: String, fix: &str, hint: &str) -> (d: Diagnostic)
    ensures
        d@ == file_diag(rule@, file@, detail@, fix@, hint@),
{
    Diagnostic {
        rule: String::from_str(rule),
        severity: Severity::Error,
        node_id: None,
        file: Some(String::from_str(file)),
        detail,
        fix: String::from_str(fix),
        example: None,
        hint: String::from_str(hint),
    }
}

fn text3(a: &str, b: &str, c: &str) -> (r: String)
    ensures
        r@ == a@ + b@ + c@,
{
    let mut r = String::from_str(a);
    r.append(b);
    r.append(c);
    r
}

fn text4(a: &str, b: &str, c: &str, d: &str) -> (r: String)
    ensures
        r@ == a@ + b@ + c@ + d@,
{
    let mut r = text3(a, b, c);
    r.append(d);
    r
}

// ---------------------------------------------------------------------------
// Loading a graph
// ---------------------------------------------------------------------------

/// The diagnostic for a `.node` file that cannot be read.
pub open spec fn read_error_diag(path: Seq<char>, err: Seq<char>) -> DiagnosticView {
    file_diag(READ_ERROR_RULE@, path, CANNOT_READ_1@ + path + QUOTE_COLON@ + err, READ_FILE_FIX@, READ_FILE_HINT@)
}

/// The diagnostic for a node whose id an earlier file of the same walk defined.
pub open spec fn duplicate_diag(id: Seq<char>, path: Seq<char>, prev: Seq<char>) -> DiagnosticView {
    DiagnosticView {
        rule: DUPLICATE_ID_RULE@,
        severity: Severity::Error,
        node_id: Some(id),
        file: Some(path),
        detail: DUPLICATE_1@ + id + DUPLICATE_2@ + prev + QUOTE@,
        fix: DUPLICATE_FIX@,
        example: None,
        hint: DUPLICATE_HINT@,
    }
}

/// A diagnostic placed in `file`.
pub open spec fn with_file(d: DiagnosticView, file: Seq<char>) -> DiagnosticView {
    DiagnosticView { file: Some(file), ..d }
}

/// The nodes, errors and node files (id, path) while collecting.
pub struct CollectView {
    pub nodes: Seq<NodeView>,
    pub errors: Seq<DiagnosticView>,
    pub index: Seq<(Seq<char>, Seq<char>)>,
}

/// Collecting one node file: a read error or a parse error is recorded (the latter
/// placed in the file); a parsed node is added to the graph, and an id that an earlier
/// file defined is reported as a duplicate.
pub open spec fn collect_step(st: CollectView, path: Seq<char>, content: Result<Seq<char>, Seq<char>>) -> CollectView {
    match content {
        Err(e) => CollectView { errors: st.errors.push(read_error_diag(path, e)), ..st },
        Ok(text) => match parse_node(text, vstd::utf8::encode_utf8(text).len() as usize) {
            Err(d) => CollectView { errors: st.errors.push(with_file(d, path)), ..st },
            Ok(n) => if has_key(st.index, n.id) {
                CollectView {
                    nodes: insert_node(st.nodes, n),
                    errors: st.errors.push(duplicate_diag(n.id, path, value_of(st.index, n.id))),
                    ..st
                }
            } else {
                CollectView { nodes: insert_node(st.nodes, n), index: st.index.push((n.id, path)), ..st }
            },
        },
    }
}

/// Collecting the first `k` node files.
pub open spec fn collect_upto(
    st: CollectView,
    files: Seq<(Seq<char>, Result<Seq<char>, Seq<char>>)>,
    k: int,
) -> CollectView
    decreases k,
{
    if k <= 0 || k > files.len() {
        st
    } else {
        collect_step(collect_upto(st, files, k - 1), files[k - 1].0, files[k - 1].1)
    }
}

/// The view of the node files found by a walk: each path with its text or read error.
pub open spec fn files_view(files: Seq<(String, Result<String, String>)>) -> Seq<(Seq<char>, Result<Seq<char>, Seq<char>>)> {
    files.map_values(
        |f: (String, Result<String, String>)|
            (
                f.0@,
                match f.1 {
                    Ok(t) => Ok(t@),
                    Err(e) => Err(e@),
                },
            ),
    )
}

/// What a walk of the graph directory does with an entry.
#[derive(Clone, Copy, Debug, PartialEq, Eq, Structural)]
pub enum NodeEntryAction {
    /// Walk into the directory.
    Descend,
    /// Read the `.node` file.
    Read,
    /// Leave the entry alone.
    Ignore,
}

/// Directories are walked unless hidden, `node_modules` or `target`; files are read when
/// their extension is `node`.
pub open spec fn node_entry_action_spec(is_dir: bool, name: Option<Seq<char>>, extension: Option<Seq<char>>) -> NodeEntryAction {
    if is_dir {
        if name matches Some(n) && crate::anchor_scanner::skipped_dir(n) {
            NodeEntryAction::Ignore
        } else {
            NodeEntryAction::Descend
        }
    } else if extension == Some(NODE_EXTENSION@) {
        NodeEntryAction::Read
    } else {
        NodeEntryAction::Ignore
    }
}

/// Decides what the walk of the graph directory does with an entry.
pub fn node_entry_action(is_dir: bool, name: Option<&str>, extension: Option<&str>) -> (r: NodeEntryAction)
    ensures
        r == node_entry_action_spec(
            is_dir,
            match name {
                Some(n) => Some(n@),
                None => None,
            },
            match extension {
                Some(e) => Some(e@),
                None => None,
            },
        ),
{
    if is_dir {
        match name {
            Some(n) => if crate::anchor_scanner::AnchorScanner::is_skipped_dir(n) {
                NodeEntryAction::Ignore
            } else {
                NodeEntryAction::Descend
            },
            None => NodeEntryAction::Descend,
        }
    } else {
        match extension {
            Some(e) => if crate::text::str_eq(e, NODE_EXTENSION) {
                NodeEntryAction::Read
            } else {
                NodeEntryAction::Ignore
            },
            None => NodeEntryAction::Ignore,
        }
    }
}

fn index_position(index: &Vec<(String, String)>, id: &str) -> (r: Option<usize>)
    ensures
        match r {
            Some(i) => i < index@.len() && index@[i as int].0@ == id@,
            None => forall|k: int| 0 <= k < index@.len() ==> index@[k].0@ != id@,
        },
{
    let mut i: usize = 0;
    while i < index.len()
        invariant
            i <= index@.len(),
            forall|k: int| 0 <= k < i ==> index@[k].0@ != id@,
        decreases index.len() - i,
    {
        if crate::text::str_eq(index[i].0.as_str(), id) {
            return Some(i);
        }
        i = i + 1;
    }
    None
}

/// The view of a list of (id, path) pairs.
pub open spec fn pairs(v: Seq<(String, String)>) -> Seq<(Seq<char>, Seq<char>)> {
    v.map_values(|p: (String, String)| (p.0@, p.1@))
}

/// Collects the node files found under one entry of the graph directory, in the order
/// of the walk: each path with its text or the error reading it. Nodes go into `graph`,
/// diagnostics into `errors`; duplicate ids are detected among these files.
pub fn collect_node_files(files: &Vec<(String, Result<String, String>)>, graph: &mut Graph, errors: &mut Vec<Diagnostic>)
    ensures
        ({
            let r = collect_upto(
                CollectView { nodes: old(graph).nodes@, errors: diags_view(old(errors)@), index: seq![] },
                files_view(files@),
                files@.len() as int,
            );
            &&& final(graph).nodes@ == r.nodes
            &&& diags_view(final(errors)@) == r.errors
        }),
        final(graph).schema.categories@ == old(graph).schema.categories@,
        crate::edges_view(final(graph).schema.edges@) == crate::edges_view(old(graph).schema.edges@),
{
    let ghost fv = files_view(files@);
    let ghost st0 = CollectView { nodes: graph.nodes@, errors: diags_view(errors@), index: seq![] };
    let ghost cats = graph.schema.categories@;
    let ghost edges = crate::edges_view(graph.schema.edges@);
    let mut index: Vec<(String, String)> = Vec::new();
    assert(pairs(index@) =~= Seq::<(Seq<char>, Seq<char>)>::empty());
    let mut k: usize = 0;
    while k < files.len()
        invariant
            k <= files@.len(),
            fv == files_view(files@),
            collect_upto(st0, fv, k as int) == (CollectView { nodes: graph.nodes@, errors: diags_view(errors@), index: pairs(index@) }),
            crate::distinct_keys(pairs(index@)),
            graph.schema.categories@ == cats,
            crate::edges_view(graph.schema.edges@) == edges,
        decreases files.len() - k,
    {
        let path = &files[k].0;
        let ghost before = CollectView { nodes: graph.nodes@, errors: diags_view(errors@), index: pairs(index@) };
        assert(fv[k as int].0 == path@);
        match &files[k].1 {
            Err(e) => {
                let d = file_diagnostic(READ_ERROR_RULE, path.as_str(), text4(CANNOT_READ_1, path.as_str(), QUOTE_COLON, e.as_str()), READ_FILE_FIX, READ_FILE_HINT);
                errors.push(d);
                assert(diags_view(errors@) =~= before.errors.push(read_error_diag(path@, e@)));
            },
            Ok(text) => {
                match NodeParser::parse(text.as_str()) {
                    Err(d) => {
                        let mut d = d;
                        d.file = Some(path.clone());
                        errors.push(d);
                        assert(diags_view(errors@) =~= before.errors.push(with_file(
                            parse_node(text@, vstd::utf8::encode_utf8(text@).len() as usize)->Err_0,
                            path@,
                        )));
                    },
                    Ok(node) => {
                        let ghost nv = node@;
                        match index_position(&index, node.id.as_str()) {
                            Some(p) => {
                                proof {
                                    assert(pairs(index@)[p as int].0 == node.id@);
                                    let c = choose|j: int| 0 <= j < pairs(index@).len() && pairs(index@)[j].0 == node.id@;
                                    assert(c == p as int);
                                }
                                let mut detail = text4(DUPLICATE_1, node.id.as_str(), DUPLICATE_2, index[p].1.as_str());
                                detail.append(QUOTE);
                                let d = Diagnostic {
                                    rule: String::from_str(DUPLICATE_ID_RULE),
                                    severity: Severity::Error,
                                    node_id: Some(node.id.clone()),
                                    file: Some(path.clone()),
                                    detail,
                                    fix: String::from_str(DUPLICATE_FIX),
                                    example: None,
                                    hint: String::from_str(DUPLICATE_HINT),
                                };
                                errors.push(d);
                                assert(diags_view(errors@) =~= before.errors.push(duplicate_diag(nv.id, path@, value_of(before.index, nv.id))));
                            },
                            None => {
                                index.push((node.id.clone(), path.clone()));
                                assert(pairs(index@) =~= before.index.push((nv.id, path@)));
                            },
                        }
                        graph.add_node(node);
                    },
                }
            },
        }
        proof {
            assert(collect_upto(st0, fv, k + 1) == collect_step(before, fv[k as int].0, fv[k as int].1));
        }
        k = k + 1;
    }
}

/// The diagnostic for a graph directory that does not exist.
pub fn graph_not_found_error(graph_dir: &str) -> (d: Diagnostic)
    ensures
        d@ == file_diag(GRAPH_NOT_FOUND_RULE@, graph_dir@, NOT_FOUND_1@ + graph_dir@ + NOT_FOUND_2@, NOT_FOUND_FIX@, NOT_FOUND_HINT@),
{
    file_diagnostic(GRAPH_NOT_FOUND_RULE, graph_dir, text3(NOT_FOUND_1, graph_dir, NOT_FOUND_2), NOT_FOUND_FIX, NOT_FOUND_HINT)
}

/// The diagnostic for a graph directory that cannot be listed.
pub fn graph_dir_read_error(graph_dir: &str, err: &str) -> (d: Diagnostic)
    ensures
        d@ == file_diag(READ_ERROR_RULE@, graph_dir@, READ_DIR_1@ + graph_dir@ + QUOTE_COLON@ + err@, READ_DIR_FIX@, READ_DIR_HINT@),
{
    file_diagnostic(READ_ERROR_RULE, graph_dir, text4(READ_DIR_1, graph_dir, QUOTE_COLON, err), READ_DIR_FIX, READ_DIR_HINT)
}

/// The schema of a graph from what reading `graph.schema` gave (`None`: no such file):
/// the default schema, the read error, or the parsed schema (a parse error placed in the
/// schema file).
pub open spec fn load_schema_spec(path: Seq<char>, text: Option<Result<Seq<char>, Seq<char>>>) -> Result<
    (Seq<(Seq<char>, Seq<char>)>, Seq<EdgeView>),
    DiagnosticView,
> {
    match text {
        None => Ok((default_categories(), default_edges())),
        Some(Err(e)) => Err(file_diag(SCHEMA_READ_RULE@, path, SCHEMA_READ_1@ + path + QUOTE_COLON@ + e, SCHEMA_READ_FIX@, SCHEMA_READ_HINT@)),
        Some(Ok(t)) => match parse_schema(t) {
            Ok(s) => Ok(s),
            Err(d) => Err(with_file(d, path)),
        },
    }
}

/// Loads the schema of a graph from what reading the schema file at `schema_path` gave.
pub fn load_schema(schema_path: &str, text: Option<Result<String, String>>) -> (r: Result<Schema, Diagnostic>)
    ensures
        match r {
            Ok(s) => load_schema_spec(schema_path@, crate::config::file_view(text)) == Ok::<_, DiagnosticView>(schema_view(s)),
            Err(d) => load_schema_spec(schema_path@, crate::config::file_view(text)) == Err::<(Seq<(Seq<char>, Seq<char>)>, Seq<EdgeView>), _>(d@),
        },
{
    match text {
        None => Ok(SchemaParser::default_schema()),
        Some(Err(e)) => Err(file_diagnostic(SCHEMA_READ_RULE, schema_path, text4(SCHEMA_READ_1, schema_path, QUOTE_COLON, e.as_str()), SCHEMA_READ_FIX, SCHEMA_READ_HINT)),
        Some(Ok(t)) => match SchemaParser::parse(t.as_str()) {
            Ok(s) => Ok(s),
            Err(d) => {
                let mut d = d;
                d.file = Some(String::from_str(schema_path));
                Err(d)
            },
        },
    }
}

/// The outcome of loading: the graph itself (its nodes and its schema) when no error was
/// recorded, else the errors.
pub fn finish_load(graph: Graph, errors: Vec<Diagnostic>) -> (r: Result<Graph, Vec<Diagnostic>>)
    ensures
        errors@.len() == 0 ==> (r matches Ok(g) && g == graph),
        errors@.len() == 0 ==> (r matches Ok(g) && g.nodes@ == graph.nodes@
            && g.schema.categories@ == graph.schema.categories@
            && crate::edges_view(g.schema.edges@) == crate::edges_view(graph.schema.edges@)),
        errors@.len() > 0 ==> (r matches Err(es) && diags_view(es@) == diags_view(errors@)),
{
    if errors.len() == 0 {
        Ok(graph)
    } else {
        Err(errors)
    }
}


// ---------------------------------------------------------------------------
// Evidence
// ---------------------------------------------------------------------------

/// The view of an evidence map.
pub type EvidenceView = Seq<(Seq<char>, Seq<(Seq<char>, usize)>)>;

/// The map after adding every entry of `found`, in order: locations of an id already
/// present are appended to its own.
pub open spec fn merge_upto(m: EvidenceView, found: EvidenceView, k: int) -> EvidenceView
    decreases k,
{
    if k <= 0 || k > found.len() {
        m
    } else {
        crate::sidecar::add_locations(merge_upto(m, found, k - 1), found[k - 1].0, found[k - 1].1)
    }
}

/// The map after adding every entry of `found`.
pub open spec fn merge_evidence_spec(m: EvidenceView, found: EvidenceView) -> EvidenceView {
    merge_upto(m, found, found.len() as int)
}

/// What a scan or a sidecar resolution gave, as far as evidence goes: its map, or nothing
/// when it failed.
pub open spec fn found_view(r: Result<crate::EvidenceMap, Diagnostic>) -> Option<EvidenceView> {
    match r {
        Ok(m) => Some(m@),
        Err(_) => None,
    }
}

/// The evidence gathered from the results of the first `k` scan roots: for each root,
/// what the anchor scan found, then what its sidecar resolved; failures add nothing.
pub open spec fn gathered_upto(rs: Seq<(Option<EvidenceView>, Option<EvidenceView>)>, k: int) -> EvidenceView
    decreases k,
{
    if k <= 0 || k > rs.len() {
        seq![]
    } else {
        let m = gathered_upto(rs, k - 1);
        let m1 = match rs[k - 1].0 {
            Some(f) => merge_evidence_spec(m, f),
            None => m,
        };
        match rs[k - 1].1 {
            Some(f) => merge_evidence_spec(m1, f),
            None => m1,
        }
    }
}

/// Each id's locations sorted and without repeats.
pub open spec fn normalized(m: EvidenceView) -> EvidenceView {
    m.map_values(|e: (Seq<char>, Seq<(Seq<char>, usize)>)| (e.0, crate::paths::dedup_locs(crate::paths::sort_locs(e.1))))
}

/// After normalization every id keeps its place, and its locations are locations it had,
/// with no location directly after the same one; where the order of paths is a strict
/// order on an id's locations, they come in order.
pub proof fn lemma_normalized_locations(m: EvidenceView)
    ensures
        normalized(m).len() == m.len(),
        forall|k: int|
            #![trigger normalized(m)[k]]
            0 <= k < m.len() ==> {
                let locs = normalized(m)[k].1;
                &&& normalized(m)[k].0 == m[k].0
                &&& forall|y: (Seq<char>, usize)| locs.contains(y) ==> m[k].1.contains(y)
                &&& crate::paths::no_adjacent_repeats(locs)
                &&& crate::paths::strict_order_on(m[k].1) ==> crate::paths::locs_ordered(locs)
            },
{
    broadcast use vstd::seq_lib::group_to_multiset_ensures;

    assert forall|k: int|
        #![trigger normalized(m)[k]]
        0 <= k < m.len() implies {
        let locs = normalized(m)[k].1;
        &&& normalized(m)[k].0 == m[k].0
        &&& forall|y: (Seq<char>, usize)| locs.contains(y) ==> m[k].1.contains(y)
        &&& crate::paths::no_adjacent_repeats(locs)
        &&& crate::paths::strict_order_on(m[k].1) ==> crate::paths::locs_ordered(locs)
    } by {
        let s = m[k].1;
        let sorted = crate::paths::sort_locs(s);
        crate::paths::lemma_sorted_locations(s);
        crate::paths::lemma_deduplicated_locations(sorted);
        assert forall|y: (Seq<char>, usize)| sorted.contains(y) implies s.contains(y) by {
            assert(sorted.to_multiset().count(y) > 0);
        }
    }
}

/// The view of the results of the scan roots.
pub open spec fn results_view(rs: Seq<(Result<crate::EvidenceMap, Diagnostic>, Result<crate::EvidenceMap, Diagnostic>)>) -> Seq<(Option<EvidenceView>, Option<EvidenceView>)> {
    rs.map_values(|r: (Result<crate::EvidenceMap, Diagnostic>, Result<crate::EvidenceMap, Diagnostic>)| (found_view(r.0), found_view(r.1)))
}

/// Adds every entry of `found` to `evidence`.
pub fn merge_evidence(evidence: &mut crate::EvidenceMap, found: &crate::EvidenceMap)
    ensures
        final(evidence)@ == merge_evidence_spec(old(evidence)@, found@),
{
    let entries = found.entries();
    let ghost fv = found@;
    let mut k: usize = 0;
    while k < entries.len()
        invariant
            k <= entries@.len(),
            entries@.map_values(|e: (String, Vec<(String, usize)>)| crate::evidence_entry_view(e)) == fv,
            evidence@ == merge_upto(old(evidence)@, fv, k as int),
        decreases entries.len() - k,
    {
        assert(fv[k as int] == crate::evidence_entry_view(entries@[k as int]));
        let id = entries[k].0.clone();
        let locs = crate::clone_locations(&entries[k].1);
        evidence.extend(id, locs);
        k = k + 1;
    }
}

/// The path of a scan root: as given when absolute, else under `base_dir`.
pub fn scan_root_path(scan_path: &str, base_dir: &str) -> (r: String)
    ensures
        r@ == (if crate::paths::path_absolute(scan_path@) { scan_path@ } else { crate::paths::joined_path(base_dir@, scan_path@) }),
{
    if crate::paths::path_is_absolute(scan_path) {
        String::from_str(scan_path)
    } else {
        crate::paths::path_join(base_dir, scan_path)
    }
}

fn normalize_evidence(m: &crate::EvidenceMap) -> (r: crate::EvidenceMap)
    ensures
        r@ == normalized(m@),
        forall|k: int| 0 <= k < r@.len() ==> crate::paths::locs_ascending(#[trigger] r@[k].1),
{
    m.keys_distinct();
    let entries = m.entries();
    let ghost mv = m@;
    let mut out = crate::EvidenceMap::new();
    let mut k: usize = 0;
    while k < entries.len()
        invariant
            k <= entries@.len(),
            entries@.map_values(|e: (String, Vec<(String, usize)>)| crate::evidence_entry_view(e)) == mv,
            crate::distinct_keys(mv),
            out@ == normalized(mv).take(k as int),
            forall|j: int| 0 <= j < k ==> crate::paths::locs_ascending(#[trigger] normalized(mv)[j].1),
        decreases entries.len() - k,
    {
        assert(mv[k as int] == crate::evidence_entry_view(entries@[k as int]));
        let sorted = crate::paths::sort_locations(&entries[k].1);
        let deduped = crate::paths::dedup_locations(&sorted);
        assert(crate::paths::locs_ascending(normalized(mv)[k as int].1));
        let ghost key = mv[k as int].0;
        proof {
            if has_key(out@, key) {
                let j = choose|j: int| 0 <= j < out@.len() && out@[j].0 == key;
                assert(out@[j].0 == mv[j].0);
            }
        }
        out.insert(entries[k].0.clone(), deduped);
        assert(out@ =~= normalized(mv).take(k + 1));
        k = k + 1;
    }
    assert(normalized(mv).take(mv.len() as int) =~= normalized(mv));
    assert forall|j: int| 0 <= j < out@.len() implies crate::paths::locs_ascending(#[trigger] out@[j].1) by {
        assert(out@[j] == normalized(mv)[j]);
    }
    out
}

/// Gathers the evidence found under the scan roots (for each root, what the anchor scan
/// and the sidecar resolution gave; failures are skipped), then sorts each id's locations
/// and removes repeated ones (overlapping roots can find a location twice): each id's
/// locations come out strictly ascending by path, then line.
pub fn resolve_evidence(results: &Vec<(Result<crate::EvidenceMap, Diagnostic>, Result<crate::EvidenceMap, Diagnostic>)>) -> (r: crate::EvidenceMap)
    ensures
        r@ == normalized(gathered_upto(results_view(results@), results@.len() as int)),
        forall|k: int| 0 <= k < r@.len() ==> crate::paths::locs_ascending(#[trigger] r@[k].1),
{
    let ghost rv = results_view(results@);
    let mut evidence = crate::EvidenceMap::new();
    let mut k: usize = 0;
    while k < results.len()
        invariant
            k <= results@.len(),
            rv == results_view(results@),
            evidence@ == gathered_upto(rv, k as int),
        decreases results.len() - k,
    {
        assert(rv[k as int] == (found_view(results@[k as int].0), found_view(results@[k as int].1)));
        match &results[k].0 {
            Ok(m) => merge_evidence(&mut evidence, m),
            Err(_) => {},
        }
        match &results[k].1 {
            Ok(m) => merge_evidence(&mut evidence, m),
            Err(_) => {},
        }
        k = k + 1;
    }
    normalize_evidence(&evidence)
}

// ---------------------------------------------------------------------------
// Validation
// ---------------------------------------------------------------------------

/// A diagnostic with its severity raised to error.
pub open spec fn promoted(d: DiagnosticView) -> DiagnosticView {
    DiagnosticView { severity: Severity::Error, ..d }
}

/// The diagnostics of strict mode: every one an error.
pub open spec fn strict_view(ds: Seq<DiagnosticView>) -> Seq<DiagnosticView> {
    ds.map_values(|d: DiagnosticView| promoted(d))
}

/// Some diagnostic is an error.
pub open spec fn any_error(ds: Seq<DiagnosticView>) -> bool {
    exists|i: int| 0 <= i < ds.len() && ds[i].severity == Severity::Error
}

/// Turns every warning into an error (strict mode); nothing else changes.
pub fn promote_warnings(diags: &mut Vec<Diagnostic>)
    ensures
        diags_view(final(diags)@) == strict_view(diags_view(old(diags)@)),
{
    let ghost start = diags_view(diags@);
    let mut i: usize = 0;
    while i < diags.len()
        invariant
            i <= diags@.len(),
            diags@.len() == start.len(),
            forall|k: int| 0 <= k < i ==> (#[trigger] diags@[k])@ == promoted(start[k]),
            forall|k: int| i <= k < diags@.len() ==> (#[trigger] diags@[k])@ == start[k],
        decreases diags.len() - i,
    {
        let mut d = diags[i].clone();
        assert(d@ == start[i as int]) by {
            assert(diags@[i as int]@ == start[i as int]);
        }
        d.severity = Severity::Error;
        diags.set(i, d);
        i = i + 1;
    }
    assert(diags_view(diags@) =~= strict_view(start));
}

/// After strict mode no warning is left, and nothing but the severities changed.
pub proof fn lemma_strict_leaves_no_warning(ds: Seq<DiagnosticView>)
    ensures
        strict_view(ds).len() == ds.len(),
        forall|i: int| 0 <= i < ds.len() ==> (#[trigger] strict_view(ds)[i]).severity == Severity::Error,
        forall|i: int| 0 <= i < ds.len() ==> (DiagnosticView { severity: ds[i].severity, ..strict_view(ds)[i] }) == ds[i],
{
}

/// Whether some diagnostic is an error.
pub fn has_errors(diags: &Vec<Diagnostic>) -> (r: bool)
    ensures
        r == any_error(diags_view(diags@)),
{
    let ghost dv = diags_view(diags@);
    let mut i: usize = 0;
    while i < diags.len()
        invariant
            i <= diags@.len(),
            dv == diags_view(diags@),
            forall|k: int| 0 <= k < i ==> dv[k].severity != Severity::Error,
        decreases diags.len() - i,
    {
        assert(dv[i as int] == diags@[i as int]@);
        if diags[i].severity == Severity::Error {
            return true;
        }
        i = i + 1;
    }
    false
}

/// The verdict of validation.
#[derive(Clone, Copy, Debug, PartialEq, Eq, Structural)]
pub enum Verdict {
    /// No diagnostic at all.
    Valid,
    /// Diagnostics, none of them an error: validation passes.
    ValidWithWarnings,
    /// At least one error: validation fails.
    Invalid,
}

/// The verdict for a list of diagnostics.
pub open spec fn verdict_of(ds: Seq<DiagnosticView>) -> Verdict {
    if ds.len() == 0 {
        Verdict::Valid
    } else if !any_error(ds) {
        Verdict::ValidWithWarnings
    } else {
        Verdict::Invalid
    }
}

/// Decides the verdict of validation.
pub fn validation_verdict(diags: &Vec<Diagnostic>) -> (r: Verdict)
    ensures
        r == verdict_of(diags_view(diags@)),
{
    if diags.len() == 0 {
        Verdict::Valid
    } else if !has_errors(diags) {
        Verdict::ValidWithWarnings
    } else {
        Verdict::Invalid
    }
}

/// The compatibility checks for a target version: there are none yet.
pub fn check_compatibility(graph: &Graph, compat: Option<&str>) -> (r: Vec<Diagnostic>)
    ensures
        r@.len() == 0,
{
    Vec::new()
}

/// All diagnostics of a validation run: the structural checks, unresolved evidence
/// references, unused anchors, oversized node files and compatibility; in strict mode
/// every warning becomes an error.
pub open spec fn validation_report_spec(ns: Seq<NodeView>, ev: EvidenceView, max_chars: usize, strict: bool) -> Seq<DiagnosticView> {
    let all = crate::validation::broken_edges(ns) + crate::validation::missing_titles(ns)
        + crate::validation::unresolved_evidence(ns, ev) + crate::validation::unused_anchors(ns, ev)
        + crate::validation::too_large(ns, max_chars);
    if strict {
        strict_view(all)
    } else {
        all
    }
}

/// Runs every check of `graphite validate` on a loaded graph and its evidence.
pub fn validation_report(
    graph: &Graph,
    evidence: &crate::EvidenceMap,
    node_max_chars: usize,
    compat: Option<&str>,
    strict: bool,
) -> (r: Vec<Diagnostic>)
    ensures
        diags_view(r@) == validation_report_spec(graph.nodes@, evidence@, node_max_chars, strict),
{
    let engine = crate::validation::ValidationEngine;
    let mut diagnostics = engine.validate(graph);
    let mut more = engine.check_evidence_anchors(graph, evidence);
    let ghost a = diags_view(diagnostics@);
    let ghost b = diags_view(more@);
    diagnostics.append(&mut more);
    assert(diags_view(diagnostics@) =~= a + b);
    let mut unused = engine.check_unused_anchors(graph, evidence);
    let ghost a2 = diags_view(diagnostics@);
    let ghost b2 = diags_view(unused@);
    diagnostics.append(&mut unused);
    assert(diags_view(diagnostics@) =~= a2 + b2);
    let mut large = engine.check_node_file_size(graph, node_max_chars);
    let ghost a3 = diags_view(diagnostics@);
    let ghost b3 = diags_view(large@);
    diagnostics.append(&mut large);
    assert(diags_view(diagnostics@) =~= a3 + b3);
    let mut compat_diags = check_compatibility(graph, compat);
    let ghost a4 = diags_view(diagnostics@);
    diagnostics.append(&mut compat_diags);
    assert(diags_view(diagnostics@) =~= a4);
    if strict {
        promote_warnings(&mut diagnostics);
    }
    diagnostics
}

/// The diagnostics shown: those about node `focus` when given, only the first when
/// `first` is set.
pub open spec fn shown_diagnostics(ds: Seq<DiagnosticView>, focus: Option<Seq<char>>, first: bool) -> Seq<DiagnosticView> {
    let kept = match focus {
        Some(f) => ds.filter(|d: DiagnosticView| d.node_id == Some(f)),
        None => ds,
    };
    if first && kept.len() > 1 {
        kept.take(1)
    } else {
        kept
    }
}

/// Selects the diagnostics to show.
pub fn filter_diagnostics(diags: &Vec<Diagnostic>, focus: Option<&str>, first: bool) -> (r: Vec<Diagnostic>)
    ensures
        diags_view(r@) == shown_diagnostics(
            diags_view(diags@),
            match focus {
                Some(f) => Some(f@),
                None => None,
            },
            first,
        ),
{
    let ghost dv = diags_view(diags@);
    let ghost fv: Option<Seq<char>> = match focus {
        Some(f) => Some(f@),
        None => None,
    };
    let mut kept: Vec<Diagnostic> = Vec::new();
    let mut i: usize = 0;
    while i < diags.len()
        invariant
            i <= diags@.len(),
            dv == diags_view(diags@),
            fv == match focus {
                Some(f) => Some(f@),
                None => None::<Seq<char>>,
            },
            diags_view(kept@) == match fv {
                Some(f) => dv.take(i as int).filter(|d: DiagnosticView| d.node_id == Some(f)),
                None => dv.take(i as int),
            },
        decreases diags.len() - i,
    {
        let ghost before = diags_view(kept@);
        assert(dv[i as int] == diags@[i as int]@);
        assert(dv.take(i + 1).drop_last() =~= dv.take(i as int));
        let keep = match focus {
            Some(f) => match &diags[i].node_id {
                Some(n) => crate::text::str_eq(n.as_str(), f),
                None => false,
            },
            None => true,
        };
        if keep {
            kept.push(diags[i].clone());
            assert(diags_view(kept@) =~= before.push(dv[i as int]));
        }
        proof {
            match fv {
                Some(f) => {
                    dv.take(i as int).lemma_filter_push(dv[i as int], |d: DiagnosticView| d.node_id == Some(f));
                    assert(dv.take(i + 1) =~= dv.take(i as int).push(dv[i as int]));
                },
                None => {
                    assert(dv.take(i + 1) =~= dv.take(i as int).push(dv[i as int]));
                },
            }
        }
        i = i + 1;
    }
    assert(dv.take(dv.len() as int) =~= dv);
    if first && kept.len() > 1 {
        kept.truncate(1);
        assert(diags_view(kept@) =~= diags_view(kept@).take(1));
    }
    kept
}

// ---------------------------------------------------------------------------
// References in bodies
// ---------------------------------------------------------------------------

/// The targets of the `[edge:<id>]` references in a body.
pub fn extract_edge_refs_from_body(body: &str) -> (r: Vec<String>)
    ensures
        strs(r@) == edge_refs(body@),
{
    extract_edge_refs(body)
}

/// The ids of the `[evidence:<id>]` references in a body.
pub fn extract_evidence_refs_from_body(body: &str) -> (r: Vec<String>)
    ensures
        strs(r@) == evidence_refs(body@),
{
    extract_evidence_refs(body)
}

/// The ids of the `[marker<id>]` references in a body.
pub fn extract_marker_refs(body: &str, marker: &str) -> (r: Vec<String>)
    ensures
        strs(r@) == crate::validation::marker_refs(body@, marker@),
{
    crate::validation::extract_marker_refs(body, marker)
}


// ---------------------------------------------------------------------------
// Printing diagnostics
// ---------------------------------------------------------------------------

pub const ERROR_NAME: &'static str = "error";

pub const WARNING_NAME: &'static str = "warning";

pub const OPEN_BRACKET: &'static str = "[";

pub const CLOSE_BRACKET_SPACE: &'static str = "] ";

pub const COLON_SPACE: &'static str = ": ";

pub const FIX_LINE: &'static str = "\n  fix: ";

pub const EXAMPLE_LINE: &'static str = "\n  example:\n";

pub const HINT_LINE: &'static str = "\n  hint: ";

pub const LINE_END: &'static str = "\n";

/// The name of a severity: `error` or `warning`.
pub open spec fn severity_name_spec(s: Severity) -> Seq<char> {
    match s {
        Severity::Error => ERROR_NAME@,
        Severity::Warning => WARNING_NAME@,
    }
}

/// The name of a severity.
pub fn severity_name(s: Severity) -> (r: &'static str)
    ensures
        r@ == severity_name_spec(s),
{
    match s {
        Severity::Error => ERROR_NAME,
        Severity::Warning => WARNING_NAME,
    }
}

/// The one-line form of a diagnostic: `[severity] rule: detail`.
pub open spec fn brief_text(d: DiagnosticView) -> Seq<char> {
    OPEN_BRACKET@ + severity_name_spec(d.severity) + CLOSE_BRACKET_SPACE@ + d.rule + COLON_SPACE@ + d.detail
}

/// The full form of a diagnostic: its one-line form, then its fix, its example when it
/// has one, and its hint, each on lines of their own.
pub open spec fn report_text(d: DiagnosticView) -> Seq<char> {
    brief_text(d) + FIX_LINE@ + d.fix + match d.example {
        Some(e) => EXAMPLE_LINE@ + e,
        None => Seq::<char>::empty(),
    } + HINT_LINE@ + d.hint + LINE_END@
}

/// Writes the one-line form of a diagnostic.
pub fn brief_line(d: &Diagnostic) -> (r: String)
    ensures
        r@ == brief_text(d@),
{
    let mut r = String::from_str(OPEN_BRACKET);
    r.append(severity_name(d.severity));
    r.append(CLOSE_BRACKET_SPACE);
    r.append(d.rule.as_str());
    r.append(COLON_SPACE);
    r.append(d.detail.as_str());
    r
}

/// Writes the full form of a diagnostic.
pub fn diagnostic_text(d: &Diagnostic) -> (r: String)
    ensures
        r@ == report_text(d@),
{
    let mut r = brief_line(d);
    r.append(FIX_LINE);
    r.append(d.fix.as_str());
    match &d.example {
        Some(e) => {
            r.append(EXAMPLE_LINE);
            r.append(e.as_str());
        },
        None => {},
    }
    r.append(HINT_LINE);
    r.append(d.hint.as_str());
    r.append(LINE_END);
    r
}

// ---------------------------------------------------------------------------
// diff
// ---------------------------------------------------------------------------

pub const GRAPH_PREFIX: &'static str = "graph/";

/// How a file changed.
#[derive(Clone, Copy, Debug, PartialEq, Eq, Structural)]
pub enum Change {
    Added,
    Changed,
    Removed,
}

/// A path without its leading `graph/` prefixes (`trim_start_matches("graph/")`).
pub open spec fn strip_graph_prefix(f: Seq<char>) -> Seq<char>
    decreases f.len(),
{
    if f.len() >= 6 && f.subrange(0, 6) == GRAPH_PREFIX@ {
        strip_graph_prefix(f.subrange(6, f.len() as int))
    } else {
        f
    }
}

/// The change a line of `git diff --name-status` reports: the trimmed line must hold a
/// tab; the first character of the status before it says `A` (added), `M` or `R`
/// (changed) or `D` (removed); the file after it loses its `graph/` prefixes.
pub open spec fn diff_line(line: Seq<char>) -> Option<(Change, Seq<char>)> {
    let t = crate::text::trim(line);
    match find_from_tab(t) {
        None => None,
        Some(p) => {
            let file = strip_graph_prefix(t.subrange(p + 1, t.len() as int));
            if p == 0 {
                None
            } else if t[0] == 'A' {
                Some((Change::Added, file))
            } else if t[0] == 'M' || t[0] == 'R' {
                Some((Change::Changed, file))
            } else if t[0] == 'D' {
                Some((Change::Removed, file))
            } else {
                None
            }
        },
    }
}

/// The position of the first tab.
pub open spec fn find_from_tab(t: Seq<char>) -> Option<int> {
    crate::text::find_from(t, seq!['\t'], 0)
}

/// The files of the first `k` lines that changed in the way `c`.
pub open spec fn changed_files_upto(ls: Seq<Seq<char>>, c: Change, k: int) -> Seq<Seq<char>>
    decreases k,
{
    if k <= 0 || k > ls.len() {
        seq![]
    } else {
        changed_files_upto(ls, c, k - 1) + match diff_line(ls[k - 1]) {
            Some((c2, f)) => if c2 == c {
                seq![f]
            } else {
                seq![]
            },
            None => seq![],
        }
    }
}

/// The files of a `git diff --name-status` output that changed in the way `c`, in order.
pub open spec fn changed_files(output: Seq<char>, c: Change) -> Seq<Seq<char>> {
    let ls = crate::text::lines(output);
    changed_files_upto(ls, c, ls.len() as int)
}

/// The knowledge-level changes: added, changed and removed node files.
pub struct DiffOutput {
    pub new: Vec<String>,
    pub changed: Vec<String>,
    pub removed: Vec<String>,
}

fn strip_graph_prefix_exec(v: &Vec<char>, from: usize) -> (r: String)
    requires
        from <= v@.len(),
    ensures
        r@ == strip_graph_prefix(v@.subrange(from as int, v@.len() as int)),
{
    let prefix = vec!['g', 'r', 'a', 'p', 'h', '/'];
    proof {
        reveal_strlit("graph/");
        assert(prefix@ =~= GRAPH_PREFIX@);
    }
    let mut i = from;
    while v.len() - i >= 6 && crate::text::matches_at_exec(v, &prefix, i)
        invariant
            from <= i <= v@.len(),
            prefix@ == GRAPH_PREFIX@,
            prefix@.len() == 6,
            strip_graph_prefix(v@.subrange(from as int, v@.len() as int)) == strip_graph_prefix(
                v@.subrange(i as int, v@.len() as int),
            ),
        decreases v.len() - i,
    {
        let ghost f = v@.subrange(i as int, v@.len() as int);
        assert(f.subrange(0, 6) =~= v@.subrange(i as int, i + 6));
        assert(f.subrange(0, 6) == GRAPH_PREFIX@);
        assert(f.subrange(6, f.len() as int) =~= v@.subrange(i + 6, v@.len() as int));
        assert(strip_graph_prefix(f) == strip_graph_prefix(f.subrange(6, f.len() as int)));
        i = i + 6;
    }
    proof {
        let f = v@.subrange(i as int, v@.len() as int);
        if f.len() >= 6 {
            assert(f.subrange(0, 6) =~= v@.subrange(i as int, i + 6));
            if f.subrange(0, 6) == GRAPH_PREFIX@ {
                assert(crate::text::matches_at(v@, prefix@, i as int));
            }
        }
    }
    string_of_range(v, i, v.len())
}

fn string_of_range(v: &Vec<char>, a: usize, b: usize) -> (r: String)
    requires
        a <= b <= v@.len(),
    ensures
        r@ == v@.subrange(a as int, b as int),
{
    crate::text::string_of(vstd::slice::slice_subrange(v.as_slice(), a, b))
}

fn diff_line_exec(line: &Vec<char>) -> (r: Option<(Change, String)>)
    ensures
        match diff_line(line@) {
            Some((c, f)) => r matches Some((c2, f2)) && c2 == c && f2@ == f,
            None => r is None,
        },
{
    let (a, b) = crate::text::trim_bounds(line);
    let t = vstd::slice::slice_to_vec(vstd::slice::slice_subrange(line.as_slice(), a, b));
    let tab = vec!['\t'];
    assert(tab@ =~= seq!['\t']);
    let p = match crate::text::find_chars(&t, &tab, 0) {
        Some(p) => p,
        None => {
            return None;
        },
    };
    proof {
        crate::text::lemma_find_from_bounds(t@, tab@, 0);
    }
    if p == 0 {
        return None;
    }
    let file = strip_graph_prefix_exec(&t, p + 1);
    let c = t[0];
    if c == 'A' {
        Some((Change::Added, file))
    } else if c == 'M' || c == 'R' {
        Some((Change::Changed, file))
    } else if c == 'D' {
        Some((Change::Removed, file))
    } else {
        None
    }
}

/// Sorts the lines of `git diff --name-status -- *.node` into added, changed and removed
/// node files.
pub fn classify_diff(output: &str) -> (r: DiffOutput)
    ensures
        strs(r.new@) == changed_files(output@, Change::Added),
        strs(r.changed@) == changed_files(output@, Change::Changed),
        strs(r.removed@) == changed_files(output@, Change::Removed),
{
    let v = crate::text::chars_of(output);
    let ghost s = v@;
    let ghost ls = crate::text::lines(s);
    let ghost mut done: Seq<Seq<char>> = seq![];
    let mut new: Vec<String> = Vec::new();
    let mut changed: Vec<String> = Vec::new();
    let mut removed: Vec<String> = Vec::new();
    let mut i: usize = 0;
    while i < v.len()
        invariant
            s == v@,
            s == output@,
            ls == crate::text::lines(s),
            i <= v@.len(),
            done.len() <= i,
            ls == done + crate::text::lines_from(s, i as int),
            strs(new@) == changed_files_upto(ls, Change::Added, done.len() as int),
            strs(changed@) == changed_files_upto(ls, Change::Changed, done.len() as int),
            strs(removed@) == changed_files_upto(ls, Change::Removed, done.len() as int),
        decreases v.len() - i,
    {
        let (c, e) = crate::text::next_line(&v, i);
        let line = vstd::slice::slice_to_vec(vstd::slice::slice_subrange(v.as_slice(), i, c));
        proof {
            assert(ls =~= done.push(line@) + crate::text::lines_from(s, e + 1));
            assert(ls[done.len() as int] == line@);
        }
        let ghost k = done.len() as int;
        let ghost n0 = strs(new@);
        let ghost c0 = strs(changed@);
        let ghost r0 = strs(removed@);
        match diff_line_exec(&line) {
            Some((Change::Added, f)) => {
                new.push(f);
                assert(strs(new@) =~= n0.push(diff_line(line@)->Some_0.1));
            },
            Some((Change::Changed, f)) => {
                changed.push(f);
                assert(strs(changed@) =~= c0.push(diff_line(line@)->Some_0.1));
            },
            Some((Change::Removed, f)) => {
                removed.push(f);
                assert(strs(removed@) =~= r0.push(diff_line(line@)->Some_0.1));
            },
            None => {},
        }
        proof {
            assert(changed_files_upto(ls, Change::Added, k + 1) =~= strs(new@));
            assert(changed_files_upto(ls, Change::Changed, k + 1) =~= strs(changed@));
            assert(changed_files_upto(ls, Change::Removed, k + 1) =~= strs(removed@));
            done = done.push(line@);
        }
        if e >= v.len() {
            i = v.len();
        } else {
            i = e + 1;
        }
    }
    proof {
        assert(done + crate::text::lines_from(s, i as int) =~= done);
    }
    DiffOutput { new, changed, removed }
}


// ---------------------------------------------------------------------------
// stats
// ---------------------------------------------------------------------------

/// The counts after counting `k` once more.
pub open spec fn add_count(m: Seq<(Seq<char>, nat)>, k: Seq<char>) -> Seq<(Seq<char>, nat)> {
    crate::store(m, k, if has_key(m, k) { value_of(m, k) + 1 } else { 1 })
}

/// How often each of the first `n` keys occurs, keys in order of first appearance.
pub open spec fn tally_upto(keys: Seq<Seq<char>>, n: int) -> Seq<(Seq<char>, nat)>
    decreases n,
{
    if n <= 0 || n > keys.len() {
        seq![]
    } else {
        add_count(tally_upto(keys, n - 1), keys[n - 1])
    }
}

/// How often each key occurs, keys in order of first appearance.
pub open spec fn tally(keys: Seq<Seq<char>>) -> Seq<(Seq<char>, nat)> {
    tally_upto(keys, keys.len() as int)
}

/// The view of a list of counts.
pub open spec fn counts_view(v: Seq<(String, usize)>) -> Seq<(Seq<char>, nat)> {
    v.map_values(|e: (String, usize)| (e.0@, e.1 as nat))
}

/// Counts how often each key occurs.
pub fn tally_keys(keys: &Vec<String>) -> (r: Vec<(String, usize)>)
    ensures
        counts_view(r@) == tally(strs(keys@)),
{
    let ghost kv = strs(keys@);
    let mut out: Vec<(String, usize)> = Vec::new();
    let mut i: usize = 0;
    assert(counts_view(out@) =~= tally_upto(kv, 0));
    while i < keys.len()
        invariant
            i <= keys@.len(),
            kv == strs(keys@),
            counts_view(out@) == tally_upto(kv, i as int),
            crate::distinct_keys(counts_view(out@)),
            forall|j: int| 0 <= j < out@.len() ==> (#[trigger] out@[j]).1 <= i,
        decreases keys.len() - i,
    {
        let ghost before = counts_view(out@);
        let k = &keys[i];
        assert(kv[i as int] == k@);
        let mut p: usize = 0;
        while p < out.len() && !crate::text::str_eq(out[p].0.as_str(), k.as_str())
            invariant
                p <= out@.len(),
                before == counts_view(out@),
                forall|q: int| 0 <= q < p ==> before[q].0 != k@,
            decreases out.len() - p,
        {
            assert(before[p as int].0 == out@[p as int].0@);
            p = p + 1;
        }
        if p < out.len() {
            assert(before[p as int].0 == out@[p as int].0@);
            proof {
                let c = choose|j: int| 0 <= j < before.len() && before[j].0 == k@;
                assert(c == p as int);
            }
            let n = out[p].1;
            assert(n <= i);
            out.set(p, (k.clone(), n + 1));
            assert(counts_view(out@) =~= before.update(p as int, (k@, (n + 1) as nat)));
        } else {
            out.push((k.clone(), 1));
            assert(counts_view(out@) =~= before.push((k@, 1nat)));
        }
        proof {
            assert forall|a: int, b: int| 0 <= a < b < counts_view(out@).len() implies counts_view(out@)[a].0 != counts_view(out@)[b].0 by {
                if b < before.len() {
                    assert(counts_view(out@)[a].0 == before[a].0);
                    assert(counts_view(out@)[b].0 == before[b].0);
                } else {
                    assert(counts_view(out@)[a].0 == before[a].0);
                }
            }
        }
        i = i + 1;
    }
    out
}

/// How many nodes each category has, in order of first appearance.
pub fn nodes_by_category(graph: &Graph) -> (r: Vec<(String, usize)>)
    ensures
        counts_view(r@) == tally(graph.nodes@.map_values(|n: NodeView| n.category)),
{
    let nodes = graph.nodes.values();
    let ghost ns = graph.nodes@;
    let mut keys: Vec<String> = Vec::new();
    let mut i: usize = 0;
    while i < nodes.len()
        invariant
            i <= nodes@.len(),
            ns == nodes@.map_values(|n: crate::Node| n@),
            ns == graph.nodes@,
            strs(keys@) == ns.take(i as int).map_values(|n: NodeView| n.category),
        decreases nodes.len() - i,
    {
        let c = nodes[i].category.clone();
        assert(ns[i as int] == nodes@[i as int]@);
        let ghost before = strs(keys@);
        keys.push(c);
        assert(strs(keys@) =~= before.push(ns[i as int].category));
        assert(ns.take(i + 1).map_values(|n: NodeView| n.category) =~= ns.take(i as int).map_values(|n: NodeView| n.category).push(ns[i as int].category));
        i = i + 1;
    }
    assert(ns.take(ns.len() as int) =~= ns);
    tally_keys(&keys)
}

/// How many diagnostics each rule produced, in order of first appearance.
pub fn diagnostics_by_rule(diags: &Vec<Diagnostic>) -> (r: Vec<(String, usize)>)
    ensures
        counts_view(r@) == tally(diags_view(diags@).map_values(|d: DiagnosticView| d.rule)),
{
    let ghost dv = diags_view(diags@);
    let mut keys: Vec<String> = Vec::new();
    let mut i: usize = 0;
    while i < diags.len()
        invariant
            i <= diags@.len(),
            dv == diags_view(diags@),
            strs(keys@) == dv.take(i as int).map_values(|d: DiagnosticView| d.rule),
        decreases diags.len() - i,
    {
        assert(dv[i as int] == diags@[i as int]@);
        let ghost before = strs(keys@);
        keys.push(diags[i].rule.clone());
        assert(strs(keys@) =~= before.push(dv[i as int].rule));
        assert(dv.take(i + 1).map_values(|d: DiagnosticView| d.rule) =~= dv.take(i as int).map_values(|d: DiagnosticView| d.rule).push(dv[i as int].rule));
        i = i + 1;
    }
    assert(dv.take(dv.len() as int) =~= dv);
    tally_keys(&keys)
}

/// How many diagnostics have each severity (`error`, `warning`), in order of first
/// appearance.
pub fn diagnostics_by_severity(diags: &Vec<Diagnostic>) -> (r: Vec<(String, usize)>)
    ensures
        counts_view(r@) == tally(diags_view(diags@).map_values(|d: DiagnosticView| severity_name_spec(d.severity))),
{
    let ghost dv = diags_view(diags@);
    let mut keys: Vec<String> = Vec::new();
    let mut i: usize = 0;
    while i < diags.len()
        invariant
            i <= diags@.len(),
            dv == diags_view(diags@),
            strs(keys@) == dv.take(i as int).map_values(|d: DiagnosticView| severity_name_spec(d.severity)),
        decreases diags.len() - i,
    {
        assert(dv[i as int] == diags@[i as int]@);
        let ghost before = strs(keys@);
        keys.push(String::from_str(severity_name(diags[i].severity)));
        assert(strs(keys@) =~= before.push(severity_name_spec(dv[i as int].severity)));
        assert(dv.take(i + 1).map_values(|d: DiagnosticView| severity_name_spec(d.severity)) =~= dv.take(i as int).map_values(
            |d: DiagnosticView| severity_name_spec(d.severity),
        ).push(severity_name_spec(dv[i as int].severity)));
        i = i + 1;
    }
    assert(dv.take(dv.len() as int) =~= dv);
    tally_keys(&keys)
}

/// The diagnostics that `graphite stats` counts: the structural checks and unresolved
/// evidence references.
pub fn stats_diagnostics(graph: &Graph, evidence: &crate::EvidenceMap) -> (r: Vec<Diagnostic>)
    ensures
        diags_view(r@) == crate::validation::broken_edges(graph.nodes@) + crate::validation::missing_titles(graph.nodes@)
            + crate::validation::unresolved_evidence(graph.nodes@, evidence@),
{
    let engine = crate::validation::ValidationEngine;
    let mut diagnostics = engine.validate(graph);
    let mut more = engine.check_evidence_anchors(graph, evidence);
    let ghost a = diags_view(diagnostics@);
    let ghost b = diags_view(more@);
    diagnostics.append(&mut more);
    assert(diags_view(diagnostics@) =~= a + b);
    diagnostics
}


// ---------------------------------------------------------------------------
// context
// ---------------------------------------------------------------------------

pub const FORWARD: &'static str = "forward";

pub const REVERSE: &'static str = "reverse";

pub const SELF_RELATION: &'static str = "self";

/// The relations after adding `rel` to those of `k`.
pub open spec fn add_relation(m: Seq<(Seq<char>, Seq<Seq<char>>)>, k: Seq<char>, rel: Seq<char>) -> Seq<(Seq<char>, Seq<Seq<char>>)> {
    crate::store(m, k, if has_key(m, k) { value_of(m, k).push(rel) } else { seq![rel] })
}

/// A `forward` relation for each of the first `k` references that names a node.
pub open spec fn forward_upto(m: Seq<(Seq<char>, Seq<Seq<char>>)>, ns: Seq<NodeView>, refs: Seq<Seq<char>>, k: int) -> Seq<(Seq<char>, Seq<Seq<char>>)>
    decreases k,
{
    if k <= 0 || k > refs.len() {
        m
    } else {
        let prev = forward_upto(m, ns, refs, k - 1);
        if crate::has_id(ns, refs[k - 1]) {
            add_relation(prev, refs[k - 1], FORWARD@)
        } else {
            prev
        }
    }
}

/// A `reverse` relation for node `from` for each of its first `k` references to `id`.
pub open spec fn reverse_refs_upto(m: Seq<(Seq<char>, Seq<Seq<char>>)>, from: Seq<char>, refs: Seq<Seq<char>>, id: Seq<char>, k: int) -> Seq<(Seq<char>, Seq<Seq<char>>)>
    decreases k,
{
    if k <= 0 || k > refs.len() {
        m
    } else {
        let prev = reverse_refs_upto(m, from, refs, id, k - 1);
        if refs[k - 1] == id {
            add_relation(prev, from, REVERSE@)
        } else {
            prev
        }
    }
}

/// The `reverse` relations of the first `k` nodes other than `id`.
pub open spec fn reverse_upto(m: Seq<(Seq<char>, Seq<Seq<char>>)>, ns: Seq<NodeView>, id: Seq<char>, k: int) -> Seq<(Seq<char>, Seq<Seq<char>>)>
    decreases k,
{
    if k <= 0 || k > ns.len() {
        m
    } else {
        let prev = reverse_upto(m, ns, id, k - 1);
        let n = ns[k - 1];
        if n.id == id {
            prev
        } else {
            let refs = edge_refs(n.body);
            reverse_refs_upto(prev, n.id, refs, id, refs.len() as int)
        }
    }
}

/// The relations of the nodes around `target`: `forward` for each node its body refers
/// to, `reverse` for each reference to it from another node's body, and `self`.
pub open spec fn relations_of(ns: Seq<NodeView>, target: NodeView) -> Seq<(Seq<char>, Seq<Seq<char>>)> {
    let refs = edge_refs(target.body);
    let f = forward_upto(seq![], ns, refs, refs.len() as int);
    let r = reverse_upto(f, ns, target.id, ns.len() as int);
    add_relation(r, target.id, SELF_RELATION@)
}

/// The nodes around `target` in the order of their ids, each with its relations.
pub open spec fn context_relations_spec(ns: Seq<NodeView>, target: NodeView) -> Seq<(Seq<char>, Seq<Seq<char>>)> {
    let m = relations_of(ns, target);
    crate::ordering::sorted_set(m.map_values(|e: (Seq<char>, Seq<Seq<char>>)| e.0).to_set()).map_values(
        |k: Seq<char>| (k, value_of(m, k)),
    )
}

/// The view of a list of relations.
pub open spec fn relations_view(v: Seq<(String, Vec<String>)>) -> Seq<(Seq<char>, Seq<Seq<char>>)> {
    v.map_values(|e: (String, Vec<String>)| (e.0@, strs(e.1@)))
}

fn add_relation_exec(m: &mut Vec<(String, Vec<String>)>, k: &str, rel: &str)
    requires
        crate::distinct_keys(relations_view(old(m)@)),
    ensures
        relations_view(final(m)@) == add_relation(relations_view(old(m)@), k@, rel@),
        crate::distinct_keys(relations_view(final(m)@)),
{
    let ghost before = relations_view(m@);
    let mut p: usize = 0;
    while p < m.len() && !crate::text::str_eq(m[p].0.as_str(), k)
        invariant
            p <= m@.len(),
            before == relations_view(m@),
            forall|q: int| 0 <= q < p ==> before[q].0 != k@,
        decreases m.len() - p,
    {
        assert(before[p as int].0 == m@[p as int].0@);
        p = p + 1;
    }
    if p < m.len() {
        assert(before[p as int].0 == m@[p as int].0@);
        proof {
            let c = choose|j: int| 0 <= j < before.len() && before[j].0 == k@;
            assert(c == p as int);
        }
        let (name, mut rels) = m.remove(p);
        let ghost rv = strs(rels@);
        rels.push(String::from_str(rel));
        assert(strs(rels@) =~= rv.push(rel@));
        m.insert(p, (name, rels));
        assert(relations_view(m@) =~= before.update(p as int, (k@, rv.push(rel@))));
    } else {
        let mut rels: Vec<String> = Vec::new();
        rels.push(String::from_str(rel));
        assert(strs(rels@) =~= seq![rel@]);
        m.push((String::from_str(k), rels));
        assert(relations_view(m@) =~= before.push((k@, seq![rel@])));
    }
    proof {
        let after = relations_view(m@);
        assert forall|a: int, b: int| 0 <= a < b < after.len() implies after[a].0 != after[b].0 by {
            if b < before.len() {
                assert(after[a].0 == before[a].0);
                assert(after[b].0 == before[b].0);
            } else {
                assert(after[a].0 == before[a].0);
            }
        }
    }
}

/// The nodes around `target` in the order of their ids, each with its relations
/// (`forward`, `reverse`, `self`, as many times as the references occur).
pub fn context_relations(graph: &Graph, target: &crate::Node) -> (r: Vec<(String, Vec<String>)>)
    ensures
        relations_view(r@) == context_relations_spec(graph.nodes@, target@),
{
    let ghost ns = graph.nodes@;
    let refs = extract_edge_refs(target.body.as_str());
    let ghost rv = strs(refs@);
    let mut m: Vec<(String, Vec<String>)> = Vec::new();
    assert(relations_view(m@) =~= Seq::<(Seq<char>, Seq<Seq<char>>)>::empty());
    let mut i: usize = 0;
    while i < refs.len()
        invariant
            i <= refs@.len(),
            rv == strs(refs@),
            rv == edge_refs(target.body@),
            ns == graph.nodes@,
            relations_view(m@) == forward_upto(seq![], ns, rv, i as int),
            crate::distinct_keys(relations_view(m@)),
        decreases refs.len() - i,
    {
        assert(rv[i as int] == refs@[i as int]@);
        if graph.nodes.contains_key(refs[i].as_str()) {
            add_relation_exec(&mut m, refs[i].as_str(), FORWARD);
        }
        i = i + 1;
    }
    let ghost f = relations_view(m@);
    let nodes = graph.nodes.values();
    let mut j: usize = 0;
    while j < nodes.len()
        invariant
            j <= nodes@.len(),
            ns == nodes@.map_values(|n: crate::Node| n@),
            ns == graph.nodes@,
            relations_view(m@) == reverse_upto(f, ns, target.id@, j as int),
            crate::distinct_keys(relations_view(m@)),
        decreases nodes.len() - j,
    {
        let n = &nodes[j];
        assert(ns[j as int] == n@);
        if !crate::text::str_eq(n.id.as_str(), target.id.as_str()) {
            let nrefs = extract_edge_refs(n.body.as_str());
            let ghost nrv = strs(nrefs@);
            let ghost base = relations_view(m@);
            let mut k: usize = 0;
            while k < nrefs.len()
                invariant
                    k <= nrefs@.len(),
                    nrv == strs(nrefs@),
                    relations_view(m@) == reverse_refs_upto(base, n.id@, nrv, target.id@, k as int),
                    crate::distinct_keys(relations_view(m@)),
                decreases nrefs.len() - k,
            {
                assert(nrv[k as int] == nrefs@[k as int]@);
                if crate::text::str_eq(nrefs[k].as_str(), target.id.as_str()) {
                    add_relation_exec(&mut m, n.id.as_str(), REVERSE);
                }
                k = k + 1;
            }
        }
        j = j + 1;
    }
    add_relation_exec(&mut m, target.id.as_str(), SELF_RELATION);
    let ghost mv = relations_view(m@);
    assert(mv == relations_of(ns, target@));
    let mut keys: Vec<String> = Vec::new();
    let mut a: usize = 0;
    while a < m.len()
        invariant
            a <= m@.len(),
            mv == relations_view(m@),
            strs(keys@) == mv.take(a as int).map_values(|e: (Seq<char>, Seq<Seq<char>>)| e.0),
        decreases m.len() - a,
    {
        let ghost before = strs(keys@);
        keys.push(m[a].0.clone());
        assert(mv[a as int].0 == m@[a as int].0@);
        assert(strs(keys@) =~= before.push(mv[a as int].0));
        assert(mv.take(a + 1).map_values(|e: (Seq<char>, Seq<Seq<char>>)| e.0) =~= mv.take(a as int).map_values(
            |e: (Seq<char>, Seq<Seq<char>>)| e.0,
        ).push(mv[a as int].0));
        a = a + 1;
    }
    assert(mv.take(mv.len() as int) =~= mv);
    let sorted = crate::ordering::sort_distinct(&keys);
    let ghost sv = strs(sorted@);
    let mut out: Vec<(String, Vec<String>)> = Vec::new();
    let mut b: usize = 0;
    while b < sorted.len()
        invariant
            b <= sorted@.len(),
            sv == strs(sorted@),
            mv == relations_view(m@),
            crate::distinct_keys(mv),
            sv.to_set() == mv.map_values(|e: (Seq<char>, Seq<Seq<char>>)| e.0).to_set(),
            relations_view(out@) == sv.take(b as int).map_values(|k: Seq<char>| (k, value_of(mv, k))),
        decreases sorted.len() - b,
    {
        let key = &sorted[b];
        assert(sv[b as int] == key@);
        assert(sv.to_set().contains(key@));
        let ghost keyset = mv.map_values(|e: (Seq<char>, Seq<Seq<char>>)| e.0);
        assert(keyset.contains(key@));
        let ghost w = choose|w: int| 0 <= w < keyset.len() && keyset[w] == key@;
        assert(mv[w].0 == key@);
        let mut p: usize = 0;
        while p < m.len() && !crate::text::str_eq(m[p].0.as_str(), key.as_str())
            invariant
                p <= m@.len(),
                mv == relations_view(m@),
                forall|q: int| 0 <= q < p ==> mv[q].0 != key@,
            decreases m.len() - p,
        {
            assert(mv[p as int].0 == m@[p as int].0@);
            p = p + 1;
        }
        assert(p < m.len());
        assert(mv[p as int].0 == m@[p as int].0@);
        proof {
            let c = choose|j: int| 0 <= j < mv.len() && mv[j].0 == key@;
            assert(c == p as int);
        }
        let mut rels: Vec<String> = Vec::new();
        let mut q: usize = 0;
        while q < m[p].1.len()
            invariant
                p < m@.len(),
                q <= m@[p as int].1@.len(),
                strs(rels@) == strs(m@[p as int].1@).take(q as int),
            decreases m@[p as int].1@.len() - q,
        {
            let ghost before = strs(rels@);
            let x = m[p].1[q].clone();
            assert(x@ == strs(m@[p as int].1@)[q as int]);
            rels.push(x);
            assert(strs(rels@) =~= before.push(strs(m@[p as int].1@)[q as int]));
            assert(strs(m@[p as int].1@).take(q + 1) =~= strs(m@[p as int].1@).take(q as int).push(strs(m@[p as int].1@)[q as int]));
            q = q + 1;
        }
        assert(strs(m@[p as int].1@).take(q as int) =~= strs(m@[p as int].1@));
        let ghost before_out = relations_view(out@);
        out.push((key.clone(), rels));
        assert(relations_view(out@) =~= before_out.push((key@, value_of(mv, key@))));
        assert(sv.take(b + 1).map_values(|k: Seq<char>| (k, value_of(mv, k))) =~= sv.take(b as int).map_values(
            |k: Seq<char>| (k, value_of(mv, k)),
        ).push((key@, value_of(mv, key@))));
        b = b + 1;
    }
    assert(sv.take(sv.len() as int) =~= sv);
    out
}

/// The first occurrence of each of the first `k` ids, in order.
pub open spec fn first_occurrences_upto(s: Seq<Seq<char>>, k: int) -> Seq<Seq<char>>
    decreases k,
{
    if k <= 0 || k > s.len() {
        seq![]
    } else {
        let prev = first_occurrences_upto(s, k - 1);
        if prev.contains(s[k - 1]) {
            prev
        } else {
            prev.push(s[k - 1])
        }
    }
}

/// The first occurrence of each id, in order.
pub open spec fn first_occurrences(s: Seq<Seq<char>>) -> Seq<Seq<char>> {
    first_occurrences_upto(s, s.len() as int)
}

/// Each id once, at its first occurrence.
pub fn unique_in_order(v: &Vec<String>) -> (r: Vec<String>)
    ensures
        strs(r@) == first_occurrences(strs(v@)),
{
    let ghost sv = strs(v@);
    let mut out: Vec<String> = Vec::new();
    let mut i: usize = 0;
    assert(strs(out@) =~= first_occurrences_upto(sv, 0));
    while i < v.len()
        invariant
            i <= v@.len(),
            sv == strs(v@),
            strs(out@) == first_occurrences_upto(sv, i as int),
        decreases v.len() - i,
    {
        let ghost o = strs(out@);
        assert(sv[i as int] == v@[i as int]@);
        let mut p: usize = 0;
        while p < out.len() && !crate::text::str_eq(out[p].as_str(), v[i].as_str())
            invariant
                p <= out@.len(),
                i < v@.len(),
                sv == strs(v@),
                o == strs(out@),
                forall|q: int| 0 <= q < p ==> o[q] != sv[i as int],
            decreases out.len() - p,
        {
            assert(o[p as int] == out@[p as int]@);
            p = p + 1;
        }
        if p < out.len() {
            assert(o[p as int] == out@[p as int]@);
            assert(o.contains(sv[i as int]));
        } else {
            out.push(v[i].clone());
            assert(strs(out@) =~= o.push(sv[i as int]));
        }
        i = i + 1;
    }
    out
}

/// One evidence item: an id, a file and a 1-based line.
pub open spec fn evidence_items_of(ev: EvidenceView, ids: Seq<Seq<char>>) -> Seq<(Seq<char>, Seq<char>, usize)>
    decreases ids.len(),
{
    if ids.len() == 0 {
        seq![]
    } else {
        let last = ids.last();
        evidence_items_of(ev, ids.drop_last()) + if has_key(ev, last) {
            value_of(ev, last).map_values(|l: (Seq<char>, usize)| (last, l.0, l.1))
        } else {
            seq![]
        }
    }
}

/// The view of evidence items.
pub open spec fn items_view(v: Seq<(String, String, usize)>) -> Seq<(Seq<char>, Seq<char>, usize)> {
    v.map_values(|e: (String, String, usize)| (e.0@, e.1@, e.2))
}

/// The evidence of a body: for each id it refers to (once), every location recorded for
/// it.
pub fn context_evidence(body: &str, evidence: &crate::EvidenceMap) -> (r: Vec<(String, String, usize)>)
    ensures
        items_view(r@) == evidence_items_of(evidence@, first_occurrences(evidence_refs(body@))),
{
    let refs = extract_evidence_refs(body);
    let ids = unique_in_order(&refs);
    let ghost iv = strs(ids@);
    let mut out: Vec<(String, String, usize)> = Vec::new();
    let mut i: usize = 0;
    assert(iv.take(0) =~= Seq::<Seq<char>>::empty());
    assert(items_view(out@) =~= evidence_items_of(evidence@, iv.take(0)));
    while i < ids.len()
        invariant
            i <= ids@.len(),
            iv == strs(ids@),
            items_view(out@) == evidence_items_of(evidence@, iv.take(i as int)),
        decreases ids.len() - i,
    {
        let id = &ids[i];
        assert(iv[i as int] == id@);
        assert(iv.take(i + 1).drop_last() =~= iv.take(i as int));
        let ghost before = items_view(out@);
        match evidence.get(id.as_str()) {
            Some(locs) => {
                let mut k: usize = 0;
                while k < locs.len()
                    invariant
                        k <= locs@.len(),
                        items_view(out@) == before + crate::locs_view(locs@).take(k as int).map_values(
                            |l: (Seq<char>, usize)| (id@, l.0, l.1),
                        ),
                    decreases locs.len() - k,
                {
                    let ghost o = items_view(out@);
                    let ghost lk = crate::locs_view(locs@)[k as int];
                    assert(lk == crate::loc_view(locs@[k as int]));
                    out.push((id.clone(), locs[k].0.clone(), locs[k].1));
                    assert(items_view(out@) =~= o.push((id@, lk.0, lk.1)));
                    assert(crate::locs_view(locs@).take(k + 1) =~= crate::locs_view(locs@).take(k as int).push(lk));
                    assert(crate::locs_view(locs@).take(k + 1).map_values(|l: (Seq<char>, usize)| (id@, l.0, l.1))
                        =~= crate::locs_view(locs@).take(k as int).map_values(|l: (Seq<char>, usize)| (id@, l.0, l.1)).push((id@, lk.0, lk.1)));
                    assert(items_view(out@) =~= before + crate::locs_view(locs@).take(k + 1).map_values(
                        |l: (Seq<char>, usize)| (id@, l.0, l.1),
                    ));
                    k = k + 1;
                }
                assert(crate::locs_view(locs@).take(k as int) =~= crate::locs_view(locs@));
            },
            None => {
                assert(items_view(out@) =~= before + Seq::<(Seq<char>, Seq<char>, usize)>::empty());
            },
        }
        i = i + 1;
    }
    assert(iv.take(iv.len() as int) =~= iv);
    out
}


// ---------------------------------------------------------------------------
// Source files of nodes
// ---------------------------------------------------------------------------

pub const NODE_SUFFIX: &'static str = ".node";

pub const SLASH: &'static str = "/";

/// Where a node's file is expected: `<graph_dir>/<category>/<id>.node`.
pub fn preferred_source_path(graph_dir: &str, node: &crate::Node) -> (r: String)
    ensures
        r@ == crate::paths::joined_path(crate::paths::joined_path(graph_dir@, node.category@), node.id@ + NODE_SUFFIX@),
{
    let dir = crate::paths::path_join(graph_dir, node.category.as_str());
    let mut name = node.id.clone();
    name.append(NODE_SUFFIX);
    crate::paths::path_join(dir.as_str(), name.as_str())
}

/// The conventional path of a node file: `graph/<category>/<id>.node`.
pub open spec fn fallback_path(category: Seq<char>, id: Seq<char>) -> Seq<char> {
    GRAPH_PREFIX@ + category + SLASH@ + id + NODE_SUFFIX@
}

/// Builds the conventional path of a node file.
pub fn fallback_source_path(category: &str, id: &str) -> (r: String)
    ensures
        r@ == fallback_path(category@, id@),
{
    let mut r = text4(GRAPH_PREFIX, category, SLASH, id);
    r.append(NODE_SUFFIX);
    r
}

/// The source file of a node: the expected path when that file exists, else a file found
/// by searching the graph directory, else the conventional path.
pub fn resolve_node_source_file(graph_dir: &str, node: &crate::Node, preferred_exists: bool, found: Option<String>) -> (r: String)
    ensures
        preferred_exists ==> r@ == crate::paths::joined_path(crate::paths::joined_path(graph_dir@, node.category@), node.id@ + NODE_SUFFIX@),
        !preferred_exists ==> r@ == match found {
            Some(f) => f@,
            None => fallback_path(node.category@, node.id@),
        },
{
    if preferred_exists {
        preferred_source_path(graph_dir, node)
    } else {
        match found {
            Some(f) => f,
            None => fallback_source_path(node.category.as_str(), node.id.as_str()),
        }
    }
}

/// Whether a file with this stem and extension is the file of node `node_id`.
pub fn is_node_file_for(stem: Option<&str>, extension: Option<&str>, node_id: &str) -> (r: bool)
    ensures
        r == ((stem matches Some(s) && s@ == node_id@) && (extension matches Some(e) && e@ == NODE_EXTENSION@)),
{
    match (stem, extension) {
        (Some(s), Some(e)) => crate::text::str_eq(s, node_id) && crate::text::str_eq(e, NODE_EXTENSION),
        _ => false,
    }
}

// ---------------------------------------------------------------------------
// plan
// ---------------------------------------------------------------------------

pub const READ_ACTION: &'static str = "read";

pub const MODIFY_ACTION: &'static str = "modify";

pub const ANCHOR_ACTION: &'static str = "anchor";

pub const VALIDATE_ACTION: &'static str = "validate";

pub const READ_WHY: &'static str = "Understand context for '";

pub const MODIFY_WHY: &'static str = "Implement or modify '";

pub const ANCHOR_WHY_1: &'static str = "Add @graphite:evidence anchors for '";

pub const ANCHOR_WHY_2: &'static str = "' in source files";

pub const VALIDATE_WHY: &'static str = "Run `graphite validate --first` and fix errors iteratively";

/// One step of a work order.
pub struct WorkStep {
    pub order: usize,
    pub action: String,
    pub node: String,
    pub source_file: String,
    pub why: String,
}

/// The view of a step.
pub struct WorkStepView {
    pub order: nat,
    pub action: Seq<char>,
    pub node: Seq<char>,
    pub source_file: Seq<char>,
    pub why: Seq<char>,
}

impl View for WorkStep {
    type V = WorkStepView;

    open spec fn view(&self) -> WorkStepView {
        WorkStepView {
            order: self.order as nat,
            action: self.action@,
            node: self.node@,
            source_file: self.source_file@,
            why: self.why@,
        }
    }
}

/// The nodes to read before working on a node: those its body refers to, each once.
pub fn plan_reads(body: &str) -> (r: Vec<String>)
    ensures
        strs(r@) == first_occurrences(edge_refs(body@)),
{
    let refs = extract_edge_refs(body);
    unique_in_order(&refs)
}

/// The work order for node `id` of `category` whose file is `target_file`: read each
/// referenced node (`reads`: its id and, when the node exists, its file; else the
/// conventional path under the target's category), then modify the node, add its
/// evidence anchors and validate; steps are numbered from 1.
pub open spec fn work_order_spec(
    id: Seq<char>,
    category: Seq<char>,
    reads: Seq<(Seq<char>, Option<Seq<char>>)>,
    target_file: Seq<char>,
) -> Seq<WorkStepView> {
    let n = reads.len();
    Seq::new(n, |i: int| WorkStepView {
        order: (i + 1) as nat,
        action: READ_ACTION@,
        node: reads[i].0,
        source_file: match reads[i].1 {
            Some(f) => f,
            None => fallback_path(category, reads[i].0),
        },
        why: READ_WHY@ + reads[i].0 + QUOTE@,
    }) + seq![
        WorkStepView { order: n + 1, action: MODIFY_ACTION@, node: id, source_file: target_file, why: MODIFY_WHY@ + id + QUOTE@ },
        WorkStepView { order: n + 2, action: ANCHOR_ACTION@, node: id, source_file: Seq::<char>::empty(), why: ANCHOR_WHY_1@ + id + ANCHOR_WHY_2@ },
        WorkStepView { order: n + 3, action: VALIDATE_ACTION@, node: id, source_file: Seq::<char>::empty(), why: VALIDATE_WHY@ },
    ]
}

/// The view of the reads of a plan.
pub open spec fn reads_view(v: Seq<(String, Option<String>)>) -> Seq<(Seq<char>, Option<Seq<char>>)> {
    v.map_values(|e: (String, Option<String>)| (e.0@, crate::opt_view(e.1)))
}

/// Builds the work order for a node.
pub fn work_order(id: &str, category: &str, reads: &Vec<(String, Option<String>)>, target_file: &str) -> (r: Vec<WorkStep>)
    requires
        reads@.len() + 3 <= usize::MAX,
    ensures
        r@.map_values(|s: WorkStep| s@) == work_order_spec(id@, category@, reads_view(reads@), target_file@),
        forall|i: int| 0 <= i < r@.len() ==> (#[trigger] r@[i]).order == i + 1,
{
    let ghost rv = reads_view(reads@);
    let ghost spec_steps = work_order_spec(id@, category@, rv, target_file@);
    let mut out: Vec<WorkStep> = Vec::new();
    let mut i: usize = 0;
    while i < reads.len()
        invariant
            i <= reads@.len(),
            reads@.len() + 3 <= usize::MAX,
            rv == reads_view(reads@),
            spec_steps == work_order_spec(id@, category@, rv, target_file@),
            out@.len() == i,
            forall|k: int| 0 <= k < i ==> (#[trigger] out@[k])@ == spec_steps[k],
        decreases reads.len() - i,
    {
        let t = &reads[i].0;
        assert(rv[i as int] == (t@, crate::opt_view(reads@[i as int].1)));
        let source_file = match &reads[i].1 {
            Some(f) => f.clone(),
            None => fallback_source_path(category, t.as_str()),
        };
        let why = text3(READ_WHY, t.as_str(), QUOTE);
        out.push(WorkStep { order: i + 1, action: String::from_str(READ_ACTION), node: t.clone(), source_file, why });
        i = i + 1;
    }
    let n = reads.len();
    out.push(WorkStep {
        order: n + 1,
        action: String::from_str(MODIFY_ACTION),
        node: String::from_str(id),
        source_file: String::from_str(target_file),
        why: text3(MODIFY_WHY, id, QUOTE),
    });
    out.push(WorkStep {
        order: n + 2,
        action: String::from_str(ANCHOR_ACTION),
        node: String::from_str(id),
        source_file: String::new(),
        why: text3(ANCHOR_WHY_1, id, ANCHOR_WHY_2),
    });
    out.push(WorkStep {
        order: n + 3,
        action: String::from_str(VALIDATE_ACTION),
        node: String::from_str(id),
        source_file: String::new(),
        why: String::from_str(VALIDATE_WHY),
    });
    assert(out@.map_values(|s: WorkStep| s@) =~= spec_steps);
    out
}

// ---------------------------------------------------------------------------
// init
// ---------------------------------------------------------------------------

pub const FRONT_OPEN: &'static str = "---\nid: ";

pub const FRONT_CATEGORY: &'static str = "\ncategory: ";

pub const FRONT_CLOSE: &'static str = "\n---\n";

/// The text of a node file: frontmatter with `id` and `category`, then the body and a
/// final line break.
pub open spec fn node_file(id: Seq<char>, category: Seq<char>, body: Seq<char>) -> Seq<char> {
    FRONT_OPEN@ + id + FRONT_CATEGORY@ + category + FRONT_CLOSE@ + body + LINE_END@
}

/// Writes the text of a node file.
pub fn node_file_text(id: &str, category: &str, body: &str) -> (r: String)
    ensures
        r@ == node_file(id@, category@, body@),
{
    let mut r = text4(FRONT_OPEN, id, FRONT_CATEGORY, category);
    r.append(FRONT_CLOSE);
    r.append(body);
    r.append(LINE_END);
    r
}

/// The frontmatter of a node file: the `id` line and the `category` line.
pub open spec fn node_frontmatter(id: Seq<char>, category: Seq<char>) -> Seq<char> {
    FRONT_OPEN@.subrange(4, 8) + id + FRONT_CATEGORY@ + category + LINE_END@
}

/// A node file written for an id and a category without line breaks splits, when read
/// back, into exactly its two frontmatter lines and the body with its final line break.
pub proof fn lemma_node_file_frames(id: Seq<char>, category: Seq<char>, body: Seq<char>)
    requires
        !id.contains('\n'),
        !category.contains('\n'),
    ensures
        frame(node_file(id, category, body)) == (Framing::Framed {
            yaml: node_frontmatter(id, category),
            body: body + LINE_END@,
        }),
{
    reveal_strlit("---\nid: ");
    reveal_strlit("\ncategory: ");
    reveal_strlit("\n---\n");
    reveal_strlit("\n");
    let s = node_file(id, category, body);
    let rest = s.subrange(4, s.len() as int);
    let pat = newline_dashes();
    let a: int = 4int + id.len();
    let p: int = a + 11 + category.len();
    assert(starts_with(s, dashes()));
    assert(frontmatter_start(s) == 4);
    assert(rest =~= node_frontmatter(id, category) + seq!['-', '-', '-', '\n'] + body + LINE_END@);
    assert(!starts_with(rest, dashes())) by {
        assert(rest[0] == 'i');
    }
    assert(matches_at(rest, pat, p)) by {
        assert(rest.subrange(p, p + 4) =~= pat);
    }
    assert forall|q: int| 0 <= q < p implies !matches_at(rest, pat, q) by {
        if matches_at(rest, pat, q) {
            assert(rest.subrange(q, q + 4)[0] == '\n');
            assert(rest.subrange(q, q + 4)[1] == '-');
            if q < 4 {
            } else if q < a {
                assert(id[q - 4] == '\n');
            } else if q == a {
            } else if q < a + 11 {
            } else {
                assert(category[q - a - 11] == '\n');
            }
        }
    }
    lemma_find_from_first(rest, pat, 0, p);
    assert(closing_offset(rest) == Some(p + 1));
    assert(s.subrange(4, 4 + p + 1) =~= node_frontmatter(id, category));
    assert(s[4 + p + 1 + 3] == '\n');
    assert(s.subrange(4 + p + 1 + 3 + 1, s.len() as int) =~= body + LINE_END@);
}


pub const SPEC_CATEGORY: &'static str = "spec";

pub const REQUIREMENT_CATEGORY: &'static str = "requirement";

pub const ADR_CATEGORY: &'static str = "adr";

pub const SERVICE_CATEGORY: &'static str = "service";

pub const TEST_CATEGORY: &'static str = "test";

pub const COMPLIANCE_CATEGORY: &'static str = "compliance";

pub const RUNBOOK_CATEGORY: &'static str = "runbook";

pub const INFRA_CATEGORY: &'static str = "infra";

pub const ROOT_NODE_ID: &'static str = "root";

pub const ROOT_NODE_BODY: &'static str = "# Graphite\n\nA compiled knowledge graph for software engineering.\n\n[edge:compiler-requirement] [edge:compiler]";

pub const REQUIREMENT_NODE_ID: &'static str = "compiler-requirement";

pub const REQUIREMENT_NODE_BODY: &'static str = "# Compiler Requirement\n\nThe compiler must parse .node files, validate the graph, resolve evidence anchors, and render HTML documentation.\n\n[edge:compiler-pipeline] [edge:compiler]";

pub const ADR_NODE_ID: &'static str = "compiler-pipeline";

pub const ADR_NODE_BODY: &'static str = "# Compiler Pipeline\n\nThe compiler pipeline has four stages:\n\n1. **Parse**: Read .node files into a Graph\n2. **Validate**: Run structural checks\n3. **Resolve**: Match evidence anchors to source\n4. **Render**: Generate static HTML\n\nRelated: [edge:compiler-requirement]";

pub const SERVICE_NODE_ID: &'static str = "compiler";

pub const SERVICE_NODE_BODY: &'static str = "# Compiler\n\nA Rust CLI that implements the graphite compiler pipeline.";

pub const TEST_NODE_ID: &'static str = "compiler-tests";

pub const TEST_NODE_BODY: &'static str = "# Compiler Tests\n\nTests for the graphite compiler pipeline.";

pub const COMPLIANCE_NODE_ID: &'static str = "traceability-policy";

pub const COMPLIANCE_NODE_BODY: &'static str = "# Traceability Policy\n\nRequirements should be linked to implementation, tests, and evidence.";

pub const RUNBOOK_NODE_ID: &'static str = "validation-runbook";

pub const RUNBOOK_NODE_BODY: &'static str = "# Validation Runbook\n\nRun graphite validate before shipping graph changes.";

pub const INFRA_NODE_ID: &'static str = "distribution-pipeline";

pub const INFRA_NODE_BODY: &'static str = "# Distribution Pipeline\n\nThe package and binary distribution path for graphite.";

/// The categories of a new project, each a directory under `graph/`.
pub open spec fn scaffold_categories() -> Seq<Seq<char>> {
    seq![
        SPEC_CATEGORY@,
        REQUIREMENT_CATEGORY@,
        ADR_CATEGORY@,
        SERVICE_CATEGORY@,
        TEST_CATEGORY@,
        COMPLIANCE_CATEGORY@,
        RUNBOOK_CATEGORY@,
        INFRA_CATEGORY@,
    ]
}

/// The nodes of a new project (id, category, body); each goes to
/// `graph/<category>/<id>.node`.
pub open spec fn scaffold_spec() -> Seq<(Seq<char>, Seq<char>, Seq<char>)> {
    seq![
        (ROOT_NODE_ID@, SPEC_CATEGORY@, ROOT_NODE_BODY@),
        (REQUIREMENT_NODE_ID@, REQUIREMENT_CATEGORY@, REQUIREMENT_NODE_BODY@),
        (ADR_NODE_ID@, ADR_CATEGORY@, ADR_NODE_BODY@),
        (SERVICE_NODE_ID@, SERVICE_CATEGORY@, SERVICE_NODE_BODY@),
        (TEST_NODE_ID@, TEST_CATEGORY@, TEST_NODE_BODY@),
        (COMPLIANCE_NODE_ID@, COMPLIANCE_CATEGORY@, COMPLIANCE_NODE_BODY@),
        (RUNBOOK_NODE_ID@, RUNBOOK_CATEGORY@, RUNBOOK_NODE_BODY@),
        (INFRA_NODE_ID@, INFRA_CATEGORY@, INFRA_NODE_BODY@),
    ]
}

/// The category directories of a new project.
pub fn scaffold_categories_list() -> (r: Vec<&'static str>)
    ensures
        r@.map_values(|c: &str| c@) == scaffold_categories(),
{
    let r = vec![
        SPEC_CATEGORY,
        REQUIREMENT_CATEGORY,
        ADR_CATEGORY,
        SERVICE_CATEGORY,
        TEST_CATEGORY,
        COMPLIANCE_CATEGORY,
        RUNBOOK_CATEGORY,
        INFRA_CATEGORY,
    ];
    assert(r@.map_values(|c: &str| c@) =~= scaffold_categories());
    r
}

/// The nodes of a new project: (id, category, body).
pub fn scaffold_nodes() -> (r: Vec<(&'static str, &'static str, &'static str)>)
    ensures
        r@.map_values(|e: (&str, &str, &str)| (e.0@, e.1@, e.2@)) == scaffold_spec(),
{
    let r = vec![
        (ROOT_NODE_ID, SPEC_CATEGORY, ROOT_NODE_BODY),
        (REQUIREMENT_NODE_ID, REQUIREMENT_CATEGORY, REQUIREMENT_NODE_BODY),
        (ADR_NODE_ID, ADR_CATEGORY, ADR_NODE_BODY),
        (SERVICE_NODE_ID, SERVICE_CATEGORY, SERVICE_NODE_BODY),
        (TEST_NODE_ID, TEST_CATEGORY, TEST_NODE_BODY),
        (COMPLIANCE_NODE_ID, COMPLIANCE_CATEGORY, COMPLIANCE_NODE_BODY),
        (RUNBOOK_NODE_ID, RUNBOOK_CATEGORY, RUNBOOK_NODE_BODY),
        (INFRA_NODE_ID, INFRA_CATEGORY, INFRA_NODE_BODY),
    ];
    assert(r@.map_values(|e: (&str, &str, &str)| (e.0@, e.1@, e.2@)) =~= scaffold_spec());
    r
}

// ---------------------------------------------------------------------------
// diff report
// ---------------------------------------------------------------------------

pub const NEW_LINE_PREFIX: &'static str = "  NEW    ";

pub const CHANGED_LINE_PREFIX: &'static str = "  CHANGED ";

pub const REMOVED_LINE_PREFIX: &'static str = "  REMOVED ";

pub const NO_CHANGES: &'static str = "  (no changes)\n";

/// Each file on a line of its own after `prefix`.
pub open spec fn prefixed_lines(prefix: Seq<char>, fs: Seq<Seq<char>>) -> Seq<char>
    decreases fs.len(),
{
    if fs.len() == 0 {
        seq![]
    } else {
        prefixed_lines(prefix, fs.drop_last()) + prefix + fs.last() + LINE_END@
    }
}

/// The text report of a diff: new, changed and removed files, or a note that nothing
/// changed.
pub open spec fn diff_report(new: Seq<Seq<char>>, changed: Seq<Seq<char>>, removed: Seq<Seq<char>>) -> Seq<char> {
    prefixed_lines(NEW_LINE_PREFIX@, new) + prefixed_lines(CHANGED_LINE_PREFIX@, changed) + prefixed_lines(REMOVED_LINE_PREFIX@, removed)
        + if new.len() == 0 && changed.len() == 0 && removed.len() == 0 {
        NO_CHANGES@
    } else {
        Seq::<char>::empty()
    }
}

fn append_prefixed_lines(out: &mut String, prefix: &str, fs: &Vec<String>)
    ensures
        final(out)@ == old(out)@ + prefixed_lines(prefix@, strs(fs@)),
{
    let mut i: usize = 0;
    while i < fs.len()
        invariant
            i <= fs@.len(),
            out@ == old(out)@ + prefixed_lines(prefix@, strs(fs@).take(i as int)),
        decreases fs.len() - i,
    {
        out.append(prefix);
        out.append(fs[i].as_str());
        out.append(LINE_END);
        assert(strs(fs@).take(i + 1).drop_last() =~= strs(fs@).take(i as int));
        i = i + 1;
    }
    assert(strs(fs@).take(fs@.len() as int) =~= strs(fs@));
}

/// Writes the text report of a diff.
pub fn diff_report_text(diff: &DiffOutput) -> (r: String)
    ensures
        r@ == diff_report(strs(diff.new@), strs(diff.changed@), strs(diff.removed@)),
{
    let mut r = String::new();
    append_prefixed_lines(&mut r, NEW_LINE_PREFIX, &diff.new);
    append_prefixed_lines(&mut r, CHANGED_LINE_PREFIX, &diff.changed);
    append_prefixed_lines(&mut r, REMOVED_LINE_PREFIX, &diff.removed);
    if diff.new.len() == 0 && diff.changed.len() == 0 && diff.removed.len() == 0 {
        r.append(NO_CHANGES);
    }
    r
}

} // verus!
