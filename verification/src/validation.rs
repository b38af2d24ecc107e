//! Structural checks of a graph: edge references, titles, evidence anchors, file sizes.
use vstd::prelude::*;
use vstd::string::*;

use crate::text::{
    chars_of, find_chars, find_from, lemma_find_from_bounds, line_text, lines, lines_from,
    matches_at, matches_at_exec, newline_from, next_line, string_of, trim, trim_bounds,
    trim_end_index, trim_start, trim_start_index,
};
use crate::{
    diags_view, has_id, has_key, Diagnostic, DiagnosticView, EvidenceMap, Graph, Node, NodeView,
    Severity,
};

verus! {

/// Evidence ids mapped to the locations where anchors for them were found, merged from
/// the anchor scanner and the sidecar resolver.
pub type ResolvedEvidence = EvidenceMap;

/// Validates a [`Graph`] against structural constraints.
pub struct ValidationEngine;

pub const EDGE_MARKER: &'static str = "[edge:";

pub const EVIDENCE_MARKER: &'static str = "[evidence:";

/// The `]` that closes a reference marker.
pub open spec fn close_bracket() -> Seq<char> {
    seq![']']
}

/// The ids of the `[marker<id>]` references in `s` from position `pos` on: after each
/// marker, the text up to the next `]`, trimmed, when not empty; scanning stops at a
/// marker that no `]` follows.
pub open spec fn marker_refs_from(s: Seq<char>, marker: Seq<char>, pos: int) -> Seq<Seq<char>>
    decreases s.len() + 1 - pos,
{
    if pos < 0 || pos > s.len() {
        seq![]
    } else {
        match find_from(s, marker, pos) {
            None => seq![],
            Some(start) => {
                let cs = start + marker.len();
                proof {
                    lemma_find_from_bounds(s, marker, pos);
                    lemma_find_from_bounds(s, close_bracket(), cs);
                }
                match find_from(s, close_bracket(), cs) {
                    None => seq![],
                    Some(e) => {
                        let id = trim(s.subrange(cs, e));
                        (if id.len() > 0 {
                            seq![id]
                        } else {
                            seq![]
                        }) + marker_refs_from(s, marker, e + 1)
                    },
                }
            },
        }
    }
}

/// The ids of the `[marker<id>]` references in `s`, in order of appearance.
pub open spec fn marker_refs(s: Seq<char>, marker: Seq<char>) -> Seq<Seq<char>> {
    marker_refs_from(s, marker, 0)
}

/// The targets of the `[edge:<id>]` references in a body.
pub open spec fn edge_refs(body: Seq<char>) -> Seq<Seq<char>> {
    marker_refs(body, EDGE_MARKER@)
}

/// The ids of the `[evidence:<id>]` references in a body.
pub open spec fn evidence_refs(body: Seq<char>) -> Seq<Seq<char>> {
    marker_refs(body, EVIDENCE_MARKER@)
}

/// The views of a list of strings.
pub open spec fn strs(v: Seq<String>) -> Seq<Seq<char>> {
    v.map_values(|s: String| s@)
}

/// Collects the ids of the `[marker<id>]` references in `body`.
pub fn extract_marker_refs(body: &str, marker: &str) -> (r: Vec<String>)
    ensures
        strs(r@) == marker_refs(body@, marker@),
{
    let s = chars_of(body);
    let m = chars_of(marker);
    let close = vec![']'];
    assert(close@ == close_bracket());
    let mut result: Vec<String> = Vec::new();
    let mut pos: usize = 0;
    while pos <= s.len()
        invariant
            s@ == body@,
            m@ == marker@,
            close@ == close_bracket(),
            pos <= s@.len() + 1,
            marker_refs(body@, marker@) == strs(result@) + marker_refs_from(s@, m@, pos as int),
        ensures
            marker_refs(body@, marker@) == strs(result@),
        decreases s.len() + 1 - pos,
    {
        let start = match find_chars(&s, &m, pos) {
            Some(start) => start,
            None => {
                assert(strs(result@) + Seq::<Seq<char>>::empty() =~= strs(result@));
                break;
            },
        };
        proof {
            lemma_find_from_bounds(s@, m@, pos as int);
        }
        let cs = start + m.len();
        let e = match find_chars(&s, &close, cs) {
            Some(e) => e,
            None => {
                assert(strs(result@) + Seq::<Seq<char>>::empty() =~= strs(result@));
                break;
            },
        };
        proof {
            lemma_find_from_bounds(s@, close@, cs as int);
        }
        let piece = vstd::slice::slice_to_vec(vstd::slice::slice_subrange(s.as_slice(), cs, e));
        let (a, b) = trim_bounds(&piece);
        let ghost before = strs(result@);
        if a < b {
            let id = string_of(vstd::slice::slice_subrange(piece.as_slice(), a, b));
            result.push(id);
            proof {
                assert(strs(result@) =~= before + seq![trim(s@.subrange(cs as int, e as int))]);
            }
        } else {
            proof {
                assert(strs(result@) =~= before);
            }
        }
        pos = e + 1;
    }
    result
}

/// Collects the targets of the `[edge:<id>]` references in `body`.
pub fn extract_edge_refs(body: &str) -> (r: Vec<String>)
    ensures
        strs(r@) == edge_refs(body@),
{
    extract_marker_refs(body, EDGE_MARKER)
}

/// Collects the ids of the `[evidence:<id>]` references in `body`.
pub fn extract_evidence_refs(body: &str) -> (r: Vec<String>)
    ensures
        strs(r@) == evidence_refs(body@),
{
    extract_marker_refs(body, EVIDENCE_MARKER)
}

pub const BROKEN_EDGE_RULE: &'static str = "broken-edge-target";

pub const TITLE_RULE: &'static str = "node-body-title";

pub const UNUSED_ANCHOR_RULE: &'static str = "unused-evidence-anchor";

pub const TOO_LARGE_RULE: &'static str = "node-file-too-large";

pub const UNRESOLVED_RULE: &'static str = "unresolved-evidence";

pub const NODE_QUOTE: &'static str = "Node '";

pub const BROKEN_DETAIL_1: &'static str = "' has [edge:";

pub const BROKEN_DETAIL_2: &'static str = "] in its body, but no node with ID '";

pub const BROKEN_DETAIL_3: &'static str = "' exists in the graph.";

pub const BROKEN_FIX_1: &'static str = "Either create a new node with id '";

pub const BROKEN_FIX_2: &'static str = "' (in the appropriate category directory), or correct the reference in node '";

pub const QUOTE_DOT: &'static str = "'.";

pub const BROKEN_HINT: &'static str = "Every [edge:X] reference MUST resolve to an existing node ID in the graph.";

pub const TITLE_DETAIL_2: &'static str = "' has no top-level heading (# Title) in its body.";

pub const TITLE_FIX_1: &'static str = "Add a level-1 heading to the body of '";

pub const TITLE_FIX_2: &'static str = "', for example:\n\n# ";

pub const TITLE_HINT: &'static str = "Every node should have a descriptive title as its first heading.";

pub const UNUSED_DETAIL_1: &'static str = "Evidence anchor '@graphite:evidence ";

pub const UNUSED_DETAIL_2: &'static str = "' has no corresponding '[evidence:";

pub const UNUSED_DETAIL_3: &'static str = "]' reference in any node body.";

pub const UNUSED_FIX_1: &'static str = "Either add '[evidence:";

pub const UNUSED_FIX_2: &'static str = "]' to the body of the appropriate node, or remove the @graphite:evidence annotation.";

pub const UNUSED_EXAMPLE_1: &'static str = "In a node body:\n\n[evidence:";

pub const CLOSE: &'static str = "]";

pub const UNUSED_HINT: &'static str = "Every @graphite:evidence anchor must be referenced by at least one node's [evidence:...] body reference.";

pub const LARGE_DETAIL_2: &'static str = "' has ";

pub const LARGE_DETAIL_3: &'static str = " characters, which exceeds the maximum of ";

pub const LARGE_DETAIL_4: &'static str = ". Split this node into multiple smaller nodes.";

pub const LARGE_FIX_1: &'static str = "Reduce the node body below ";

pub const LARGE_FIX_2: &'static str = " characters by splitting content across multiple nodes.";

pub const LARGE_EXAMPLE: &'static str = "Split your content into separate `.node` files, each covering one concept, and connect them with edges.";

pub const LARGE_HINT: &'static str = "Large nodes indicate too much information in one place. Split them into smaller, focused nodes connected by edges.";

pub const UNRESOLVED_DETAIL_2: &'static str = "' references evidence '";

pub const UNRESOLVED_DETAIL_3: &'static str = "' but no matching @graphite:evidence annotation or sidecar pattern was found.";

pub const UNRESOLVED_FIX_1: &'static str = "Add `// @graphite:evidence ";

pub const UNRESOLVED_FIX_2: &'static str = "` to a source file, or create a `.graphite` sidecar entry for it.";

pub const UNRESOLVED_EXAMPLE: &'static str = "In a .rs file:  // @graphite:evidence my-evid\nIn a .graphite sidecar:  {\"anchors\": {\"my-evid\": {\"pattern\": \"...\"}}}";

pub const UNRESOLVED_HINT: &'static str = "Evidence IDs must correspond to @graphite:evidence annotations in the codebase or patterns in sidecar files.";

/// The diagnostic for `[edge:target]` in the body of node `id` with no such node.
pub open spec fn broken_edge_diag(id: Seq<char>, target: Seq<char>) -> DiagnosticView {
    DiagnosticView {
        rule: BROKEN_EDGE_RULE@,
        severity: Severity::Error,
        node_id: Some(id),
        file: None,
        detail: NODE_QUOTE@ + id + BROKEN_DETAIL_1@ + target + BROKEN_DETAIL_2@ + target
            + BROKEN_DETAIL_3@,
        fix: BROKEN_FIX_1@ + target + BROKEN_FIX_2@ + id + QUOTE_DOT@,
        example: None,
        hint: BROKEN_HINT@,
    }
}

/// The warning for node `id` whose body has no `# ` heading line.
pub open spec fn title_diag(id: Seq<char>) -> DiagnosticView {
    DiagnosticView {
        rule: TITLE_RULE@,
        severity: Severity::Warning,
        node_id: Some(id),
        file: None,
        detail: NODE_QUOTE@ + id + TITLE_DETAIL_2@,
        fix: TITLE_FIX_1@ + id + TITLE_FIX_2@ + id,
        example: None,
        hint: TITLE_HINT@,
    }
}

/// The diagnostic for an anchor `ev` that no node body references.
pub open spec fn unused_anchor_diag(ev: Seq<char>) -> DiagnosticView {
    DiagnosticView {
        rule: UNUSED_ANCHOR_RULE@,
        severity: Severity::Error,
        node_id: None,
        file: None,
        detail: UNUSED_DETAIL_1@ + ev + UNUSED_DETAIL_2@ + ev + UNUSED_DETAIL_3@,
        fix: UNUSED_FIX_1@ + ev + UNUSED_FIX_2@,
        example: Some(UNUSED_EXAMPLE_1@ + ev + CLOSE@),
        hint: UNUSED_HINT@,
    }
}

/// The diagnostic for node `id` read from a file of `len` bytes, over the limit `max`.
pub open spec fn too_large_diag(id: Seq<char>, len: nat, max: nat) -> DiagnosticView {
    DiagnosticView {
        rule: TOO_LARGE_RULE@,
        severity: Severity::Error,
        node_id: Some(id),
        file: None,
        detail: NODE_QUOTE@ + id + LARGE_DETAIL_2@ + crate::text::decimal(len) + LARGE_DETAIL_3@
            + crate::text::decimal(max) + LARGE_DETAIL_4@,
        fix: LARGE_FIX_1@ + crate::text::decimal(max) + LARGE_FIX_2@,
        example: Some(LARGE_EXAMPLE@),
        hint: LARGE_HINT@,
    }
}

/// The diagnostic for node `id` referencing evidence `ev` that was not resolved.
pub open spec fn unresolved_diag(id: Seq<char>, ev: Seq<char>) -> DiagnosticView {
    DiagnosticView {
        rule: UNRESOLVED_RULE@,
        severity: Severity::Error,
        node_id: Some(id),
        file: None,
        detail: NODE_QUOTE@ + id + UNRESOLVED_DETAIL_2@ + ev + UNRESOLVED_DETAIL_3@,
        fix: UNRESOLVED_FIX_1@ + ev + UNRESOLVED_FIX_2@,
        example: Some(UNRESOLVED_EXAMPLE@),
        hint: UNRESOLVED_HINT@,
    }
}

/// Broken-edge diagnostics for the first `j` edge references of node `n`.
pub open spec fn broken_refs_upto(all: Seq<NodeView>, n: NodeView, refs: Seq<Seq<char>>, j: int) -> Seq<
    DiagnosticView,
>
    decreases j,
{
    if j <= 0 || j > refs.len() {
        seq![]
    } else {
        broken_refs_upto(all, n, refs, j - 1) + if has_id(all, refs[j - 1]) {
            seq![]
        } else {
            seq![broken_edge_diag(n.id, refs[j - 1])]
        }
    }
}

/// Broken-edge diagnostics of one node, in the order of its references.
pub open spec fn node_broken_edges(all: Seq<NodeView>, n: NodeView) -> Seq<DiagnosticView> {
    broken_refs_upto(all, n, edge_refs(n.body), edge_refs(n.body).len() as int)
}

/// Broken-edge diagnostics of the first `i` nodes.
pub open spec fn broken_edges_upto(ns: Seq<NodeView>, i: int) -> Seq<DiagnosticView>
    decreases i,
{
    if i <= 0 || i > ns.len() {
        seq![]
    } else {
        broken_edges_upto(ns, i - 1) + node_broken_edges(ns, ns[i - 1])
    }
}

/// One diagnostic per `[edge:X]` reference whose target is not a node of the graph,
/// node by node, reference by reference.
pub open spec fn broken_edges(ns: Seq<NodeView>) -> Seq<DiagnosticView> {
    broken_edges_upto(ns, ns.len() as int)
}

/// The heading marker `# `.
pub open spec fn heading_marker() -> Seq<char> {
    seq!['#', ' ']
}

/// Some line of the body, once trimmed, starts with `# `.
pub open spec fn has_title(body: Seq<char>) -> bool {
    exists|k: int|
        0 <= k < lines(body).len() && matches_at(trim(#[trigger] lines(body)[k]), heading_marker(), 0)
}

/// Title warnings of the first `i` nodes.
pub open spec fn missing_titles_upto(ns: Seq<NodeView>, i: int) -> Seq<DiagnosticView>
    decreases i,
{
    if i <= 0 || i > ns.len() {
        seq![]
    } else {
        missing_titles_upto(ns, i - 1) + if has_title(ns[i - 1].body) {
            seq![]
        } else {
            seq![title_diag(ns[i - 1].id)]
        }
    }
}

/// One warning per node whose body has no line starting with `# `.
pub open spec fn missing_titles(ns: Seq<NodeView>) -> Seq<DiagnosticView> {
    missing_titles_upto(ns, ns.len() as int)
}

/// `ev` is referenced as `[evidence:ev]` by some node body.
pub open spec fn evidence_used(ns: Seq<NodeView>, ev: Seq<char>) -> bool {
    exists|i: int, j: int|
        0 <= i < ns.len() && 0 <= j < evidence_refs(ns[i].body).len() && #[trigger] evidence_refs(
            ns[i].body,
        )[j] == ev
}

/// Unused-anchor diagnostics of the first `k` resolved ids.
pub open spec fn unused_upto(
    ns: Seq<NodeView>,
    res: Seq<(Seq<char>, Seq<(Seq<char>, usize)>)>,
    k: int,
) -> Seq<DiagnosticView>
    decreases k,
{
    if k <= 0 || k > res.len() {
        seq![]
    } else {
        unused_upto(ns, res, k - 1) + if evidence_used(ns, res[k - 1].0) {
            seq![]
        } else {
            seq![unused_anchor_diag(res[k - 1].0)]
        }
    }
}

/// One diagnostic per resolved evidence id, in map order, that no node body references.
pub open spec fn unused_anchors(
    ns: Seq<NodeView>,
    res: Seq<(Seq<char>, Seq<(Seq<char>, usize)>)>,
) -> Seq<DiagnosticView> {
    unused_upto(ns, res, res.len() as int)
}

/// File-size diagnostics of the first `i` nodes.
pub open spec fn too_large_upto(ns: Seq<NodeView>, max: usize, i: int) -> Seq<DiagnosticView>
    decreases i,
{
    if i <= 0 || i > ns.len() {
        seq![]
    } else {
        too_large_upto(ns, max, i - 1) + if ns[i - 1].content_len > max {
            seq![too_large_diag(ns[i - 1].id, ns[i - 1].content_len as nat, max as nat)]
        } else {
            seq![]
        }
    }
}

/// One diagnostic per node read from a file of more than `max` bytes.
pub open spec fn too_large(ns: Seq<NodeView>, max: usize) -> Seq<DiagnosticView> {
    too_large_upto(ns, max, ns.len() as int)
}

/// The reference at position `j` is the first reference to its id.
pub open spec fn first_occurrence(refs: Seq<Seq<char>>, j: int) -> bool {
    forall|k: int| 0 <= k < j ==> refs[k] != refs[j]
}

/// Unresolved-evidence diagnostics for the first `j` evidence references of node `n`.
pub open spec fn unresolved_refs_upto(
    n: NodeView,
    refs: Seq<Seq<char>>,
    res: Seq<(Seq<char>, Seq<(Seq<char>, usize)>)>,
    j: int,
) -> Seq<DiagnosticView>
    decreases j,
{
    if j <= 0 || j > refs.len() {
        seq![]
    } else {
        unresolved_refs_upto(n, refs, res, j - 1) + if first_occurrence(refs, j - 1) && !has_key(
            res,
            refs[j - 1],
        ) {
            seq![unresolved_diag(n.id, refs[j - 1])]
        } else {
            seq![]
        }
    }
}

/// Unresolved-evidence diagnostics of one node, one per distinct id, in order.
pub open spec fn node_unresolved(n: NodeView, res: Seq<(Seq<char>, Seq<(Seq<char>, usize)>)>) -> Seq<
    DiagnosticView,
> {
    unresolved_refs_upto(n, evidence_refs(n.body), res, evidence_refs(n.body).len() as int)
}

/// Unresolved-evidence diagnostics of the first `i` nodes.
pub open spec fn unresolved_upto(
    ns: Seq<NodeView>,
    res: Seq<(Seq<char>, Seq<(Seq<char>, usize)>)>,
    i: int,
) -> Seq<DiagnosticView>
    decreases i,
{
    if i <= 0 || i > ns.len() {
        seq![]
    } else {
        unresolved_upto(ns, res, i - 1) + node_unresolved(ns[i - 1], res)
    }
}

/// For each node, one diagnostic per distinct `[evidence:X]` id that is not resolved.
pub open spec fn unresolved_evidence(
    ns: Seq<NodeView>,
    res: Seq<(Seq<char>, Seq<(Seq<char>, usize)>)>,
) -> Seq<DiagnosticView> {
    unresolved_upto(ns, res, ns.len() as int)
}

fn text_of(s: &str) -> (r: String)
    ensures
        r@ == s@,
{
    String::from_str(s)
}

fn diag_err(rule: &str, node_id: &str, detail: String, fix: String, hint: &str) -> (d: Diagnostic)
    ensures
        d@ == (DiagnosticView {
            rule: rule@,
            severity: Severity::Error,
            node_id: Some(node_id@),
            file: None,
            detail: detail@,
            fix: fix@,
            example: None,
            hint: hint@,
        }),
{
    Diagnostic {
        rule: text_of(rule),
        severity: Severity::Error,
        node_id: Some(text_of(node_id)),
        file: None,
        detail,
        fix,
        example: None,
        hint: text_of(hint),
    }
}

fn broken_edge_diagnostic(id: &str, target: &str) -> (d: Diagnostic)
    ensures
        d@ == broken_edge_diag(id@, target@),
{
    let mut detail = text_of(NODE_QUOTE);
    detail.append(id);
    detail.append(BROKEN_DETAIL_1);
    detail.append(target);
    detail.append(BROKEN_DETAIL_2);
    detail.append(target);
    detail.append(BROKEN_DETAIL_3);
    let mut fix = text_of(BROKEN_FIX_1);
    fix.append(target);
    fix.append(BROKEN_FIX_2);
    fix.append(id);
    fix.append(QUOTE_DOT);
    diag_err(BROKEN_EDGE_RULE, id, detail, fix, BROKEN_HINT)
}

fn title_diagnostic(id: &str) -> (d: Diagnostic)
    ensures
        d@ == title_diag(id@),
{
    let mut detail = text_of(NODE_QUOTE);
    detail.append(id);
    detail.append(TITLE_DETAIL_2);
    let mut fix = text_of(TITLE_FIX_1);
    fix.append(id);
    fix.append(TITLE_FIX_2);
    fix.append(id);
    Diagnostic {
        rule: text_of(TITLE_RULE),
        severity: Severity::Warning,
        node_id: Some(text_of(id)),
        file: None,
        detail,
        fix,
        example: None,
        hint: text_of(TITLE_HINT),
    }
}

fn unused_anchor_diagnostic(ev: &str) -> (d: Diagnostic)
    ensures
        d@ == unused_anchor_diag(ev@),
{
    let mut detail = text_of(UNUSED_DETAIL_1);
    detail.append(ev);
    detail.append(UNUSED_DETAIL_2);
    detail.append(ev);
    detail.append(UNUSED_DETAIL_3);
    let mut fix = text_of(UNUSED_FIX_1);
    fix.append(ev);
    fix.append(UNUSED_FIX_2);
    let mut example = text_of(UNUSED_EXAMPLE_1);
    example.append(ev);
    example.append(CLOSE);
    Diagnostic {
        rule: text_of(UNUSED_ANCHOR_RULE),
        severity: Severity::Error,
        node_id: None,
        file: None,
        detail,
        fix,
        example: Some(example),
        hint: text_of(UNUSED_HINT),
    }
}

fn too_large_diagnostic(id: &str, len: usize, max: usize) -> (d: Diagnostic)
    ensures
        d@ == too_large_diag(id@, len as nat, max as nat),
{
    let len_text = crate::text::decimal_string(len);
    let max_text = crate::text::decimal_string(max);
    let mut detail = text_of(NODE_QUOTE);
    detail.append(id);
    detail.append(LARGE_DETAIL_2);
    detail.append(len_text.as_str());
    detail.append(LARGE_DETAIL_3);
    detail.append(max_text.as_str());
    detail.append(LARGE_DETAIL_4);
    let mut fix = text_of(LARGE_FIX_1);
    fix.append(max_text.as_str());
    fix.append(LARGE_FIX_2);
    Diagnostic {
        rule: text_of(TOO_LARGE_RULE),
        severity: Severity::Error,
        node_id: Some(text_of(id)),
        file: None,
        detail,
        fix,
        example: Some(text_of(LARGE_EXAMPLE)),
        hint: text_of(LARGE_HINT),
    }
}

fn unresolved_diagnostic(id: &str, ev: &str) -> (d: Diagnostic)
    ensures
        d@ == unresolved_diag(id@, ev@),
{
    let mut detail = text_of(NODE_QUOTE);
    detail.append(id);
    detail.append(UNRESOLVED_DETAIL_2);
    detail.append(ev);
    detail.append(UNRESOLVED_DETAIL_3);
    let mut fix = text_of(UNRESOLVED_FIX_1);
    fix.append(ev);
    fix.append(UNRESOLVED_FIX_2);
    Diagnostic {
        rule: text_of(UNRESOLVED_RULE),
        severity: Severity::Error,
        node_id: Some(text_of(id)),
        file: None,
        detail,
        fix,
        example: Some(text_of(UNRESOLVED_EXAMPLE)),
        hint: text_of(UNRESOLVED_HINT),
    }
}

/// Whether some line of `body`, trimmed, starts with `# `.
pub fn body_has_title(body: &str) -> (r: bool)
    ensures
        r == has_title(body@),
{
    let v = chars_of(body);
    let ghost s = v@;
    let marker = vec!['#', ' '];
    assert(marker@ == heading_marker());
    let ghost mut done: Seq<Seq<char>> = seq![];
    let mut i: usize = 0;
    while i < v.len()
        invariant
            s == v@,
            s == body@,
            marker@ == heading_marker(),
            i <= v@.len(),
            lines(s) == done + lines_from(s, i as int),
            forall|k: int| 0 <= k < done.len() ==> !matches_at(trim(#[trigger] done[k]), heading_marker(), 0),
        decreases v.len() - i,
    {
        let (c, e) = next_line(&v, i);
        let line = vstd::slice::slice_to_vec(vstd::slice::slice_subrange(v.as_slice(), i, c));
        let (a, b) = trim_bounds(&line);
        let trimmed = vstd::slice::slice_to_vec(vstd::slice::slice_subrange(line.as_slice(), a, b));
        if matches_at_exec(&trimmed, &marker, 0) {
            proof {
                assert(lines(s)[done.len() as int] == line@);
            }
            return true;
        }
        proof {
            done = done.push(line@);
            assert(lines(s) =~= done + lines_from(s, e + 1));
        }
        if e >= v.len() {
            i = v.len();
        } else {
            i = e + 1;
        }
    }
    proof {
        assert(done + lines_from(s, i as int) =~= done);
    }
    false
}

impl ValidationEngine {
    /// Runs the structural checks: broken edge references, then missing titles.
    pub fn validate(&self, graph: &Graph) -> (r: Vec<Diagnostic>)
        ensures
            diags_view(r@) == broken_edges(graph.nodes@) + missing_titles(graph.nodes@),
    {
        let mut diagnostics = self.check_edge_refs_exist(graph);
        let mut titles = self.check_node_body_has_title(graph);
        let ghost a = diags_view(diagnostics@);
        let ghost b = diags_view(titles@);
        diagnostics.append(&mut titles);
        assert(diags_view(diagnostics@) =~= a + b);
        diagnostics
    }

    /// Every `[edge:X]` reference in a node body must target an existing node.
    pub fn check_edge_refs_exist(&self, graph: &Graph) -> (r: Vec<Diagnostic>)
        ensures
            diags_view(r@) == broken_edges(graph.nodes@),
    {
        let ns = graph.nodes.values();
        let ghost all = graph.nodes@;
        let mut diagnostics: Vec<Diagnostic> = Vec::new();
        let mut i: usize = 0;
        while i < ns.len()
            invariant
                i <= ns@.len(),
                ns@.map_values(|n: Node| n@) == all,
                all == graph.nodes@,
                diags_view(diagnostics@) == broken_edges_upto(all, i as int),
            decreases ns.len() - i,
        {
            let node = &ns[i];
            assert(node@ == all[i as int]);
            let refs = extract_edge_refs(node.body.as_str());
            let ghost before = diags_view(diagnostics@);
            let mut j: usize = 0;
            while j < refs.len()
                invariant
                    j <= refs@.len(),
                    strs(refs@) == edge_refs(node.body@),
                    all == graph.nodes@,
                    diags_view(diagnostics@) == before + broken_refs_upto(
                        all,
                        node@,
                        strs(refs@),
                        j as int,
                    ),
                decreases refs.len() - j,
            {
                let ghost prev = diags_view(diagnostics@);
                if !graph.nodes.contains_key(refs[j].as_str()) {
                    diagnostics.push(broken_edge_diagnostic(node.id.as_str(), refs[j].as_str()));
                    assert(diags_view(diagnostics@) =~= prev + seq![
                        broken_edge_diag(node@.id, strs(refs@)[j as int]),
                    ]);
                } else {
                    assert(diags_view(diagnostics@) =~= prev + Seq::<DiagnosticView>::empty());
                }
                proof {
                    assert(strs(refs@)[j as int] == refs@[j as int]@);
                    assert(before + broken_refs_upto(all, node@, strs(refs@), j + 1) =~= prev + (
                    if has_id(all, strs(refs@)[j as int]) {
                        Seq::<DiagnosticView>::empty()
                    } else {
                        seq![broken_edge_diag(node@.id, strs(refs@)[j as int])]
                    }));
                }
                j = j + 1;
            }
            proof {
                assert(broken_edges_upto(all, i + 1) =~= before + node_broken_edges(all, all[i as int]));
            }
            i = i + 1;
        }
        diagnostics
    }

    /// Every node body should have a `# ` heading line; otherwise a warning.
    pub fn check_node_body_has_title(&self, graph: &Graph) -> (r: Vec<Diagnostic>)
        ensures
            diags_view(r@) == missing_titles(graph.nodes@),
    {
        let ns = graph.nodes.values();
        let ghost all = graph.nodes@;
        let mut diagnostics: Vec<Diagnostic> = Vec::new();
        let mut i: usize = 0;
        while i < ns.len()
            invariant
                i <= ns@.len(),
                ns@.map_values(|n: Node| n@) == all,
                diags_view(diagnostics@) == missing_titles_upto(all, i as int),
            decreases ns.len() - i,
        {
            let node = &ns[i];
            assert(node@ == all[i as int]);
            let ghost prev = diags_view(diagnostics@);
            if !body_has_title(node.body.as_str()) {
                diagnostics.push(title_diagnostic(node.id.as_str()));
                assert(diags_view(diagnostics@) =~= prev + seq![title_diag(node@.id)]);
            } else {
                assert(diags_view(diagnostics@) =~= prev + Seq::<DiagnosticView>::empty());
            }
            i = i + 1;
        }
        diagnostics
    }

    /// Every resolved evidence anchor must be referenced by some node body.
    pub fn check_unused_anchors(&self, graph: &Graph, resolved: &ResolvedEvidence) -> (r: Vec<
        Diagnostic,
    >)
        ensures
            diags_view(r@) == unused_anchors(graph.nodes@, resolved@),
    {
        let ns = graph.nodes.values();
        let ghost all = graph.nodes@;
        let mut used: Vec<Vec<String>> = Vec::new();
        let mut i: usize = 0;
        while i < ns.len()
            invariant
                i <= ns@.len(),
                ns@.map_values(|n: Node| n@) == all,
                used@.len() == i,
                forall|k: int| 0 <= k < i ==> strs(#[trigger] used@[k]@) == evidence_refs(all[k].body),
            decreases ns.len() - i,
        {
            assert(ns@[i as int]@ == all[i as int]);
            used.push(extract_evidence_refs(ns[i].body.as_str()));
            i = i + 1;
        }
        let entries = resolved.entries();
        let ghost res = resolved@;
        let mut diagnostics: Vec<Diagnostic> = Vec::new();
        let mut k: usize = 0;
        while k < entries.len()
            invariant
                k <= entries@.len(),
                entries@.map_values(|e: (String, Vec<(String, usize)>)| crate::evidence_entry_view(e))
                    == res,
                used@.len() == all.len(),
                forall|m: int| 0 <= m < all.len() ==> strs(#[trigger] used@[m]@) == evidence_refs(all[m].body),
                diags_view(diagnostics@) == unused_upto(all, res, k as int),
            decreases entries.len() - k,
        {
            let ev = entries[k].0.as_str();
            assert(ev@ == res[k as int].0);
            let mut found = false;
            let mut a: usize = 0;
            while a < used.len() && !found
                invariant
                    a <= used@.len(),
                    used@.len() == all.len(),
                    forall|m: int| 0 <= m < all.len() ==> strs(#[trigger] used@[m]@) == evidence_refs(all[m].body),
                    found ==> evidence_used(all, ev@),
                    !found ==> forall|x: int, y: int|
                        0 <= x < a && 0 <= y < evidence_refs(all[x].body).len() ==> #[trigger] evidence_refs(
                            all[x].body,
                        )[y] != ev@,
                decreases used.len() - a, if found { 0int } else { 1int },
            {
                let refs = &used[a];
                let mut b: usize = 0;
                while b < refs.len()
                    invariant
                        b <= refs@.len(),
                        a < used@.len(),
                        used@.len() == all.len(),
                        refs == used@[a as int],
                        strs(refs@) == evidence_refs(all[a as int].body),
                        found ==> evidence_used(all, ev@),
                        !found ==> forall|y: int| 0 <= y < b ==> evidence_refs(all[a as int].body)[y] != ev@,
                    decreases refs.len() - b,
                {
                    assert(strs(refs@)[b as int] == refs@[b as int]@);
                    if crate::text::str_eq(refs[b].as_str(), ev) {
                        found = true;
                        assert(evidence_refs(all[a as int].body)[b as int] == ev@);
                    }
                    b = b + 1;
                }
                if !found {
                    a = a + 1;
                }
            }
            let ghost prev = diags_view(diagnostics@);
            if !found {
                diagnostics.push(unused_anchor_diagnostic(ev));
                assert(diags_view(diagnostics@) =~= prev + seq![unused_anchor_diag(ev@)]);
            } else {
                assert(diags_view(diagnostics@) =~= prev + Seq::<DiagnosticView>::empty());
            }
            k = k + 1;
        }
        diagnostics
    }

    /// No node may come from a file of more than `max_chars` bytes.
    pub fn check_node_file_size(&self, graph: &Graph, max_chars: usize) -> (r: Vec<Diagnostic>)
        ensures
            diags_view(r@) == too_large(graph.nodes@, max_chars),
    {
        let ns = graph.nodes.values();
        let ghost all = graph.nodes@;
        let mut diagnostics: Vec<Diagnostic> = Vec::new();
        let mut i: usize = 0;
        while i < ns.len()
            invariant
                i <= ns@.len(),
                ns@.map_values(|n: Node| n@) == all,
                diags_view(diagnostics@) == too_large_upto(all, max_chars, i as int),
            decreases ns.len() - i,
        {
            let node = &ns[i];
            assert(node@ == all[i as int]);
            let ghost prev = diags_view(diagnostics@);
            if node.content_len > max_chars {
                diagnostics.push(too_large_diagnostic(node.id.as_str(), node.content_len, max_chars));
                assert(diags_view(diagnostics@) =~= prev + seq![
                    too_large_diag(node@.id, node@.content_len as nat, max_chars as nat),
                ]);
            } else {
                assert(diags_view(diagnostics@) =~= prev + Seq::<DiagnosticView>::empty());
            }
            i = i + 1;
        }
        diagnostics
    }

    /// Every `[evidence:X]` in a node body must have a resolved anchor; each id is
    /// reported at most once per node.
    pub fn check_evidence_anchors(&self, graph: &Graph, resolved: &ResolvedEvidence) -> (r: Vec<
        Diagnostic,
    >)
        ensures
            diags_view(r@) == unresolved_evidence(graph.nodes@, resolved@),
    {
        let ns = graph.nodes.values();
        let ghost all = graph.nodes@;
        let ghost res = resolved@;
        let mut diagnostics: Vec<Diagnostic> = Vec::new();
        let mut i: usize = 0;
        while i < ns.len()
            invariant
                i <= ns@.len(),
                ns@.map_values(|n: Node| n@) == all,
                res == resolved@,
                diags_view(diagnostics@) == unresolved_upto(all, res, i as int),
            decreases ns.len() - i,
        {
            let node = &ns[i];
            assert(node@ == all[i as int]);
            let refs = extract_evidence_refs(node.body.as_str());
            let ghost rv = strs(refs@);
            let ghost before = diags_view(diagnostics@);
            let mut seen: Vec<String> = Vec::new();
            let mut j: usize = 0;
            while j < refs.len()
                invariant
                    j <= refs@.len(),
                    rv == strs(refs@),
                    rv == evidence_refs(node.body@),
                    res == resolved@,
                    forall|x: Seq<char>|
                        strs(seen@).contains(x) <==> exists|k: int| 0 <= k < j && rv[k] == x,
                    diags_view(diagnostics@) == before + unresolved_refs_upto(node@, rv, res, j as int),
                decreases refs.len() - j,
            {
                let r = refs[j].as_str();
                assert(r@ == rv[j as int]);
                let mut present = false;
                let mut s: usize = 0;
                while s < seen.len()
                    invariant
                        s <= seen@.len(),
                        present == exists|k: int| 0 <= k < s && strs(seen@)[k] == r@,
                    decreases seen.len() - s,
                {
                    assert(strs(seen@)[s as int] == seen@[s as int]@);
                    if crate::text::str_eq(seen[s].as_str(), r) {
                        present = true;
                    }
                    s = s + 1;
                }
                proof {
                    if present {
                        let k = choose|k: int| 0 <= k < s && strs(seen@)[k] == r@;
                        assert(strs(seen@).contains(r@));
                    } else {
                        assert(!strs(seen@).contains(r@));
                    }
                    assert(first_occurrence(rv, j as int) == !present);
                }
                let ghost prev = diags_view(diagnostics@);
                if !present {
                    let ghost sv = strs(seen@);
                    seen.push(text_of(r));
                    proof {
                        assert(strs(seen@) =~= sv.push(r@));
                        assert forall|x: Seq<char>|
                            strs(seen@).contains(x) <==> exists|k: int| 0 <= k < j + 1 && rv[k] == x by {
                            if strs(seen@).contains(x) {
                                let m = choose|m: int| 0 <= m < strs(seen@).len() && strs(seen@)[m] == x;
                                if m < sv.len() {
                                    assert(sv.contains(x));
                                }
                            }
                            if exists|k: int| 0 <= k < j + 1 && rv[k] == x {
                                let k = choose|k: int| 0 <= k < j + 1 && rv[k] == x;
                                if k < j {
                                    assert(sv.contains(x));
                                    let m = choose|m: int| 0 <= m < sv.len() && sv[m] == x;
                                    assert(strs(seen@)[m] == x);
                                } else {
                                    assert(strs(seen@)[sv.len() as int] == x);
                                }
                            }
                        }
                    }
                    if !resolved.contains_key(r) {
                        diagnostics.push(unresolved_diagnostic(node.id.as_str(), r));
                        assert(diags_view(diagnostics@) =~= prev + seq![unresolved_diag(node@.id, r@)]);
                    } else {
                        assert(diags_view(diagnostics@) =~= prev + Seq::<DiagnosticView>::empty());
                    }
                } else {
                    proof {
                        assert forall|x: Seq<char>|
                            strs(seen@).contains(x) <==> exists|k: int| 0 <= k < j + 1 && rv[k] == x by {
                            if exists|k: int| 0 <= k < j + 1 && rv[k] == x {
                                let k = choose|k: int| 0 <= k < j + 1 && rv[k] == x;
                                if k == j {
                                    assert(strs(seen@).contains(r@));
                                }
                            }
                        }
                    }
                    assert(diags_view(diagnostics@) =~= prev + Seq::<DiagnosticView>::empty());
                }
                proof {
                    assert(before + unresolved_refs_upto(node@, rv, res, j + 1) =~= prev + (
                    if first_occurrence(rv, j as int) && !has_key(res, rv[j as int]) {
                        seq![unresolved_diag(node@.id, rv[j as int])]
                    } else {
                        Seq::<DiagnosticView>::empty()
                    }));
                }
                j = j + 1;
            }
            proof {
                assert(unresolved_upto(all, res, i + 1) =~= before + node_unresolved(all[i as int], res));
            }
            i = i + 1;
        }
        diagnostics
    }
}


/// Every `[edge:X]` reference of every node names a node of the graph.
pub open spec fn edges_resolve(ns: Seq<NodeView>) -> bool {
    forall|i: int, j: int|
        0 <= i < ns.len() && 0 <= j < edge_refs(ns[i].body).len() ==> has_id(
            ns,
            #[trigger] edge_refs(ns[i].body)[j],
        )
}

proof fn lemma_broken_refs_empty(all: Seq<NodeView>, n: NodeView, refs: Seq<Seq<char>>, j: int)
    requires
        0 <= j <= refs.len(),
    ensures
        broken_refs_upto(all, n, refs, j).len() == 0 <==> forall|k: int|
            0 <= k < j ==> has_id(all, #[trigger] refs[k]),
    decreases j,
{
    if j > 0 {
        lemma_broken_refs_empty(all, n, refs, j - 1);
    }
}

proof fn lemma_broken_edges_empty(ns: Seq<NodeView>, i: int)
    requires
        0 <= i <= ns.len(),
    ensures
        broken_edges_upto(ns, i).len() == 0 <==> forall|m: int, j: int|
            0 <= m < i && 0 <= j < edge_refs(ns[m].body).len() ==> has_id(
                ns,
                #[trigger] edge_refs(ns[m].body)[j],
            ),
    decreases i,
{
    if i > 0 {
        lemma_broken_edges_empty(ns, i - 1);
        let n = ns[i - 1];
        let refs = edge_refs(n.body);
        lemma_broken_refs_empty(ns, n, refs, refs.len() as int);
        if broken_edges_upto(ns, i).len() == 0 {
            assert forall|m: int, j: int|
                0 <= m < i && 0 <= j < edge_refs(ns[m].body).len() implies has_id(
                ns,
                #[trigger] edge_refs(ns[m].body)[j],
            ) by {
                if m == i - 1 {
                    assert(refs[j] == edge_refs(ns[m].body)[j]);
                }
            }
        }
        if forall|m: int, j: int|
            0 <= m < i && 0 <= j < edge_refs(ns[m].body).len() ==> has_id(
                ns,
                #[trigger] edge_refs(ns[m].body)[j],
            ) {
            assert forall|k: int| 0 <= k < refs.len() implies has_id(ns, #[trigger] refs[k]) by {
                assert(edge_refs(ns[i - 1].body)[k] == refs[k]);
            }
        }
    }
}

/// The edge check reports nothing exactly when every `[edge:X]` reference of every node
/// names a node of the graph.
pub proof fn lemma_no_broken_edges_iff_resolved(ns: Seq<NodeView>)
    ensures
        broken_edges(ns).len() == 0 <==> edges_resolve(ns),
{
    lemma_broken_edges_empty(ns, ns.len() as int);
}

proof fn lemma_missing_titles_empty(ns: Seq<NodeView>, i: int)
    requires
        0 <= i <= ns.len(),
    ensures
        missing_titles_upto(ns, i).len() == 0 <==> forall|m: int|
            0 <= m < i ==> has_title(#[trigger] ns[m].body),
    decreases i,
{
    if i > 0 {
        lemma_missing_titles_empty(ns, i - 1);
    }
}

/// The title check reports nothing exactly when every node body has a `# ` heading line.
pub proof fn lemma_no_missing_titles_iff_titled(ns: Seq<NodeView>)
    ensures
        missing_titles(ns).len() == 0 <==> forall|m: int|
            0 <= m < ns.len() ==> has_title(#[trigger] ns[m].body),
{
    lemma_missing_titles_empty(ns, ns.len() as int);
}

proof fn lemma_too_large_empty(ns: Seq<NodeView>, max: usize, i: int)
    requires
        0 <= i <= ns.len(),
    ensures
        too_large_upto(ns, max, i).len() == 0 <==> forall|m: int|
            0 <= m < i ==> (#[trigger] ns[m]).content_len <= max,
    decreases i,
{
    if i > 0 {
        lemma_too_large_empty(ns, max, i - 1);
    }
}

/// The file-size check reports nothing exactly when no node file is larger than the limit.
pub proof fn lemma_no_too_large_iff_within_limit(ns: Seq<NodeView>, max: usize)
    ensures
        too_large(ns, max).len() == 0 <==> forall|m: int|
            0 <= m < ns.len() ==> (#[trigger] ns[m]).content_len <= max,
{
    lemma_too_large_empty(ns, max, ns.len() as int);
}

proof fn lemma_unused_empty(
    ns: Seq<NodeView>,
    res: Seq<(Seq<char>, Seq<(Seq<char>, usize)>)>,
    k: int,
)
    requires
        0 <= k <= res.len(),
    ensures
        unused_upto(ns, res, k).len() == 0 <==> forall|m: int|
            0 <= m < k ==> evidence_used(ns, (#[trigger] res[m]).0),
    decreases k,
{
    if k > 0 {
        lemma_unused_empty(ns, res, k - 1);
    }
}

/// The unused-anchor check reports nothing exactly when every resolved evidence id is
/// referenced by some node body.
pub proof fn lemma_no_unused_iff_all_used(
    ns: Seq<NodeView>,
    res: Seq<(Seq<char>, Seq<(Seq<char>, usize)>)>,
)
    ensures
        unused_anchors(ns, res).len() == 0 <==> forall|m: int|
            0 <= m < res.len() ==> evidence_used(ns, (#[trigger] res[m]).0),
{
    lemma_unused_empty(ns, res, res.len() as int);
}

proof fn lemma_unresolved_refs_empty(
    n: NodeView,
    refs: Seq<Seq<char>>,
    res: Seq<(Seq<char>, Seq<(Seq<char>, usize)>)>,
    j: int,
)
    requires
        0 <= j <= refs.len(),
    ensures
        unresolved_refs_upto(n, refs, res, j).len() == 0 <==> forall|k: int|
            0 <= k < j ==> has_key(res, #[trigger] refs[k]),
    decreases j,
{
    if j > 0 {
        lemma_unresolved_refs_empty(n, refs, res, j - 1);
        if !first_occurrence(refs, j - 1) {
            let k0 = choose|k: int| 0 <= k < j - 1 && #[trigger] refs[k] == refs[j - 1];
            assert(refs[k0] == refs[j - 1]);
        }
    }
}

proof fn lemma_unresolved_empty(
    ns: Seq<NodeView>,
    res: Seq<(Seq<char>, Seq<(Seq<char>, usize)>)>,
    i: int,
)
    requires
        0 <= i <= ns.len(),
    ensures
        unresolved_upto(ns, res, i).len() == 0 <==> forall|m: int, j: int|
            0 <= m < i && 0 <= j < evidence_refs(ns[m].body).len() ==> has_key(
                res,
                #[trigger] evidence_refs(ns[m].body)[j],
            ),
    decreases i,
{
    if i > 0 {
        lemma_unresolved_empty(ns, res, i - 1);
        let n = ns[i - 1];
        let refs = evidence_refs(n.body);
        lemma_unresolved_refs_empty(n, refs, res, refs.len() as int);
        if unresolved_upto(ns, res, i).len() == 0 {
            assert forall|m: int, j: int|
                0 <= m < i && 0 <= j < evidence_refs(ns[m].body).len() implies has_key(
                res,
                #[trigger] evidence_refs(ns[m].body)[j],
            ) by {
                if m == i - 1 {
                    assert(refs[j] == evidence_refs(ns[m].body)[j]);
                }
            }
        }
        if forall|m: int, j: int|
            0 <= m < i && 0 <= j < evidence_refs(ns[m].body).len() ==> has_key(
                res,
                #[trigger] evidence_refs(ns[m].body)[j],
            ) {
            assert forall|k: int| 0 <= k < refs.len() implies has_key(res, #[trigger] refs[k]) by {
                assert(evidence_refs(ns[i - 1].body)[k] == refs[k]);
            }
        }
    }
}

/// The evidence check reports nothing exactly when every `[evidence:X]` reference of every
/// node has resolved anchors.
pub proof fn lemma_no_unresolved_iff_all_resolved(
    ns: Seq<NodeView>,
    res: Seq<(Seq<char>, Seq<(Seq<char>, usize)>)>,
)
    ensures
        unresolved_evidence(ns, res).len() == 0 <==> forall|m: int, j: int|
            0 <= m < ns.len() && 0 <= j < evidence_refs(ns[m].body).len() ==> has_key(
                res,
                #[trigger] evidence_refs(ns[m].body)[j],
            ),
{
    lemma_unresolved_empty(ns, res, ns.len() as int);
}

/// An unused-anchor diagnostic names a resolved id that no body references.
pub open spec fn names_unused_resolved(
    ns: Seq<NodeView>,
    res: Seq<(Seq<char>, Seq<(Seq<char>, usize)>)>,
    d: DiagnosticView,
) -> bool {
    exists|m: int|
        0 <= m < res.len() && d == unused_anchor_diag(#[trigger] res[m].0) && !evidence_used(
            ns,
            res[m].0,
        )
}

/// An unresolved-evidence diagnostic names a node and an id that has no resolved anchors.
pub open spec fn names_unresolved(
    ns: Seq<NodeView>,
    res: Seq<(Seq<char>, Seq<(Seq<char>, usize)>)>,
    d: DiagnosticView,
) -> bool {
    exists|i: int, e: Seq<char>|
        0 <= i < ns.len() && d == #[trigger] unresolved_diag(ns[i].id, e) && !has_key(res, e)
}

proof fn lemma_unused_upto_names(
    ns: Seq<NodeView>,
    res: Seq<(Seq<char>, Seq<(Seq<char>, usize)>)>,
    k: int,
)
    requires
        0 <= k <= res.len(),
    ensures
        forall|x: int|
            0 <= x < unused_upto(ns, res, k).len() ==> names_unused_resolved(
                ns,
                res,
                #[trigger] unused_upto(ns, res, k)[x],
            ),
    decreases k,
{
    if k > 0 {
        lemma_unused_upto_names(ns, res, k - 1);
        let prev = unused_upto(ns, res, k - 1);
        assert forall|x: int|
            0 <= x < unused_upto(ns, res, k).len() implies names_unused_resolved(
            ns,
            res,
            #[trigger] unused_upto(ns, res, k)[x],
        ) by {
            if x < prev.len() {
                assert(unused_upto(ns, res, k)[x] == prev[x]);
            } else {
                assert(unused_upto(ns, res, k)[x] == unused_anchor_diag(res[k - 1].0));
            }
        }
    }
}

proof fn lemma_unresolved_refs_names(
    ns: Seq<NodeView>,
    i: int,
    refs: Seq<Seq<char>>,
    res: Seq<(Seq<char>, Seq<(Seq<char>, usize)>)>,
    j: int,
)
    requires
        0 <= i < ns.len(),
        0 <= j <= refs.len(),
    ensures
        forall|x: int|
            0 <= x < unresolved_refs_upto(ns[i], refs, res, j).len() ==> names_unresolved(
                ns,
                res,
                #[trigger] unresolved_refs_upto(ns[i], refs, res, j)[x],
            ),
    decreases j,
{
    if j > 0 {
        lemma_unresolved_refs_names(ns, i, refs, res, j - 1);
        let prev = unresolved_refs_upto(ns[i], refs, res, j - 1);
        assert forall|x: int|
            0 <= x < unresolved_refs_upto(ns[i], refs, res, j).len() implies names_unresolved(
            ns,
            res,
            #[trigger] unresolved_refs_upto(ns[i], refs, res, j)[x],
        ) by {
            if x < prev.len() {
                assert(unresolved_refs_upto(ns[i], refs, res, j)[x] == prev[x]);
            } else {
                assert(unresolved_refs_upto(ns[i], refs, res, j)[x] == unresolved_diag(
                    ns[i].id,
                    refs[j - 1],
                ));
            }
        }
    }
}

proof fn lemma_unresolved_upto_names(
    ns: Seq<NodeView>,
    res: Seq<(Seq<char>, Seq<(Seq<char>, usize)>)>,
    i: int,
)
    requires
        0 <= i <= ns.len(),
    ensures
        forall|x: int|
            0 <= x < unresolved_upto(ns, res, i).len() ==> names_unresolved(
                ns,
                res,
                #[trigger] unresolved_upto(ns, res, i)[x],
            ),
    decreases i,
{
    if i > 0 {
        lemma_unresolved_upto_names(ns, res, i - 1);
        let prev = unresolved_upto(ns, res, i - 1);
        let refs = evidence_refs(ns[i - 1].body);
        let cur = node_unresolved(ns[i - 1], res);
        lemma_unresolved_refs_names(ns, i - 1, refs, res, refs.len() as int);
        assert forall|x: int|
            0 <= x < unresolved_upto(ns, res, i).len() implies names_unresolved(
            ns,
            res,
            #[trigger] unresolved_upto(ns, res, i)[x],
        ) by {
            if x < prev.len() {
                assert(unresolved_upto(ns, res, i)[x] == prev[x]);
            } else {
                assert(unresolved_upto(ns, res, i)[x] == cur[x - prev.len()]);
            }
        }
    }
}

/// An unused-anchor diagnostic always names a resolved evidence id that no body
/// references, and an unresolved-evidence diagnostic a node and an id without resolved
/// anchors.
pub proof fn lemma_evidence_diagnostics_name_their_ids(
    ns: Seq<NodeView>,
    res: Seq<(Seq<char>, Seq<(Seq<char>, usize)>)>,
)
    ensures
        forall|x: int|
            0 <= x < unused_anchors(ns, res).len() ==> names_unused_resolved(
                ns,
                res,
                #[trigger] unused_anchors(ns, res)[x],
            ),
        forall|x: int|
            0 <= x < unresolved_evidence(ns, res).len() ==> names_unresolved(
                ns,
                res,
                #[trigger] unresolved_evidence(ns, res)[x],
            ),
{
    lemma_unused_upto_names(ns, res, res.len() as int);
    lemma_unresolved_upto_names(ns, res, ns.len() as int);
}

/// A body has a title exactly when one of its lines, trimmed, starts with `#` followed
/// by a space.
pub proof fn lemma_title_is_hash_then_space(body: Seq<char>)
    ensures
        has_title(body) <==> exists|k: int|
            0 <= k < lines(body).len() && trim(#[trigger] lines(body)[k]).len() >= 2
                && trim(lines(body)[k])[0] == '#' && trim(lines(body)[k])[1] == ' ',
{
    assert forall|t: Seq<char>| matches_at(t, heading_marker(), 0) <==> (t.len() >= 2 && t[0] == '#' && t[1] == ' ') by {
        if t.len() >= 2 && t[0] == '#' && t[1] == ' ' {
            assert(t.subrange(0, 2) =~= heading_marker());
        }
        if matches_at(t, heading_marker(), 0) {
            assert(t.subrange(0, 2)[0] == '#');
            assert(t.subrange(0, 2)[1] == ' ');
        }
    }
}

proof fn lemma_trim_end_keeps_second(s: Seq<char>, j: int)
    requires
        2 <= j <= s.len(),
        !crate::text::unicode_whitespace(s[1]),
    ensures
        trim_end_index(s, j) >= 2,
    decreases j,
{
    if j > 2 && crate::text::unicode_whitespace(s[j - 1]) {
        lemma_trim_end_keeps_second(s, j - 1);
    }
}

/// A one-line body that starts with `##` (a heading below the top level, or `##` text)
/// has no title.
pub proof fn lemma_subheading_is_no_title(rest: Seq<char>)
    requires
        !rest.contains('\n'),
    ensures
        !has_title(seq!['#', '#'] + rest),
{
    let s = seq!['#', '#'] + rest;
    assert forall|k: int| 0 <= k < s.len() implies s[k] != '\n' by {
        if k >= 2 {
            assert(s[k] == rest[k - 2]);
            assert(rest.contains(rest[k - 2]));
        }
    }
    crate::text::lemma_newline_from(s, 0);
    assert(newline_from(s, 0) == s.len());
    assert(line_text(s, 0) =~= s);
    assert(lines_from(s, s.len() as int + 1) =~= Seq::<Seq<char>>::empty());
    assert(lines(s) =~= seq![s]);
    assert(!crate::text::unicode_whitespace('#'));
    assert(trim_start_index(s, 0) == 0);
    assert(trim_start(s) =~= s);
    lemma_trim_end_keeps_second(s, s.len() as int);
    let t = trim(s);
    assert(t == crate::text::trim_end(s));
    let e = trim_end_index(s, s.len() as int);
    crate::text::lemma_trim_end_index(s, s.len() as int);
    assert(t == s.subrange(0, e));
    assert(t.len() >= 2);
    assert(t[1] == s[1]);
    assert(t[1] == '#');
    lemma_title_is_hash_then_space(s);
}

} // verus!
