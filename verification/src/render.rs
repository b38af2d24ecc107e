//! Rendering a graph to HTML pages: links between pages, per-category numbering, node
//! labels, edge references, backlinks, node pages and the root index.
use vstd::prelude::*;
use vstd::string::*;

use crate::markdown::{body_html, body_title, render_body_html, title_of};
use crate::ordering::{
    lemma_str_less_irreflexive, lemma_str_less_total, lemma_str_less_transitive, sort_distinct,
    sorted_set, str_less, str_lt,
};
use crate::text::{
    chars_of, contains, decimal, decimal_string, find_chars, find_from, lemma_find_from_bounds,
    matches_at, string_of, trim, trim_bounds,
};
use crate::validation::{close_bracket, strs};
use crate::{
    distinct_ids, has_id, has_key, node_with_id, value_of, Diagnostic, Graph, Node, NodeView,
    Schema,
};

verus! {

pub const HTML_EXT: &'static str = ".html";

pub const PARENT_DIR: &'static str = "../";

pub const SLASH: &'static str = "/";

pub const INDEX_PAGE: &'static str = "index.html";

pub const PARENT_INDEX_PAGE: &'static str = "../index.html";

pub const SLASH_INDEX_PAGE: &'static str = "/index.html";

/// The category name under which the root index links to other pages.
pub const INDEX_CATEGORY: &'static str = "index";

/// The key shown for a category that the schema does not define.
pub const UNKNOWN_KEY: &'static str = "??";

pub const DASH: &'static str = "-";

pub const SPACE: &'static str = " ";

/// The id of the node whose body is shown on the root index.
pub const ROOT_ID: &'static str = "root";

// ---------------------------------------------------------------------------
// Links
// ---------------------------------------------------------------------------

/// `s` without its trailing `/` characters (`str::trim_end_matches('/')`).
pub open spec fn trim_end_slashes(s: Seq<char>) -> Seq<char>
    decreases s.len(),
{
    if s.len() > 0 && s.last() == '/' {
        trim_end_slashes(s.drop_last())
    } else {
        s
    }
}

/// The link from a page of category `from` to the page of node `id` in category `to`:
/// relative when `base` is empty, else absolute under `base`.
pub open spec fn relative_link_spec(base: Seq<char>, from: Seq<char>, to: Seq<char>, id: Seq<char>) -> Seq<char> {
    if base.len() == 0 {
        if from == to {
            id + HTML_EXT@
        } else {
            PARENT_DIR@ + to + SLASH@ + id + HTML_EXT@
        }
    } else {
        trim_end_slashes(base) + SLASH@ + to + SLASH@ + id + HTML_EXT@
    }
}

/// The link from a page of category `from` to the root index page.
pub open spec fn root_index_link_spec(base: Seq<char>, from: Seq<char>) -> Seq<char> {
    if base.len() == 0 {
        if from == INDEX_CATEGORY@ {
            INDEX_PAGE@
        } else {
            PARENT_INDEX_PAGE@
        }
    } else {
        trim_end_slashes(base) + SLASH_INDEX_PAGE@
    }
}

fn without_trailing_slashes(s: &str) -> (r: String)
    ensures
        r@ == trim_end_slashes(s@),
{
    let v = chars_of(s);
    let mut n: usize = v.len();
    assert(v@.take(n as int) =~= v@);
    while n > 0 && v[n - 1] == '/'
        invariant
            n <= v@.len(),
            trim_end_slashes(s@) == trim_end_slashes(v@.take(n as int)),
            v@ == s@,
        decreases n,
    {
        assert(v@.take(n as int).drop_last() =~= v@.take(n - 1));
        n = n - 1;
    }
    assert(v@.subrange(0, n as int) =~= v@.take(n as int));
    string_of(vstd::slice::slice_subrange(v.as_slice(), 0, n))
}

/// Builds the link from a page of category `from_category` to the page of `to_id` in
/// `to_category`: `id.html` within a category, `../cat/id.html` across categories, or
/// `base/cat/id.html` under a non-empty `base_url` (its trailing `/` removed).
pub fn relative_link(base_url: &str, from_category: &str, to_category: &str, to_id: &str) -> (r: String)
    ensures
        r@ == relative_link_spec(base_url@, from_category@, to_category@, to_id@),
{
    if base_url.is_empty() {
        if crate::text::str_eq(from_category, to_category) {
            let mut r = String::from_str(to_id);
            r.append(HTML_EXT);
            r
        } else {
            let mut r = String::from_str(PARENT_DIR);
            r.append(to_category);
            r.append(SLASH);
            r.append(to_id);
            r.append(HTML_EXT);
            r
        }
    } else {
        let mut r = without_trailing_slashes(base_url);
        r.append(SLASH);
        r.append(to_category);
        r.append(SLASH);
        r.append(to_id);
        r.append(HTML_EXT);
        r
    }
}

/// Builds the link from a page of category `from_category` to the root index page.
pub fn root_index_link(base_url: &str, from_category: &str) -> (r: String)
    ensures
        r@ == root_index_link_spec(base_url@, from_category@),
{
    if base_url.is_empty() {
        if crate::text::str_eq(from_category, INDEX_CATEGORY) {
            String::from_str(INDEX_PAGE)
        } else {
            String::from_str(PARENT_INDEX_PAGE)
        }
    } else {
        let mut r = without_trailing_slashes(base_url);
        r.append(SLASH_INDEX_PAGE);
        r
    }
}

// ---------------------------------------------------------------------------
// References between bodies
// ---------------------------------------------------------------------------

/// The `[edge:` marker.
pub open spec fn edge_marker() -> Seq<char> {
    seq!['[', 'e', 'd', 'g', 'e', ':']
}

/// The reference `[edge:<id>]`.
pub open spec fn edge_ref(id: Seq<char>) -> Seq<char> {
    edge_marker() + id + close_bracket()
}

fn edge_marker_chars() -> (v: Vec<char>)
    ensures
        v@ == edge_marker(),
{
    let v = vec!['[', 'e', 'd', 'g', 'e', ':'];
    assert(v@ =~= edge_marker());
    v
}

/// Whether `body` contains the reference `[edge:<target_id>]`.
pub fn body_refs_node(body: &str, target_id: &str) -> (r: bool)
    ensures
        r == contains(body@, edge_ref(target_id@)),
{
    let mut pat = edge_marker_chars();
    let id = chars_of(target_id);
    let mut i: usize = 0;
    while i < id.len()
        invariant
            i <= id@.len(),
            pat@ == edge_marker() + id@.take(i as int),
        decreases id.len() - i,
    {
        pat.push(id[i]);
        assert(id@.take(i + 1) =~= id@.take(i as int).push(id@[i as int]));
        assert(pat@ =~= edge_marker() + id@.take(i + 1));
        i = i + 1;
    }
    pat.push(']');
    assert(id@.take(id@.len() as int) =~= id@);
    assert(pat@ =~= edge_ref(target_id@));
    let b = chars_of(body);
    find_chars(&b, &pat, 0).is_some()
}

/// A body that is a single reference `[edge:<other>]` refers to node `id` exactly when
/// `other` is `id`: the reference must close right after the id, so a reference to an
/// id that merely starts with `id` (such as `req-10` for `req-1`) does not count.
pub proof fn lemma_reference_names_exactly_its_id(id: Seq<char>, other: Seq<char>)
    requires
        !id.contains('['),
        !id.contains(']'),
        !other.contains('['),
        !other.contains(']'),
    ensures
        contains(seq!['[', 'e', 'd', 'g', 'e', ':'] + other + seq![']'], edge_ref(id)) <==> other == id,
{
    let b = seq!['[', 'e', 'd', 'g', 'e', ':'] + other + seq![']'];
    let pat = edge_ref(id);
    assert(pat =~= seq!['[', 'e', 'd', 'g', 'e', ':'] + id + seq![']']);
    if other == id {
        assert(b.subrange(0, pat.len() as int) =~= pat);
        assert(matches_at(b, pat, 0));
    }
    if contains(b, pat) {
        lemma_find_from_bounds(b, pat, 0);
        let j = find_from(b, pat, 0)->0;
        assert(matches_at(b, pat, j));
        assert(b.subrange(j, j + pat.len())[0] == pat[0]);
        assert(b[j] == '[');
        if j != 0 {
            if 1 <= j < 6 {
            } else if j < 6 + other.len() {
                assert(other[j - 6] == b[j]);
                assert(other.contains(other[j - 6]));
            } else {
            }
            assert(false);
        }
        let close: int = 6int + id.len();
        assert(b.subrange(0, pat.len() as int)[close] == pat[close]);
        assert(b[close] == ']');
        if close < 6 + other.len() {
            assert(other[close - 6] == b[close]);
            assert(other.contains(other[close - 6]));
        }
        assert(close == 6 + other.len());
        assert forall|k: int| 0 <= k < id.len() implies id[k] == other[k] by {
            assert(b.subrange(0, pat.len() as int)[6 + k] == pat[6 + k]);
            assert(pat[6 + k] == id[k]);
            assert(b[6 + k] == other[k]);
        }
        assert(id =~= other);
    }
}

// ---------------------------------------------------------------------------
// Numbering
// ---------------------------------------------------------------------------

/// Per-category sequential numbers of nodes: `(category, node id, number)` entries; a
/// later entry for the same category and id replaces an earlier one.
#[derive(Debug)]
pub struct NodeNumbering {
    entries: Vec<(String, String, usize)>,
}

impl View for NodeNumbering {
    type V = Seq<(Seq<char>, Seq<char>, usize)>;

    closed spec fn view(&self) -> Self::V {
        self.entries@.map_values(|e: (String, String, usize)| (e.0@, e.1@, e.2))
    }
}

/// The number of `id` in `category` among the first `k` entries: the last one given.
pub open spec fn number_upto(s: Seq<(Seq<char>, Seq<char>, usize)>, category: Seq<char>, id: Seq<char>, k: int) -> Option<usize>
    decreases k,
{
    if k <= 0 || k > s.len() {
        None
    } else if s[k - 1].0 == category && s[k - 1].1 == id {
        Some(s[k - 1].2)
    } else {
        number_upto(s, category, id, k - 1)
    }
}

/// The number of `id` in `category`.
pub open spec fn number_of(s: Seq<(Seq<char>, Seq<char>, usize)>, category: Seq<char>, id: Seq<char>) -> Option<usize> {
    number_upto(s, category, id, s.len() as int)
}

impl NodeNumbering {
    /// An empty numbering.
    pub fn new() -> (n: Self)
        ensures
            n@ == Seq::<(Seq<char>, Seq<char>, usize)>::empty(),
    {
        let n = NodeNumbering { entries: Vec::new() };
        assert(n@ =~= Seq::<(Seq<char>, Seq<char>, usize)>::empty());
        n
    }

    /// Gives `id` in `category` the number `number`.
    pub fn insert(&mut self, category: String, id: String, number: usize)
        ensures
            final(self)@ == old(self)@.push((category@, id@, number)),
    {
        let ghost e = (category@, id@, number);
        self.entries.push((category, id, number));
        assert(self@ =~= old(self)@.push(e));
    }

    /// The number of `id` in `category`.
    pub fn get(&self, category: &str, id: &str) -> (r: Option<usize>)
        ensures
            r == number_of(self@, category@, id@),
    {
        let mut k: usize = self.entries.len();
        while k > 0
            invariant
                k <= self.entries@.len(),
                self@.len() == self.entries@.len(),
                number_of(self@, category@, id@) == number_upto(self@, category@, id@, k as int),
            decreases k,
        {
            let e = &self.entries[k - 1];
            assert(self@[k - 1] == (e.0@, e.1@, e.2));
            if crate::text::str_eq(e.0.as_str(), category) && crate::text::str_eq(e.1.as_str(), id) {
                return Some(e.2);
            }
            k = k - 1;
        }
        None
    }
}

/// How many of the first `k` nodes are in `category` with an id before `id`.
pub open spec fn count_before(ns: Seq<NodeView>, category: Seq<char>, id: Seq<char>, k: int) -> nat
    decreases k,
{
    if k <= 0 || k > ns.len() {
        0
    } else {
        count_before(ns, category, id, k - 1) + if ns[k - 1].category == category && str_less(ns[k - 1].id, id) {
            1nat
        } else {
            0nat
        }
    }
}

/// How many of the first `k` nodes are in `category`.
pub open spec fn count_in_category(ns: Seq<NodeView>, category: Seq<char>, k: int) -> nat
    decreases k,
{
    if k <= 0 || k > ns.len() {
        0
    } else {
        count_in_category(ns, category, k - 1) + if ns[k - 1].category == category {
            1nat
        } else {
            0nat
        }
    }
}

/// The number of a node: its position, from 1, among the nodes of its category ordered
/// by id.
pub open spec fn rank(ns: Seq<NodeView>, n: NodeView) -> nat {
    count_before(ns, n.category, n.id, ns.len() as int) + 1
}

/// The numbering of a list of nodes: one entry per node, in order.
pub open spec fn numbering_of(ns: Seq<NodeView>) -> Seq<(Seq<char>, Seq<char>, usize)> {
    ns.map_values(|n: NodeView| (n.category, n.id, rank(ns, n) as usize))
}

proof fn lemma_count_before_bound(ns: Seq<NodeView>, i: int, k: int)
    requires
        0 <= i < ns.len(),
        0 <= k <= ns.len(),
    ensures
        count_before(ns, ns[i].category, ns[i].id, k) + (if i < k { 1int } else { 0int })
            <= count_in_category(ns, ns[i].category, k),
    decreases k,
{
    if k > 0 {
        lemma_count_before_bound(ns, i, k - 1);
        if k - 1 == i {
            lemma_str_less_irreflexive(ns[i].id);
        }
    }
}

proof fn lemma_count_in_category_bound(ns: Seq<NodeView>, c: Seq<char>, k: int)
    requires
        0 <= k <= ns.len(),
    ensures
        count_in_category(ns, c, k) <= k,
    decreases k,
{
    if k > 0 {
        lemma_count_in_category_bound(ns, c, k - 1);
    }
}

proof fn lemma_count_before_grows(ns: Seq<NodeView>, a: int, b: int, k: int)
    requires
        0 <= a < ns.len(),
        0 <= b < ns.len(),
        0 <= k <= ns.len(),
        ns[a].category == ns[b].category,
        str_less(ns[a].id, ns[b].id),
    ensures
        count_before(ns, ns[b].category, ns[b].id, k) >= count_before(ns, ns[a].category, ns[a].id, k)
            + (if a < k { 1int } else { 0int }),
    decreases k,
{
    if k > 0 {
        lemma_count_before_grows(ns, a, b, k - 1);
        let m = ns[k - 1];
        if m.category == ns[a].category && str_less(m.id, ns[a].id) {
            lemma_str_less_transitive(m.id, ns[a].id, ns[b].id);
        }
        if k - 1 == a {
            lemma_str_less_irreflexive(ns[a].id);
        }
    }
}

/// Numbers within a category follow the order of ids: a node whose id comes first has
/// the smaller number.
pub proof fn lemma_numbering_follows_ids(ns: Seq<NodeView>, a: int, b: int)
    requires
        0 <= a < ns.len(),
        0 <= b < ns.len(),
        ns[a].category == ns[b].category,
        str_less(ns[a].id, ns[b].id),
    ensures
        rank(ns, ns[a]) < rank(ns, ns[b]),
{
    lemma_count_before_grows(ns, a, b, ns.len() as int);
}

/// Two different nodes of one category never share a number.
pub proof fn lemma_numbering_distinct(ns: Seq<NodeView>, a: int, b: int)
    requires
        distinct_ids(ns),
        0 <= a < ns.len(),
        0 <= b < ns.len(),
        a != b,
        ns[a].category == ns[b].category,
    ensures
        rank(ns, ns[a]) != rank(ns, ns[b]),
{
    lemma_str_less_total(ns[a].id, ns[b].id);
    if str_less(ns[a].id, ns[b].id) {
        lemma_numbering_follows_ids(ns, a, b);
    } else {
        lemma_numbering_follows_ids(ns, b, a);
    }
}

/// Numbers run from 1 to the number of nodes in the category.
pub proof fn lemma_numbering_range(ns: Seq<NodeView>, i: int)
    requires
        0 <= i < ns.len(),
    ensures
        1 <= rank(ns, ns[i]) <= count_in_category(ns, ns[i].category, ns.len() as int),
        rank(ns, ns[i]) <= ns.len(),
{
    lemma_count_before_bound(ns, i, ns.len() as int);
    lemma_count_in_category_bound(ns, ns[i].category, ns.len() as int);
}

/// In the numbering of a graph, each node's number is its rank.
pub proof fn lemma_numbering_lookup(ns: Seq<NodeView>, i: int)
    requires
        distinct_ids(ns),
        0 <= i < ns.len(),
    ensures
        number_of(numbering_of(ns), ns[i].category, ns[i].id) == Some(rank(ns, ns[i]) as usize),
{
    lemma_number_upto_skip(ns, i, ns.len() as int);
}

proof fn lemma_number_upto_skip(ns: Seq<NodeView>, i: int, k: int)
    requires
        distinct_ids(ns),
        0 <= i < ns.len(),
        i < k <= ns.len(),
    ensures
        number_upto(numbering_of(ns), ns[i].category, ns[i].id, k) == number_upto(
            numbering_of(ns),
            ns[i].category,
            ns[i].id,
            i + 1,
        ),
    decreases k,
{
    if k > i + 1 {
        assert(ns[k - 1].id != ns[i].id);
        lemma_number_upto_skip(ns, i, k - 1);
    }
}

/// Numbers the nodes of each category from 1, in the order of their ids.
pub fn compute_node_numbering(graph: &Graph) -> (r: NodeNumbering)
    ensures
        r@ == numbering_of(graph.nodes@),
{
    let nodes = graph.nodes.values();
    let ghost ns = graph.nodes@;
    assert(nodes@.map_values(|n: Node| n@) == ns);
    let mut out = NodeNumbering::new();
    let mut i: usize = 0;
    while i < nodes.len()
        invariant
            i <= nodes@.len(),
            ns == nodes@.map_values(|n: Node| n@),
            ns == graph.nodes@,
            out@ == numbering_of(ns).take(i as int),
        decreases nodes.len() - i,
    {
        let n = &nodes[i];
        assert(ns[i as int] == n@);
        let mut count: usize = 0;
        let mut j: usize = 0;
        while j < nodes.len()
            invariant
                j <= nodes@.len(),
                i < nodes@.len(),
                ns == nodes@.map_values(|n: Node| n@),
                ns[i as int] == n@,
                count == count_before(ns, n.category@, n.id@, j as int),
                count + (if (i as int) < (j as int) { 1int } else { 0int }) <= j,
            decreases nodes.len() - j,
        {
            let m = &nodes[j];
            assert(ns[j as int] == m@);
            proof {
                lemma_count_before_bound(ns, i as int, j as int);
                lemma_count_before_bound(ns, i as int, j + 1);
                lemma_count_in_category_bound(ns, n.category@, j as int);
                lemma_count_in_category_bound(ns, n.category@, j + 1);
            }
            if crate::text::str_eq(m.category.as_str(), n.category.as_str()) && str_lt(m.id.as_str(), n.id.as_str()) {
                count = count + 1;
            }
            j = j + 1;
        }
        proof {
            lemma_numbering_range(ns, i as int);
        }
        out.insert(n.category.clone(), n.id.clone(), count + 1);
        proof {
            assert(numbering_of(ns).take(i + 1) =~= numbering_of(ns).take(i as int).push(
                (n.category@, n.id@, (count + 1) as usize),
            ));
        }
        i = i + 1;
    }
    proof {
        assert(numbering_of(ns).take(ns.len() as int) =~= numbering_of(ns));
    }
    out
}

// ---------------------------------------------------------------------------
// Labels
// ---------------------------------------------------------------------------

/// The key of a category in the schema, or `??`.
pub open spec fn key_of(cats: Seq<(Seq<char>, Seq<char>)>, category: Seq<char>) -> Seq<char> {
    if has_key(cats, category) {
        value_of(cats, category)
    } else {
        UNKNOWN_KEY@
    }
}

/// The key-index label of a node, e.g. `SVC-3`: the category's key, a dash and the
/// node's number (0 when it has none).
pub open spec fn key_index(
    cats: Seq<(Seq<char>, Seq<char>)>,
    numbering: Seq<(Seq<char>, Seq<char>, usize)>,
    category: Seq<char>,
    id: Seq<char>,
) -> Seq<char> {
    key_of(cats, category) + DASH@ + decimal(
        match number_of(numbering, category, id) {
            Some(n) => n as nat,
            None => 0,
        },
    )
}

/// The display label of a node: its key-index, a space and its title.
pub open spec fn display_label(
    cats: Seq<(Seq<char>, Seq<char>)>,
    numbering: Seq<(Seq<char>, Seq<char>, usize)>,
    n: NodeView,
) -> Seq<char> {
    key_index(cats, numbering, n.category, n.id) + SPACE@ + title_of(n.body, n.id)
}

/// Builds the key-index label of `node_id` in `category`, e.g. `SVC-3`.
pub fn node_key_index(schema: &Schema, numbering: &NodeNumbering, category: &str, node_id: &str) -> (r: String)
    ensures
        r@ == key_index(schema.categories@, numbering@, category@, node_id@),
{
    let mut r = match schema.categories.get(category) {
        Some(k) => k.key.clone(),
        None => String::from_str(UNKNOWN_KEY),
    };
    let n: usize = match numbering.get(category, node_id) {
        Some(n) => n,
        None => 0,
    };
    r.append(DASH);
    let digits = decimal_string(n);
    r.append(digits.as_str());
    r
}

/// The title of a node: the text of the first heading of its body, or its id.
pub fn node_title(node: &Node) -> (r: String)
    ensures
        r@ == title_of(node.body@, node.id@),
{
    body_title(node.body.as_str(), node.id.as_str())
}

/// Builds the display label of a node: key-index, a space, title.
pub fn node_display_label(schema: &Schema, numbering: &NodeNumbering, node: &Node) -> (r: String)
    ensures
        r@ == display_label(schema.categories@, numbering@, node@),
{
    let mut r = node_key_index(schema, numbering, node.category.as_str(), node.id.as_str());
    r.append(SPACE);
    let title = node_title(node);
    r.append(title.as_str());
    r
}


// ---------------------------------------------------------------------------
// Edge references in HTML
// ---------------------------------------------------------------------------

pub const LINK_OPEN: &'static str = "<a href=\"";

pub const LINK_MID: &'static str = "\">";

pub const LINK_CLOSE: &'static str = "</a>";

pub const BROKEN_OPEN: &'static str = "<span class=\"broken-edge\">";

pub const BROKEN_CLOSE: &'static str = "?</span>";

/// What a reference to `id` becomes on a page of category `cur`: a link labelled with
/// the target's display label, or a marked broken reference.
pub open spec fn edge_link(
    ns: Seq<NodeView>,
    cats: Seq<(Seq<char>, Seq<char>)>,
    numbering: Seq<(Seq<char>, Seq<char>, usize)>,
    cur: Seq<char>,
    base: Seq<char>,
    id: Seq<char>,
) -> Seq<char> {
    if has_id(ns, id) {
        let t = node_with_id(ns, id);
        LINK_OPEN@ + relative_link_spec(base, cur, t.category, t.id) + LINK_MID@ + display_label(cats, numbering, t)
            + LINK_CLOSE@
    } else {
        BROKEN_OPEN@ + id + BROKEN_CLOSE@
    }
}

/// `s` from position `pos` on with each `[edge:<id>]` replaced by its link (the id
/// trimmed); a marker that no `]` follows is kept as it is.
pub open spec fn replace_refs_from(
    ns: Seq<NodeView>,
    cats: Seq<(Seq<char>, Seq<char>)>,
    numbering: Seq<(Seq<char>, Seq<char>, usize)>,
    s: Seq<char>,
    cur: Seq<char>,
    base: Seq<char>,
    pos: int,
) -> Seq<char>
    decreases s.len() + 1 - pos,
{
    if pos < 0 || pos > s.len() {
        seq![]
    } else {
        match find_from(s, edge_marker(), pos) {
            None => s.subrange(pos, s.len() as int),
            Some(start) => {
                let cs = start + 6;
                proof {
                    lemma_find_from_bounds(s, edge_marker(), pos);
                    lemma_find_from_bounds(s, close_bracket(), cs);
                }
                s.subrange(pos, start) + match find_from(s, close_bracket(), cs) {
                    Some(e) => edge_link(ns, cats, numbering, cur, base, trim(s.subrange(cs, e)))
                        + replace_refs_from(ns, cats, numbering, s, cur, base, e + 1),
                    None => edge_marker() + replace_refs_from(ns, cats, numbering, s, cur, base, cs),
                }
            },
        }
    }
}

/// `s` with each `[edge:<id>]` replaced by its link.
pub open spec fn replace_refs(
    ns: Seq<NodeView>,
    cats: Seq<(Seq<char>, Seq<char>)>,
    numbering: Seq<(Seq<char>, Seq<char>, usize)>,
    s: Seq<char>,
    cur: Seq<char>,
    base: Seq<char>,
) -> Seq<char> {
    replace_refs_from(ns, cats, numbering, s, cur, base, 0)
}

/// Text without an `[edge:` marker comes out of the replacement unchanged.
pub proof fn lemma_text_without_refs_unchanged(
    ns: Seq<NodeView>,
    cats: Seq<(Seq<char>, Seq<char>)>,
    numbering: Seq<(Seq<char>, Seq<char>, usize)>,
    s: Seq<char>,
    cur: Seq<char>,
    base: Seq<char>,
)
    requires
        find_from(s, edge_marker(), 0) is None,
    ensures
        replace_refs(ns, cats, numbering, s, cur, base) == s,
{
    assert(s.subrange(0, s.len() as int) =~= s);
}

fn edge_link_html(graph: &Graph, numbering: &NodeNumbering, current_category: &str, base_url: &str, id: &str) -> (r: String)
    ensures
        r@ == edge_link(graph.nodes@, graph.schema.categories@, numbering@, current_category@, base_url@, id@),
{
    match graph.nodes.get(id) {
        Some(t) => {
            let mut r = String::from_str(LINK_OPEN);
            let href = relative_link(base_url, current_category, t.category.as_str(), t.id.as_str());
            r.append(href.as_str());
            r.append(LINK_MID);
            let label = node_display_label(&graph.schema, numbering, t);
            r.append(label.as_str());
            r.append(LINK_CLOSE);
            r
        },
        None => {
            let mut r = String::from_str(BROKEN_OPEN);
            r.append(id);
            r.append(BROKEN_CLOSE);
            r
        },
    }
}

fn chars_text(v: &Vec<char>, a: usize, b: usize) -> (r: String)
    requires
        a <= b <= v@.len(),
    ensures
        r@ == v@.subrange(a as int, b as int),
{
    string_of(vstd::slice::slice_subrange(v.as_slice(), a, b))
}

/// Replaces each `[edge:<id>]` in `html` by a link to the target node (labelled with its
/// display label), or by a marked broken reference when no node has that id.
pub fn replace_edge_refs(graph: &Graph, html: &str, current_category: &str, numbering: &NodeNumbering, base_url: &str) -> (r: String)
    ensures
        r@ == replace_refs(graph.nodes@, graph.schema.categories@, numbering@, html@, current_category@, base_url@),
{
    let ghost ns = graph.nodes@;
    let ghost cats = graph.schema.categories@;
    let ghost nb = numbering@;
    let v = chars_of(html);
    let marker = edge_marker_chars();
    let close = vec![']'];
    assert(close@ =~= close_bracket());
    let mut result = String::new();
    let mut pos: usize = 0;
    loop
        invariant_except_break
            result@ + replace_refs_from(ns, cats, nb, v@, current_category@, base_url@, pos as int)
                == replace_refs(ns, cats, nb, html@, current_category@, base_url@),
        invariant
            v@ == html@,
            marker@ == edge_marker(),
            close@ == close_bracket(),
            pos <= v@.len(),
            ns == graph.nodes@,
            cats == graph.schema.categories@,
            nb == numbering@,
        ensures
            result@ == replace_refs(ns, cats, nb, html@, current_category@, base_url@),
        decreases v@.len() + 1 - pos,
    {
        let ghost before = result@;
        match find_chars(&v, &marker, pos) {
            None => {
                let tail = chars_text(&v, pos, v.len());
                result.append(tail.as_str());
                assert(result@ =~= before + replace_refs_from(ns, cats, nb, v@, current_category@, base_url@, pos as int));
                break;
            },
            Some(start) => {
                proof {
                    lemma_find_from_bounds(v@, marker@, pos as int);
                    assert(start + marker@.len() <= v@.len());
                }
                let head = chars_text(&v, pos, start);
                result.append(head.as_str());
                let cs = start + 6;
                match find_chars(&v, &close, cs) {
                    Some(e) => {
                        proof {
                            lemma_find_from_bounds(v@, close@, cs as int);
                        }
                        let piece = vstd::slice::slice_to_vec(vstd::slice::slice_subrange(v.as_slice(), cs, e));
                        let (a, b) = trim_bounds(&piece);
                        let id = chars_text(&piece, a, b);
                        let link = edge_link_html(graph, numbering, current_category, base_url, id.as_str());
                        result.append(link.as_str());
                        proof {
                            assert(result@ + replace_refs_from(ns, cats, nb, v@, current_category@, base_url@, e + 1)
                                =~= before + replace_refs_from(ns, cats, nb, v@, current_category@, base_url@, pos as int));
                        }
                        pos = e + 1;
                    },
                    None => {
                        let m = string_of(marker.as_slice());
                        result.append(m.as_str());
                        proof {
                            assert(result@ + replace_refs_from(ns, cats, nb, v@, current_category@, base_url@, cs as int)
                                =~= before + replace_refs_from(ns, cats, nb, v@, current_category@, base_url@, pos as int));
                        }
                        pos = cs;
                    },
                }
            },
        }
    }
    result
}

// ---------------------------------------------------------------------------
// Backlinks
// ---------------------------------------------------------------------------

pub const BACKLINKS_OPEN: &'static str = "<div class=\"backlinks\"><h3>Referenced by</h3><ul>";

pub const BACKLINKS_CLOSE: &'static str = "</ul></div>";

pub const ITEM_OPEN: &'static str = "<li><a href=\"";

pub const ITEM_CLOSE: &'static str = "</a></li>";

pub const NEWLINE: &'static str = "\n";

/// The first `k` nodes, other than `id` itself, whose body refers to `id`.
pub open spec fn referrers_upto(ns: Seq<NodeView>, id: Seq<char>, k: int) -> Seq<NodeView>
    decreases k,
{
    if k <= 0 || k > ns.len() {
        seq![]
    } else {
        referrers_upto(ns, id, k - 1) + if ns[k - 1].id != id && contains(ns[k - 1].body, edge_ref(id)) {
            seq![ns[k - 1]]
        } else {
            seq![]
        }
    }
}

/// The nodes, other than `id` itself, whose body refers to `id`, in graph order.
pub open spec fn referrers(ns: Seq<NodeView>, id: Seq<char>) -> Seq<NodeView> {
    referrers_upto(ns, id, ns.len() as int)
}

/// Lines joined by `'\n'`.
pub open spec fn join_lines(items: Seq<Seq<char>>) -> Seq<char>
    decreases items.len(),
{
    if items.len() == 0 {
        seq![]
    } else if items.len() == 1 {
        items[0]
    } else {
        join_lines(items.drop_last()) + NEWLINE@ + items.last()
    }
}

/// A list item linking to node `m` from a page of category `cur`.
pub open spec fn link_item(
    cats: Seq<(Seq<char>, Seq<char>)>,
    numbering: Seq<(Seq<char>, Seq<char>, usize)>,
    cur: Seq<char>,
    base: Seq<char>,
    m: NodeView,
) -> Seq<char> {
    ITEM_OPEN@ + relative_link_spec(base, cur, m.category, m.id) + LINK_MID@ + display_label(cats, numbering, m) + ITEM_CLOSE@
}

/// The backlinks section of the page of `id`: empty when no other node refers to it.
pub open spec fn backlinks_html(
    ns: Seq<NodeView>,
    cats: Seq<(Seq<char>, Seq<char>)>,
    numbering: Seq<(Seq<char>, Seq<char>, usize)>,
    id: Seq<char>,
    cur: Seq<char>,
    base: Seq<char>,
) -> Seq<char> {
    let rs = referrers(ns, id);
    if rs.len() == 0 {
        seq![]
    } else {
        BACKLINKS_OPEN@ + join_lines(rs.map_values(|m: NodeView| link_item(cats, numbering, cur, base, m)))
            + BACKLINKS_CLOSE@
    }
}

/// Joins lines with `'\n'`.
pub fn join_with_newlines(items: &Vec<String>) -> (r: String)
    ensures
        r@ == join_lines(strs(items@)),
{
    let mut r = String::new();
    let mut i: usize = 0;
    while i < items.len()
        invariant
            i <= items@.len(),
            r@ == join_lines(strs(items@.take(i as int))),
        decreases items.len() - i,
    {
        let ghost prev = strs(items@.take(i as int));
        let ghost next = strs(items@.take(i + 1));
        assert(next.drop_last() =~= prev);
        assert(next.last() == items@[i as int]@);
        if i > 0 {
            r.append(NEWLINE);
        } else {
            assert(r@ =~= Seq::<char>::empty());
        }
        r.append(items[i].as_str());
        proof {
            if i == 0 {
                assert(r@ =~= next[0]);
            }
        }
        i = i + 1;
    }
    assert(items@.take(items@.len() as int) =~= items@);
    r
}

fn link_item_html(schema: &Schema, numbering: &NodeNumbering, current_category: &str, base_url: &str, m: &Node) -> (r: String)
    ensures
        r@ == link_item(schema.categories@, numbering@, current_category@, base_url@, m@),
{
    let mut r = String::from_str(ITEM_OPEN);
    let href = relative_link(base_url, current_category, m.category.as_str(), m.id.as_str());
    r.append(href.as_str());
    r.append(LINK_MID);
    let label = node_display_label(schema, numbering, m);
    r.append(label.as_str());
    r.append(ITEM_CLOSE);
    r
}

/// Builds the backlinks section of the page of `node_id`: a list of links to the other
/// nodes whose body refers to it, or nothing when there are none.
pub fn render_backlinks(graph: &Graph, node_id: &str, current_category: &str, numbering: &NodeNumbering, base_url: &str) -> (r: String)
    ensures
        r@ == backlinks_html(graph.nodes@, graph.schema.categories@, numbering@, node_id@, current_category@, base_url@),
{
    let nodes = graph.nodes.values();
    let ghost ns = graph.nodes@;
    let ghost cats = graph.schema.categories@;
    let mut items: Vec<String> = Vec::new();
    let ghost mut count: int = 0;
    let mut i: usize = 0;
    while i < nodes.len()
        invariant
            i <= nodes@.len(),
            ns == nodes@.map_values(|n: Node| n@),
            ns == graph.nodes@,
            cats == graph.schema.categories@,
            strs(items@) == referrers_upto(ns, node_id@, i as int).map_values(
                |m: NodeView| link_item(cats, numbering@, current_category@, base_url@, m),
            ),
        decreases nodes.len() - i,
    {
        let n = &nodes[i];
        assert(ns[i as int] == n@);
        let ghost before = strs(items@);
        if !crate::text::str_eq(n.id.as_str(), node_id) && body_refs_node(n.body.as_str(), node_id) {
            let item = link_item_html(&graph.schema, numbering, current_category, base_url, n);
            items.push(item);
            proof {
                assert(strs(items@) =~= before.push(link_item(cats, numbering@, current_category@, base_url@, n@)));
                assert(referrers_upto(ns, node_id@, i + 1) =~= referrers_upto(ns, node_id@, i as int).push(n@));
                assert(referrers_upto(ns, node_id@, i + 1).map_values(
                    |m: NodeView| link_item(cats, numbering@, current_category@, base_url@, m),
                ) =~= strs(items@));
            }
        } else {
            proof {
                assert(referrers_upto(ns, node_id@, i + 1) =~= referrers_upto(ns, node_id@, i as int));
            }
        }
        i = i + 1;
    }
    if items.len() == 0 {
        return String::new();
    }
    let mut r = String::from_str(BACKLINKS_OPEN);
    let joined = join_with_newlines(&items);
    r.append(joined.as_str());
    r.append(BACKLINKS_CLOSE);
    r
}

// ---------------------------------------------------------------------------
// Node pages
// ---------------------------------------------------------------------------

pub const PAGE_HEAD: &'static str = "<!DOCTYPE html>\n<html lang=\"en\">\n<head><meta charset=\"utf-8\"><title>";

pub const PAGE_TITLE_END: &'static str = " — graphite</title>\n<style>\n";

pub const PAGE_STYLE_END: &'static str = "\n</style>\n</head>\n<body>\n<p class=\"brand\">Graphite</p>\n<p class=\"node-meta\"><strong>";

pub const PAGE_LABEL_END: &'static str = "</strong> · <a href=\"";

pub const PAGE_META_END: &'static str = "\">↑ index</a></p>\n";

pub const PAGE_END: &'static str = "\n</body>\n</html>";

/// The page of node `n` whose rendered body is `body_html`: its display label as title
/// and heading line, a link to the root index, the body with its edge references
/// replaced, and its backlinks.
pub open spec fn node_page(
    ns: Seq<NodeView>,
    cats: Seq<(Seq<char>, Seq<char>)>,
    numbering: Seq<(Seq<char>, Seq<char>, usize)>,
    n: NodeView,
    css: Seq<char>,
    base: Seq<char>,
    body_html: Seq<char>,
) -> Seq<char> {
    let label = display_label(cats, numbering, n);
    PAGE_HEAD@ + label + PAGE_TITLE_END@ + css + PAGE_STYLE_END@ + label + PAGE_LABEL_END@
        + root_index_link_spec(base, n.category) + PAGE_META_END@ + replace_refs(ns, cats, numbering, body_html, n.category, base)
        + NEWLINE@ + backlinks_html(ns, cats, numbering, n.id, n.category, base) + PAGE_END@
}

/// Builds the page of `node` around its rendered body `body_html`.
pub fn render_node_page_with_body(
    graph: &Graph,
    numbering: &NodeNumbering,
    node: &Node,
    css: &str,
    base_url: &str,
    body_html: &str,
) -> (r: String)
    ensures
        r@ == node_page(graph.nodes@, graph.schema.categories@, numbering@, node@, css@, base_url@, body_html@),
{
    let category = node.category.as_str();
    let body_with_links = replace_edge_refs(graph, body_html, category, numbering, base_url);
    let backlinks = render_backlinks(graph, node.id.as_str(), category, numbering, base_url);
    let toc_link = root_index_link(base_url, category);
    let label = node_display_label(&graph.schema, numbering, node);
    let mut r = String::from_str(PAGE_HEAD);
    r.append(label.as_str());
    r.append(PAGE_TITLE_END);
    r.append(css);
    r.append(PAGE_STYLE_END);
    r.append(label.as_str());
    r.append(PAGE_LABEL_END);
    r.append(toc_link.as_str());
    r.append(PAGE_META_END);
    r.append(body_with_links.as_str());
    r.append(NEWLINE);
    r.append(backlinks.as_str());
    r.append(PAGE_END);
    r
}

/// The HTML of a node's body on its page: headings from level 1 down, the first one
/// prefixed with the node's key-index.
pub open spec fn node_body_html(ns: Seq<NodeView>, categories: Seq<(Seq<char>, Seq<char>)>, n: NodeView) -> Seq<char> {
    body_html(n.body, 1, Some(key_index(categories, numbering_of(ns), n.category, n.id)))
}

/// Renders the page of `node`: its body is rendered from Markdown (headings at level 1
/// and down, the first one prefixed with the node's key-index), then laid out by
/// [`render_node_page_with_body`]. The repository URL is not used.
pub fn render_node_page(graph: &Graph, node: &Node, repo_url: Option<&str>, css: &str, base_url: &str) -> (r: String)
    ensures
        r@ == node_page(
            graph.nodes@,
            graph.schema.categories@,
            numbering_of(graph.nodes@),
            node@,
            css@,
            base_url@,
            node_body_html(graph.nodes@, graph.schema.categories@, node@),
        ),
{
    let numbering = compute_node_numbering(graph);
    let key_index = node_key_index(&graph.schema, &numbering, node.category.as_str(), node.id.as_str());
    let body_html = render_body_html(node.body.as_str(), 1, Some(key_index.as_str()));
    render_node_page_with_body(graph, &numbering, node, css, base_url, body_html.as_str())
}

/// The rendered page of one node.
pub struct RenderedNode {
    pub id: String,
    pub category: String,
    pub html: String,
}

/// The rendered pages of a graph.
pub struct RenderedGraph {
    pub pages: Vec<RenderedNode>,
}

/// Renders the page of every node, in graph order.
pub fn render_graph(graph: &Graph, repo_url: Option<&str>, css: &str, base_url: &str) -> (r: Result<RenderedGraph, Diagnostic>)
    ensures
        r matches Ok(g) && g.pages@.len() == graph.nodes@.len() && forall|i: int|
            0 <= i < g.pages@.len() ==> {
                let p = #[trigger] g.pages@[i];
                let n = graph.nodes@[i];
                &&& p.id@ == n.id
                &&& p.category@ == n.category
                &&& p.html@ == node_page(
                    graph.nodes@,
                    graph.schema.categories@,
                    numbering_of(graph.nodes@),
                    n,
                    css@,
                    base_url@,
                    node_body_html(graph.nodes@, graph.schema.categories@, n),
                )
            },
{
    let nodes = graph.nodes.values();
    let ghost ns = graph.nodes@;
    let mut pages: Vec<RenderedNode> = Vec::new();
    let mut i: usize = 0;
    while i < nodes.len()
        invariant
            i <= nodes@.len(),
            ns == nodes@.map_values(|n: Node| n@),
            ns == graph.nodes@,
            pages@.len() == i,
            forall|k: int|
                0 <= k < i ==> {
                    let p = #[trigger] pages@[k];
                    let n = ns[k];
                    &&& p.id@ == n.id
                    &&& p.category@ == n.category
                    &&& p.html@ == node_page(
                        ns,
                        graph.schema.categories@,
                        numbering_of(ns),
                        n,
                        css@,
                        base_url@,
                        node_body_html(ns, graph.schema.categories@, n),
                    )
                },
        decreases nodes.len() - i,
    {
        let n = &nodes[i];
        assert(ns[i as int] == n@);
        let html = render_node_page(graph, n, repo_url, css, base_url);
        pages.push(RenderedNode { id: n.id.clone(), category: n.category.clone(), html });
        i = i + 1;
    }
    Ok(RenderedGraph { pages })
}


// ---------------------------------------------------------------------------
// Root index
// ---------------------------------------------------------------------------

pub const INDEX_HEAD: &'static str = "<!DOCTYPE html>\n<html lang=\"en\">\n<head><meta charset=\"utf-8\"><title>Table of Contents — graphite</title>\n<style>\n";

pub const INDEX_STYLE_END: &'static str = "\n</style>\n</head>\n<body>\n<p class=\"brand\">Graphite</p>\n<h1>Table of Contents</h1>\n\n";

pub const BLANK_LINE: &'static str = "\n\n";

pub const INDEX_END: &'static str = "\n\n</body>\n</html>";

pub const SECTION_OPEN: &'static str = "<h2>";

pub const SECTION_KEY_OPEN: &'static str = " (";

pub const SECTION_KEY_CLOSE: &'static str = ")</h2><ul>";

pub const SECTION_CLOSE: &'static str = "</ul>";

/// The categories that the nodes have.
pub open spec fn categories_of(ns: Seq<NodeView>) -> Set<Seq<char>> {
    ns.map_values(|n: NodeView| n.category).to_set()
}

/// The ids of the first `k` nodes that are in `category`, in order.
pub open spec fn ids_upto(ns: Seq<NodeView>, category: Seq<char>, k: int) -> Seq<Seq<char>>
    decreases k,
{
    if k <= 0 || k > ns.len() {
        seq![]
    } else {
        ids_upto(ns, category, k - 1) + if ns[k - 1].category == category {
            seq![ns[k - 1].id]
        } else {
            seq![]
        }
    }
}

/// The ids of the nodes in `category`.
pub open spec fn ids_in(ns: Seq<NodeView>, category: Seq<char>) -> Set<Seq<char>> {
    ids_upto(ns, category, ns.len() as int).to_set()
}

/// The root index entry for node `id` of `category`.
pub open spec fn index_item(
    ns: Seq<NodeView>,
    cats: Seq<(Seq<char>, Seq<char>)>,
    numbering: Seq<(Seq<char>, Seq<char>, usize)>,
    base: Seq<char>,
    category: Seq<char>,
    id: Seq<char>,
) -> Seq<char> {
    ITEM_OPEN@ + relative_link_spec(base, INDEX_CATEGORY@, category, id) + LINK_MID@ + display_label(
        cats,
        numbering,
        node_with_id(ns, id),
    ) + ITEM_CLOSE@
}

/// The root index section of a category: its name and key, then its nodes in the order
/// of their ids.
pub open spec fn category_section(
    ns: Seq<NodeView>,
    cats: Seq<(Seq<char>, Seq<char>)>,
    numbering: Seq<(Seq<char>, Seq<char>, usize)>,
    base: Seq<char>,
    category: Seq<char>,
) -> Seq<char> {
    SECTION_OPEN@ + category + SECTION_KEY_OPEN@ + key_of(cats, category) + SECTION_KEY_CLOSE@ + join_lines(
        sorted_set(ids_in(ns, category)).map_values(|id: Seq<char>| index_item(ns, cats, numbering, base, category, id)),
    ) + SECTION_CLOSE@
}

/// The texts concatenated.
pub open spec fn concat_all(parts: Seq<Seq<char>>) -> Seq<char>
    decreases parts.len(),
{
    if parts.len() == 0 {
        seq![]
    } else {
        concat_all(parts.drop_last()) + parts.last()
    }
}

/// The sections of all categories, in the order of their names.
pub open spec fn toc_sections(
    ns: Seq<NodeView>,
    cats: Seq<(Seq<char>, Seq<char>)>,
    numbering: Seq<(Seq<char>, Seq<char>, usize)>,
    base: Seq<char>,
) -> Seq<char> {
    concat_all(sorted_set(categories_of(ns)).map_values(|c: Seq<char>| category_section(ns, cats, numbering, base, c)))
}

/// The root index page: the sections of all categories, then `root_body`.
pub open spec fn root_index_page(
    ns: Seq<NodeView>,
    cats: Seq<(Seq<char>, Seq<char>)>,
    numbering: Seq<(Seq<char>, Seq<char>, usize)>,
    css: Seq<char>,
    base: Seq<char>,
    root_body: Seq<char>,
) -> Seq<char> {
    INDEX_HEAD@ + css + INDEX_STYLE_END@ + toc_sections(ns, cats, numbering, base) + BLANK_LINE@ + root_body + INDEX_END@
}

proof fn lemma_ids_upto_has_id(ns: Seq<NodeView>, category: Seq<char>, k: int, id: Seq<char>)
    requires
        0 <= k <= ns.len(),
        ids_upto(ns, category, k).contains(id),
    ensures
        has_id(ns, id),
    decreases k,
{
    if k > 0 {
        let prev = ids_upto(ns, category, k - 1);
        if prev.contains(id) {
            lemma_ids_upto_has_id(ns, category, k - 1, id);
        } else {
            let j = choose|j: int| 0 <= j < ids_upto(ns, category, k).len() && ids_upto(ns, category, k)[j] == id;
            assert(j >= prev.len());
            assert(ns[k - 1].id == id);
        }
    }
}

fn category_section_html(
    graph: &Graph,
    schema: &Schema,
    numbering: &NodeNumbering,
    base_url: &str,
    category: &str,
) -> (r: String)
    ensures
        r@ == category_section(graph.nodes@, schema.categories@, numbering@, base_url@, category@),
{
    let nodes = graph.nodes.values();
    let ghost ns = graph.nodes@;
    let mut ids: Vec<String> = Vec::new();
    let mut i: usize = 0;
    while i < nodes.len()
        invariant
            i <= nodes@.len(),
            ns == nodes@.map_values(|n: Node| n@),
            ns == graph.nodes@,
            strs(ids@) == ids_upto(ns, category@, i as int),
        decreases nodes.len() - i,
    {
        let n = &nodes[i];
        assert(ns[i as int] == n@);
        let ghost before = strs(ids@);
        if crate::text::str_eq(n.category.as_str(), category) {
            ids.push(n.id.clone());
            assert(strs(ids@) =~= before.push(n.id@));
        }
        assert(strs(ids@) =~= ids_upto(ns, category@, i + 1));
        i = i + 1;
    }
    let sorted = sort_distinct(&ids);
    let ghost sv = strs(sorted@);
    let mut items: Vec<String> = Vec::new();
    let mut k: usize = 0;
    while k < sorted.len()
        invariant
            k <= sorted@.len(),
            ns == graph.nodes@,
            sv == strs(sorted@),
            sv.to_set() == ids_in(ns, category@),
            strs(items@) == sv.take(k as int).map_values(
                |id: Seq<char>| index_item(ns, schema.categories@, numbering@, base_url@, category@, id),
            ),
        decreases sorted.len() - k,
    {
        let id = &sorted[k];
        proof {
            assert(sv[k as int] == id@);
            assert(sv.to_set().contains(id@));
            lemma_ids_upto_has_id(ns, category@, ns.len() as int, id@);
        }
        let node = graph.nodes.get(id.as_str()).unwrap();
        let mut item = String::from_str(ITEM_OPEN);
        let href = relative_link(base_url, INDEX_CATEGORY, category, id.as_str());
        item.append(href.as_str());
        item.append(LINK_MID);
        let label = node_display_label(schema, numbering, node);
        item.append(label.as_str());
        item.append(ITEM_CLOSE);
        let ghost before = strs(items@);
        items.push(item);
        proof {
            assert(strs(items@) =~= before.push(index_item(ns, schema.categories@, numbering@, base_url@, category@, id@)));
            assert(sv.take(k + 1) =~= sv.take(k as int).push(id@));
            assert(strs(items@) =~= sv.take(k + 1).map_values(
                |id: Seq<char>| index_item(ns, schema.categories@, numbering@, base_url@, category@, id),
            ));
        }
        k = k + 1;
    }
    assert(sv.take(sv.len() as int) =~= sv);
    let mut r = String::from_str(SECTION_OPEN);
    r.append(category);
    r.append(SECTION_KEY_OPEN);
    let key = match schema.categories.get(category) {
        Some(d) => d.key.clone(),
        None => String::from_str(UNKNOWN_KEY),
    };
    r.append(key.as_str());
    r.append(SECTION_KEY_CLOSE);
    let joined = join_with_newlines(&items);
    r.append(joined.as_str());
    r.append(SECTION_CLOSE);
    r
}

/// Builds the root index page around `root_html`, the rendered body of the node `root`
/// (with its edge references replaced, as seen from the index); there is no body text
/// when it is `None`.
pub fn render_root_index_with_body(
    graph: &Graph,
    schema: &Schema,
    numbering: &NodeNumbering,
    css: &str,
    base_url: &str,
    root_html: Option<&str>,
) -> (r: String)
    ensures
        r@ == root_index_page(
            graph.nodes@,
            schema.categories@,
            numbering@,
            css@,
            base_url@,
            match root_html {
                Some(h) => replace_refs(graph.nodes@, graph.schema.categories@, numbering@, h@, INDEX_CATEGORY@, base_url@),
                None => Seq::<char>::empty(),
            },
        ),
{
    let nodes = graph.nodes.values();
    let ghost ns = graph.nodes@;
    let mut categories: Vec<String> = Vec::new();
    let mut i: usize = 0;
    while i < nodes.len()
        invariant
            i <= nodes@.len(),
            ns == nodes@.map_values(|n: Node| n@),
            ns == graph.nodes@,
            strs(categories@) == ns.take(i as int).map_values(|n: NodeView| n.category),
        decreases nodes.len() - i,
    {
        let ghost before = strs(categories@);
        let c = nodes[i].category.clone();
        assert(ns[i as int] == nodes@[i as int]@);
        assert(c@ == ns[i as int].category);
        categories.push(c);
        assert(strs(categories@) =~= before.push(ns[i as int].category));
        assert(ns.take(i + 1).map_values(|n: NodeView| n.category) =~= ns.take(i as int).map_values(
            |n: NodeView| n.category,
        ).push(ns[i as int].category));
        i = i + 1;
    }
    assert(ns.take(ns.len() as int) =~= ns);
    let sorted = sort_distinct(&categories);
    let ghost sv = strs(sorted@);
    let ghost sections = sv.map_values(|c: Seq<char>| category_section(ns, schema.categories@, numbering@, base_url@, c));
    let mut toc = String::new();
    let mut k: usize = 0;
    while k < sorted.len()
        invariant
            k <= sorted@.len(),
            ns == graph.nodes@,
            sv == strs(sorted@),
            sections == sv.map_values(|c: Seq<char>| category_section(ns, schema.categories@, numbering@, base_url@, c)),
            toc@ == concat_all(sections.take(k as int)),
        decreases sorted.len() - k,
    {
        let section = category_section_html(graph, schema, numbering, base_url, sorted[k].as_str());
        toc.append(section.as_str());
        proof {
            assert(sv[k as int] == sorted@[k as int]@);
            assert(sections.take(k + 1).drop_last() =~= sections.take(k as int));
        }
        k = k + 1;
    }
    assert(sections.take(sections.len() as int) =~= sections);
    let body = match root_html {
        Some(h) => replace_edge_refs(graph, h, INDEX_CATEGORY, numbering, base_url),
        None => String::new(),
    };
    let mut r = String::from_str(INDEX_HEAD);
    r.append(css);
    r.append(INDEX_STYLE_END);
    r.append(toc.as_str());
    r.append(BLANK_LINE);
    r.append(body.as_str());
    r.append(INDEX_END);
    r
}

/// Renders the root index page: a section per category, in the order of their names,
/// listing the category's nodes in the order of their ids; then the body of the node
/// `root`, when there is one, rendered from Markdown with its edge references replaced.
pub fn render_root_index(graph: &Graph, schema: &Schema, numbering: &NodeNumbering, css: &str, base_url: &str) -> (r: String)
    ensures
        has_id(graph.nodes@, ROOT_ID@) ==> r@ == root_index_page(
            graph.nodes@,
            schema.categories@,
            numbering@,
            css@,
            base_url@,
            replace_refs(
                graph.nodes@,
                graph.schema.categories@,
                numbering@,
                body_html(node_with_id(graph.nodes@, ROOT_ID@).body, 1, None),
                INDEX_CATEGORY@,
                base_url@,
            ),
        ),
        !has_id(graph.nodes@, ROOT_ID@) ==> r@ == root_index_page(
            graph.nodes@,
            schema.categories@,
            numbering@,
            css@,
            base_url@,
            Seq::<char>::empty(),
        ),
{
    match graph.nodes.get(ROOT_ID) {
        Some(root) => {
            let raw = render_body_html(root.body.as_str(), 1, None);
            render_root_index_with_body(graph, schema, numbering, css, base_url, Some(raw.as_str()))
        },
        None => render_root_index_with_body(graph, schema, numbering, css, base_url, None),
    }
}


// ---------------------------------------------------------------------------
// Grouping
// ---------------------------------------------------------------------------

/// The groups after adding node `n` to the group of its category (a new group at the end
/// when there is none yet).
pub open spec fn add_to_group(g: Seq<(Seq<char>, Seq<NodeView>)>, n: NodeView) -> Seq<(Seq<char>, Seq<NodeView>)> {
    crate::store(g, n.category, if has_key(g, n.category) { value_of(g, n.category).push(n) } else { seq![n] })
}

/// The first `k` nodes grouped by category: groups in order of first appearance, nodes
/// in graph order.
pub open spec fn groups_upto(ns: Seq<NodeView>, k: int) -> Seq<(Seq<char>, Seq<NodeView>)>
    decreases k,
{
    if k <= 0 || k > ns.len() {
        seq![]
    } else {
        add_to_group(groups_upto(ns, k - 1), ns[k - 1])
    }
}

/// The view of a grouping.
pub open spec fn groups_view(g: Seq<(String, Vec<Node>)>) -> Seq<(Seq<char>, Seq<NodeView>)> {
    g.map_values(|e: (String, Vec<Node>)| (e.0@, e.1@.map_values(|n: Node| n@)))
}

/// Groups the nodes of a graph by category: one group per category, in order of first
/// appearance, holding the category's nodes in graph order.
pub fn group_by_category(graph: &Graph) -> (r: Vec<(String, Vec<Node>)>)
    ensures
        groups_view(r@) == groups_upto(graph.nodes@, graph.nodes@.len() as int),
        crate::distinct_keys(groups_view(r@)),
{
    let nodes = graph.nodes.values();
    let ghost ns = graph.nodes@;
    let mut groups: Vec<(String, Vec<Node>)> = Vec::new();
    let mut i: usize = 0;
    assert(groups_view(groups@) =~= groups_upto(ns, 0));
    while i < nodes.len()
        invariant
            i <= nodes@.len(),
            ns == nodes@.map_values(|n: Node| n@),
            ns == graph.nodes@,
            groups_view(groups@) == groups_upto(ns, i as int),
            crate::distinct_keys(groups_view(groups@)),
        decreases nodes.len() - i,
    {
        let n = &nodes[i];
        assert(ns[i as int] == n@);
        let ghost g = groups_view(groups@);
        let mut p: usize = 0;
        while p < groups.len() && !crate::text::str_eq(groups[p].0.as_str(), n.category.as_str())
            invariant
                p <= groups@.len(),
                g == groups_view(groups@),
                forall|q: int| 0 <= q < p ==> g[q].0 != n.category@,
            decreases groups.len() - p,
        {
            assert(g[p as int].0 == groups@[p as int].0@);
            p = p + 1;
        }
        if p < groups.len() {
            assert(g[p as int].0 == groups@[p as int].0@);
            proof {
                let c = choose|j: int| 0 <= j < g.len() && g[j].0 == n.category@;
                assert(c == p as int);
            }
            let (name, mut members) = groups.remove(p);
            let ghost mv = members@.map_values(|x: Node| x@);
            members.push(n.clone());
            assert(members@.map_values(|x: Node| x@) =~= mv.push(n@));
            groups.insert(p, (name, members));
            proof {
                assert(groups_view(groups@) =~= g.update(p as int, (n.category@, mv.push(n@))));
                assert(value_of(g, n.category@) == mv);
                assert forall|a: int, b: int| 0 <= a < b < groups_view(groups@).len() implies groups_view(groups@)[a].0
                    != groups_view(groups@)[b].0 by {
                    assert(groups_view(groups@)[a].0 == g[a].0);
                    assert(groups_view(groups@)[b].0 == g[b].0);
                }
            }
        } else {
            let mut members: Vec<Node> = Vec::new();
            members.push(n.clone());
            assert(members@.map_values(|x: Node| x@) =~= seq![n@]);
            groups.push((n.category.clone(), members));
            proof {
                assert(groups_view(groups@) =~= g.push((n.category@, seq![n@])));
                assert forall|a: int, b: int| 0 <= a < b < groups_view(groups@).len() implies groups_view(groups@)[a].0
                    != groups_view(groups@)[b].0 by {
                    if b == g.len() {
                        assert(groups_view(groups@)[a].0 == g[a].0);
                    } else {
                        assert(groups_view(groups@)[a].0 == g[a].0);
                        assert(groups_view(groups@)[b].0 == g[b].0);
                    }
                }
            }
        }
        i = i + 1;
    }
    groups
}


// ---------------------------------------------------------------------------
// Writing pages
// ---------------------------------------------------------------------------

pub const RENDER_ERROR_RULE: &'static str = "render-error";

pub const CREATE_DIR_1: &'static str = "Cannot create output directory '";

pub const CREATE_DIR_FIX: &'static str = "Ensure the parent directory exists and is writable.";

pub const CREATE_DIR_HINT: &'static str = "Output directory must be creatable/writable.";

pub const WRITE_1: &'static str = "Cannot write '";

pub const QUOTE_COLON: &'static str = "': ";

pub const WRITE_FIX: &'static str = "Check directory permissions.";

pub const WRITE_HINT: &'static str = "Output directory must be writable.";

/// The file name of a node's page: `<id>.html`.
pub fn page_file_name(id: &str) -> (r: String)
    ensures
        r@ == id@ + HTML_EXT@,
{
    let mut r = String::from_str(id);
    r.append(HTML_EXT);
    r
}

/// The diagnostic for an output directory that cannot be created.
pub fn create_dir_error(output_dir: &str, err: &str) -> (d: Diagnostic)
    ensures
        d@ == (crate::DiagnosticView {
            rule: RENDER_ERROR_RULE@,
            severity: crate::Severity::Error,
            node_id: None,
            file: Some(output_dir@),
            detail: CREATE_DIR_1@ + output_dir@ + QUOTE_COLON@ + err@,
            fix: CREATE_DIR_FIX@,
            example: None,
            hint: CREATE_DIR_HINT@,
        }),
{
    let mut detail = String::from_str(CREATE_DIR_1);
    detail.append(output_dir);
    detail.append(QUOTE_COLON);
    detail.append(err);
    Diagnostic {
        rule: String::from_str(RENDER_ERROR_RULE),
        severity: crate::Severity::Error,
        node_id: None,
        file: Some(String::from_str(output_dir)),
        detail,
        fix: String::from_str(CREATE_DIR_FIX),
        example: None,
        hint: String::from_str(CREATE_DIR_HINT),
    }
}

/// The diagnostic for the page of node `id` that cannot be written to `file`.
pub fn write_page_error(id: &str, file: &str, err: &str) -> (d: Diagnostic)
    ensures
        d@ == (crate::DiagnosticView {
            rule: RENDER_ERROR_RULE@,
            severity: crate::Severity::Error,
            node_id: Some(id@),
            file: Some(file@),
            detail: WRITE_1@ + file@ + QUOTE_COLON@ + err@,
            fix: WRITE_FIX@,
            example: None,
            hint: WRITE_HINT@,
        }),
{
    let mut detail = String::from_str(WRITE_1);
    detail.append(file);
    detail.append(QUOTE_COLON);
    detail.append(err);
    Diagnostic {
        rule: String::from_str(RENDER_ERROR_RULE),
        severity: crate::Severity::Error,
        node_id: Some(String::from_str(id)),
        file: Some(String::from_str(file)),
        detail,
        fix: String::from_str(WRITE_FIX),
        example: None,
        hint: String::from_str(WRITE_HINT),
    }
}

} // verus!
