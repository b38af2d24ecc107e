//! Graphite: a compiled knowledge graph of `.node` documents, with a schema of
//! categories and edges, validation rules, evidence anchors and rendering.
pub mod text;
pub mod yaml;
pub mod json;
pub mod node_parser;
pub mod validation;
pub mod schema;
pub mod anchor_scanner;
pub mod sidecar;
pub mod config;
pub mod markdown;
pub mod ordering;
pub mod render;
pub mod cli;
pub mod paths;
pub mod style;

use vstd::prelude::*;

verus! {

/// A string newtype representing the kind of an edge.
#[derive(Clone, Debug)]
pub struct EdgeKind(pub String);

/// Severity level for diagnostics.
#[derive(Clone, Copy, Debug, PartialEq, Eq, Structural)]
pub enum Severity {
    Error,
    Warning,
}

/// The view of an optional string.
pub open spec fn opt_view(o: Option<String>) -> Option<Seq<char>> {
    match o {
        Some(s) => Some(s@),
        None => None,
    }
}

/// A diagnostic message produced while parsing or validating a graph.
#[derive(Debug)]
pub struct Diagnostic {
    pub rule: String,
    pub severity: Severity,
    pub node_id: Option<String>,
    pub file: Option<String>,
    pub detail: String,
    pub fix: String,
    pub example: Option<String>,
    pub hint: String,
}

/// The mathematical content of a [`Diagnostic`].
pub struct DiagnosticView {
    pub rule: Seq<char>,
    pub severity: Severity,
    pub node_id: Option<Seq<char>>,
    pub file: Option<Seq<char>>,
    pub detail: Seq<char>,
    pub fix: Seq<char>,
    pub example: Option<Seq<char>>,
    pub hint: Seq<char>,
}

impl View for Diagnostic {
    type V = DiagnosticView;

    open spec fn view(&self) -> DiagnosticView {
        DiagnosticView {
            rule: self.rule@,
            severity: self.severity,
            node_id: opt_view(self.node_id),
            file: opt_view(self.file),
            detail: self.detail@,
            fix: self.fix@,
            example: opt_view(self.example),
            hint: self.hint@,
        }
    }
}

fn clone_opt(o: &Option<String>) -> (r: Option<String>)
    ensures
        opt_view(r) == opt_view(*o),
{
    match o {
        Some(s) => Some(s.clone()),
        None => None,
    }
}

impl Clone for Diagnostic {
    fn clone(&self) -> (r: Self)
        ensures
            r@ == self@,
    {
        Diagnostic {
            rule: self.rule.clone(),
            severity: self.severity,
            node_id: clone_opt(&self.node_id),
            file: clone_opt(&self.file),
            detail: self.detail.clone(),
            fix: self.fix.clone(),
            example: clone_opt(&self.example),
            hint: self.hint.clone(),
        }
    }
}

/// The views of a sequence of diagnostics.
pub open spec fn diags_view(ds: Seq<Diagnostic>) -> Seq<DiagnosticView> {
    ds.map_values(|d: Diagnostic| d@)
}

/// The definition of a single category in a schema: its short key (e.g. `REQ`).
#[derive(Clone, Debug)]
pub struct KindDef {
    pub key: String,
}

/// The definition of a directed edge between two categories.
#[derive(Clone, Debug)]
pub struct EdgeDef {
    pub name: String,
    pub from: String,
    pub to: String,
}

/// The mathematical content of an [`EdgeDef`].
pub struct EdgeView {
    pub name: Seq<char>,
    pub from: Seq<char>,
    pub to: Seq<char>,
}

impl View for EdgeDef {
    type V = EdgeView;

    open spec fn view(&self) -> EdgeView {
        EdgeView { name: self.name@, from: self.from@, to: self.to@ }
    }
}

/// The views of a sequence of edge definitions.
pub open spec fn edges_view(es: Seq<EdgeDef>) -> Seq<EdgeView> {
    es.map_values(|e: EdgeDef| e@)
}

/// No key occurs twice.
pub open spec fn distinct_keys<V>(s: Seq<(Seq<char>, V)>) -> bool {
    forall|i: int, j: int| 0 <= i < j < s.len() ==> s[i].0 != s[j].0
}

/// Some entry has the given key.
pub open spec fn has_key<V>(s: Seq<(Seq<char>, V)>, key: Seq<char>) -> bool {
    exists|i: int| 0 <= i < s.len() && s[i].0 == key
}

/// The value stored under `key` (unspecified when the key is absent).
pub open spec fn value_of<V>(s: Seq<(Seq<char>, V)>, key: Seq<char>) -> V {
    s[choose|i: int| 0 <= i < s.len() && s[i].0 == key].1
}

/// The entries after storing `v` under `key`: an existing entry is replaced in place,
/// otherwise a new entry is appended.
pub open spec fn store<V>(s: Seq<(Seq<char>, V)>, key: Seq<char>, v: V) -> Seq<(Seq<char>, V)> {
    if has_key(s, key) {
        s.update(choose|i: int| 0 <= i < s.len() && s[i].0 == key, (key, v))
    } else {
        s.push((key, v))
    }
}

/// Category definitions of a schema, in insertion order, each name at most once.
#[derive(Debug)]
pub struct KindMap {
    entries: Vec<(String, KindDef)>,
}

/// Category name and key, as mathematical strings.
pub open spec fn kind_entry_view(e: (String, KindDef)) -> (Seq<char>, Seq<char>) {
    (e.0@, e.1.key@)
}


impl View for KindMap {
    type V = Seq<(Seq<char>, Seq<char>)>;

    closed spec fn view(&self) -> Seq<(Seq<char>, Seq<char>)> {
        self.entries@.map_values(|e: (String, KindDef)| kind_entry_view(e))
    }
}

impl Clone for KindMap {
    fn clone(&self) -> (r: Self)
        ensures
            r@ == self@,
    {
        proof {
            use_type_invariant(self);
        }
        let mut entries: Vec<(String, KindDef)> = Vec::new();
        let mut i: usize = 0;
        while i < self.entries.len()
            invariant
                i <= self.entries@.len(),
                entries@.len() == i,
                forall|k: int|
                    0 <= k < i ==> kind_entry_view(#[trigger] entries@[k]) == kind_entry_view(
                        self.entries@[k],
                    ),
            decreases self.entries.len() - i,
        {
            let name = self.entries[i].0.clone();
            let key = self.entries[i].1.key.clone();
            entries.push((name, KindDef { key }));
            i = i + 1;
        }
        proof {
            assert(entries@.map_values(|e: (String, KindDef)| kind_entry_view(e))
                =~= self.entries@.map_values(|e: (String, KindDef)| kind_entry_view(e)));
        }
        KindMap { entries }
    }
}

impl KindMap {
    #[verifier::type_invariant]
    spec fn wf(self) -> bool {
        distinct_keys(self.entries@.map_values(|e: (String, KindDef)| kind_entry_view(e)))
    }

    /// The names are distinct (the map's invariant); a call makes the fact available.
    pub fn names_distinct(&self)
        ensures
            distinct_keys(self@),
    {
        proof {
            use_type_invariant(self);
        }
    }

    /// An empty map.
    pub fn new() -> (m: Self)
        ensures
            m@ == Seq::<(Seq<char>, Seq<char>)>::empty(),
    {
        let m = KindMap { entries: Vec::new() };
        assert(m@ =~= Seq::<(Seq<char>, Seq<char>)>::empty());
        m
    }

    /// The number of categories.
    pub fn len(&self) -> (n: usize)
        ensures
            n == self@.len(),
    {
        self.entries.len()
    }

    /// The entries in order: `(name, definition)`.
    pub fn entries(&self) -> (r: &Vec<(String, KindDef)>)
        ensures
            r@.map_values(|e: (String, KindDef)| kind_entry_view(e)) == self@,
    {
        &self.entries
    }

    /// The position of `name`, if present.
    pub fn position(&self, name: &str) -> (r: Option<usize>)
        ensures
            match r {
                Some(i) => i < self@.len() && self@[i as int].0 == name@,
                None => !has_key(self@, name@),
            },
    {
        let mut i: usize = 0;
        while i < self.entries.len()
            invariant
                i <= self.entries@.len(),
                self@.len() == self.entries@.len(),
                forall|k: int| 0 <= k < i ==> self@[k].0 != name@,
            decreases self.entries.len() - i,
        {
            if crate::text::str_eq(self.entries[i].0.as_str(), name) {
                return Some(i);
            }
            i = i + 1;
        }
        None
    }

    /// Looks up the definition of category `name`.
    pub fn get(&self, name: &str) -> (r: Option<&KindDef>)
        ensures
            match r {
                Some(d) => has_key(self@, name@) && d.key@ == value_of(self@, name@) && exists|i: int|
                    0 <= i < self@.len() && self@[i].0 == name@ && self@[i].1 == d.key@,
                None => !has_key(self@, name@),
            },
    {
        proof {
            use_type_invariant(self);
        }
        match self.position(name) {
            Some(i) => {
                proof {
                    let c = choose|j: int| 0 <= j < self@.len() && self@[j].0 == name@;
                    assert(c == i as int);
                }
                Some(&self.entries[i].1)
            },
            None => None,
        }
    }

    /// Whether category `name` is defined.
    pub fn contains_key(&self, name: &str) -> (r: bool)
        ensures
            r == has_key(self@, name@),
    {
        self.position(name).is_some()
    }

    /// Defines (or redefines, in place) category `name`.
    pub fn insert(&mut self, name: String, def: KindDef)
        ensures
            final(self)@ == store(old(self)@, name@, def.key@),
    {
        proof {
            use_type_invariant(&*self);
        }
        match self.position(name.as_str()) {
            Some(i) => {
                let ghost nv = (name@, def.key@);
                proof {
                    let s = old(self)@;
                    assert(s[i as int].0 == name@);
                    let c = choose|j: int| 0 <= j < s.len() && s[j].0 == name@;
                    assert(c == i as int);
                }
                let mut entries = Vec::new();
                std::mem::swap(&mut entries, &mut self.entries);
                entries.set(i, (name, def));
                proof {
                    assert(entries@.map_values(|e: (String, KindDef)| kind_entry_view(e))
                        =~= old(self)@.update(i as int, nv));
                }
                self.entries = entries;
            },
            None => {
                let ghost nv = (name@, def.key@);
                let mut entries = Vec::new();
                std::mem::swap(&mut entries, &mut self.entries);
                entries.push((name, def));
                proof {
                    assert(entries@.map_values(|e: (String, KindDef)| kind_entry_view(e))
                        =~= old(self)@.push(nv));
                }
                self.entries = entries;
            },
        }
    }
}

/// A schema: the categories that nodes may have and the edges between them.
#[derive(Clone, Debug)]
pub struct Schema {
    pub categories: KindMap,
    pub edges: Vec<EdgeDef>,
}

/// An index indicating a node belongs to a specific kind.
#[derive(Clone, Debug)]
pub struct Index {
    pub of_kind: String,
}

/// A node of the knowledge graph: an id, a category, a Markdown body, and the
/// length in bytes of the file it was read from.
#[derive(Debug)]
pub struct Node {
    pub id: String,
    pub category: String,
    pub body: String,
    pub content_len: usize,
}

/// The mathematical content of a [`Node`].
pub struct NodeView {
    pub id: Seq<char>,
    pub category: Seq<char>,
    pub body: Seq<char>,
    pub content_len: usize,
}

impl View for Node {
    type V = NodeView;

    open spec fn view(&self) -> NodeView {
        NodeView {
            id: self.id@,
            category: self.category@,
            body: self.body@,
            content_len: self.content_len,
        }
    }
}

impl Clone for Node {
    fn clone(&self) -> (r: Self)
        ensures
            r@ == self@,
    {
        Node {
            id: self.id.clone(),
            category: self.category.clone(),
            body: self.body.clone(),
            content_len: self.content_len,
        }
    }
}

/// No id occurs twice among the nodes.
pub open spec fn distinct_ids(ns: Seq<NodeView>) -> bool {
    forall|i: int, j: int| 0 <= i < j < ns.len() ==> ns[i].id != ns[j].id
}

/// Some node has the given id.
pub open spec fn has_id(ns: Seq<NodeView>, id: Seq<char>) -> bool {
    exists|i: int| 0 <= i < ns.len() && ns[i].id == id
}

/// The node with the given id (unspecified when there is none).
pub open spec fn node_with_id(ns: Seq<NodeView>, id: Seq<char>) -> NodeView {
    ns[choose|i: int| 0 <= i < ns.len() && ns[i].id == id]
}

/// The nodes after inserting `n`: the node with the same id is replaced in place,
/// otherwise `n` is appended.
pub open spec fn insert_node(ns: Seq<NodeView>, n: NodeView) -> Seq<NodeView> {
    if has_id(ns, n.id) {
        ns.update(choose|i: int| 0 <= i < ns.len() && ns[i].id == n.id, n)
    } else {
        ns.push(n)
    }
}

/// The nodes of a graph keyed by their ids, in insertion order.
#[derive(Debug)]
pub struct NodeMap {
    entries: Vec<Node>,
}

impl View for NodeMap {
    type V = Seq<NodeView>;

    closed spec fn view(&self) -> Seq<NodeView> {
        self.entries@.map_values(|n: Node| n@)
    }
}

impl Clone for NodeMap {
    fn clone(&self) -> (r: Self)
        ensures
            r@ == self@,
    {
        proof {
            use_type_invariant(self);
        }
        let mut entries: Vec<Node> = Vec::new();
        let mut i: usize = 0;
        while i < self.entries.len()
            invariant
                i <= self.entries@.len(),
                entries@.len() == i,
                forall|k: int| 0 <= k < i ==> (#[trigger] entries@[k])@ == self.entries@[k]@,
            decreases self.entries.len() - i,
        {
            entries.push(self.entries[i].clone());
            i = i + 1;
        }
        proof {
            assert(entries@.map_values(|n: Node| n@) =~= self.entries@.map_values(|n: Node| n@));
        }
        NodeMap { entries }
    }
}

impl NodeMap {
    #[verifier::type_invariant]
    spec fn wf(self) -> bool {
        distinct_ids(self.entries@.map_values(|n: Node| n@))
    }

    /// The ids are distinct (the map's invariant); a call makes the fact available.
    pub fn ids_distinct(&self)
        ensures
            distinct_ids(self@),
    {
        proof {
            use_type_invariant(self);
        }
    }

    /// An empty map.
    pub fn new() -> (m: Self)
        ensures
            m@ == Seq::<NodeView>::empty(),
    {
        let m = NodeMap { entries: Vec::new() };
        assert(m@ =~= Seq::<NodeView>::empty());
        m
    }

    /// The number of nodes.
    pub fn len(&self) -> (n: usize)
        ensures
            n == self@.len(),
    {
        self.entries.len()
    }

    /// Whether the map holds no node.
    pub fn is_empty(&self) -> (r: bool)
        ensures
            r == (self@.len() == 0),
    {
        self.entries.len() == 0
    }

    /// The nodes in order.
    pub fn values(&self) -> (r: &Vec<Node>)
        ensures
            r@.map_values(|n: Node| n@) == self@,
    {
        &self.entries
    }

    /// The position of the node with id `id`, if present.
    pub fn position(&self, id: &str) -> (r: Option<usize>)
        ensures
            match r {
                Some(i) => i < self@.len() && self@[i as int].id == id@,
                None => !has_id(self@, id@),
            },
    {
        let mut i: usize = 0;
        while i < self.entries.len()
            invariant
                i <= self.entries@.len(),
                self@.len() == self.entries@.len(),
                forall|k: int| 0 <= k < i ==> self@[k].id != id@,
            decreases self.entries.len() - i,
        {
            if crate::text::str_eq(self.entries[i].id.as_str(), id) {
                return Some(i);
            }
            i = i + 1;
        }
        None
    }

    /// The node with id `id`.
    pub fn get(&self, id: &str) -> (r: Option<&Node>)
        ensures
            match r {
                Some(n) => n.id@ == id@ && has_id(self@, id@) && n@ == node_with_id(self@, id@)
                    && exists|i: int| 0 <= i < self@.len() && self@[i] == n@,
                None => !has_id(self@, id@),
            },
    {
        proof {
            use_type_invariant(self);
        }
        match self.position(id) {
            Some(i) => {
                proof {
                    let c = choose|j: int| 0 <= j < self@.len() && self@[j].id == id@;
                    assert(c == i as int);
                }
                Some(&self.entries[i])
            },
            None => None,
        }
    }

    /// Whether a node with id `id` is present.
    pub fn contains_key(&self, id: &str) -> (r: bool)
        ensures
            r == has_id(self@, id@),
    {
        self.position(id).is_some()
    }

    /// Inserts `node` under its id, replacing a node with the same id.
    pub fn insert(&mut self, node: Node)
        ensures
            final(self)@ == insert_node(old(self)@, node@),
    {
        proof {
            use_type_invariant(&*self);
        }
        let ghost nv = node@;
        let pos = self.position(node.id.as_str());
        let mut entries = Vec::new();
        std::mem::swap(&mut entries, &mut self.entries);
        match pos {
            Some(i) => {
                proof {
                    let ns = old(self)@;
                    assert(ns[i as int].id == nv.id);
                    let c = choose|j: int| 0 <= j < ns.len() && ns[j].id == nv.id;
                    assert(0 <= c < ns.len() && ns[c].id == nv.id);
                    assert(c == i as int);
                }
                entries.set(i, node);
                proof {
                    assert(entries@.map_values(|n: Node| n@) =~= old(self)@.update(i as int, nv));
                }
            },
            None => {
                entries.push(node);
                proof {
                    assert(entries@.map_values(|n: Node| n@) =~= old(self)@.push(nv));
                }
            },
        }
        self.entries = entries;
    }
}
/// A typed directed knowledge graph: its nodes and its schema.
#[derive(Clone, Debug)]
pub struct Graph {
    pub nodes: NodeMap,
    pub schema: Schema,
}

impl Graph {
    /// An empty graph over `schema`.
    pub fn new(schema: Schema) -> (g: Self)
        ensures
            g.nodes@ == Seq::<NodeView>::empty(),
            g.schema.categories@ == schema.categories@,
            edges_view(g.schema.edges@) == edges_view(schema.edges@),
    {
        Graph { nodes: NodeMap::new(), schema }
    }

    /// Adds `node`, replacing any node with the same id.
    pub fn add_node(&mut self, node: Node)
        ensures
            final(self).nodes@ == insert_node(old(self).nodes@, node@),
            final(self).schema.categories@ == old(self).schema.categories@,
            edges_view(final(self).schema.edges@) == edges_view(old(self).schema.edges@),
    {
        self.nodes.insert(node);
    }
}

/// A source location: a file path and a 1-based line number.
pub type Location = (String, usize);

/// The view of a location.
pub open spec fn loc_view(l: (String, usize)) -> (Seq<char>, usize) {
    (l.0@, l.1)
}

/// The views of a list of locations.
pub open spec fn locs_view(ls: Seq<(String, usize)>) -> Seq<(Seq<char>, usize)> {
    ls.map_values(|l: (String, usize)| loc_view(l))
}

/// The view of one evidence entry: its id and its locations.
pub open spec fn evidence_entry_view(e: (String, Vec<(String, usize)>)) -> (
    Seq<char>,
    Seq<(Seq<char>, usize)>,
) {
    (e.0@, locs_view(e.1@))
}

/// Evidence ids mapped to the source locations where they were found, in the order
/// in which the ids were first recorded.
#[derive(Debug)]
pub struct EvidenceMap {
    entries: Vec<(String, Vec<(String, usize)>)>,
}

impl View for EvidenceMap {
    type V = Seq<(Seq<char>, Seq<(Seq<char>, usize)>)>;

    closed spec fn view(&self) -> Self::V {
        self.entries@.map_values(|e: (String, Vec<(String, usize)>)| evidence_entry_view(e))
    }
}

/// A copy of a list of locations.
pub fn clone_locations(ls: &Vec<(String, usize)>) -> (r: Vec<(String, usize)>)
    ensures
        locs_view(r@) == locs_view(ls@),
{
    let mut out: Vec<(String, usize)> = Vec::new();
    let mut i: usize = 0;
    while i < ls.len()
        invariant
            i <= ls@.len(),
            out@.len() == i,
            forall|k: int| 0 <= k < i ==> loc_view(#[trigger] out@[k]) == loc_view(ls@[k]),
        decreases ls.len() - i,
    {
        out.push((ls[i].0.clone(), ls[i].1));
        i = i + 1;
    }
    assert(locs_view(out@) =~= locs_view(ls@));
    out
}

impl Clone for EvidenceMap {
    fn clone(&self) -> (r: Self)
        ensures
            r@ == self@,
    {
        proof {
            use_type_invariant(self);
        }
        let mut entries: Vec<(String, Vec<(String, usize)>)> = Vec::new();
        let mut i: usize = 0;
        while i < self.entries.len()
            invariant
                i <= self.entries@.len(),
                entries@.len() == i,
                forall|k: int|
                    0 <= k < i ==> evidence_entry_view(#[trigger] entries@[k])
                        == evidence_entry_view(self.entries@[k]),
            decreases self.entries.len() - i,
        {
            entries.push((self.entries[i].0.clone(), clone_locations(&self.entries[i].1)));
            i = i + 1;
        }
        proof {
            assert(entries@.map_values(|e: (String, Vec<(String, usize)>)| evidence_entry_view(e))
                =~= self@);
        }
        EvidenceMap { entries }
    }
}

impl EvidenceMap {
    #[verifier::type_invariant]
    spec fn wf(self) -> bool {
        distinct_keys(self@)
    }

    /// The ids are distinct (the map's invariant); a call makes the fact available.
    pub fn keys_distinct(&self)
        ensures
            distinct_keys(self@),
    {
        proof {
            use_type_invariant(self);
        }
    }

    /// An empty map.
    pub fn new() -> (m: Self)
        ensures
            m@ == Seq::<(Seq<char>, Seq<(Seq<char>, usize)>)>::empty(),
    {
        let m = EvidenceMap { entries: Vec::new() };
        assert(m@ =~= Seq::<(Seq<char>, Seq<(Seq<char>, usize)>)>::empty());
        m
    }

    /// The number of ids.
    pub fn len(&self) -> (n: usize)
        ensures
            n == self@.len(),
    {
        self.entries.len()
    }

    /// Whether no id is recorded.
    pub fn is_empty(&self) -> (r: bool)
        ensures
            r == (self@.len() == 0),
    {
        self.entries.len() == 0
    }

    /// The entries in order: `(id, locations)`.
    pub fn entries(&self) -> (r: &Vec<(String, Vec<(String, usize)>)>)
        ensures
            r@.map_values(|e: (String, Vec<(String, usize)>)| evidence_entry_view(e)) == self@,
    {
        &self.entries
    }

    /// The position of `id`, if present.
    pub fn position(&self, id: &str) -> (r: Option<usize>)
        ensures
            match r {
                Some(i) => i < self@.len() && self@[i as int].0 == id@,
                None => !has_key(self@, id@),
            },
    {
        let mut i: usize = 0;
        while i < self.entries.len()
            invariant
                i <= self.entries@.len(),
                self@.len() == self.entries@.len(),
                forall|k: int| 0 <= k < i ==> self@[k].0 != id@,
            decreases self.entries.len() - i,
        {
            if crate::text::str_eq(self.entries[i].0.as_str(), id) {
                return Some(i);
            }
            i = i + 1;
        }
        None
    }

    /// Whether `id` is recorded.
    pub fn contains_key(&self, id: &str) -> (r: bool)
        ensures
            r == has_key(self@, id@),
    {
        self.position(id).is_some()
    }

    /// The locations recorded for `id`.
    pub fn get(&self, id: &str) -> (r: Option<&Vec<(String, usize)>>)
        ensures
            match r {
                Some(ls) => has_key(self@, id@) && locs_view(ls@) == value_of(self@, id@),
                None => !has_key(self@, id@),
            },
    {
        proof {
            use_type_invariant(self);
        }
        match self.position(id) {
            Some(i) => {
                proof {
                    let c = choose|j: int| 0 <= j < self@.len() && self@[j].0 == id@;
                    assert(c == i as int);
                }
                Some(&self.entries[i].1)
            },
            None => None,
        }
    }

    /// Records `locations` for `id`, replacing what was recorded for it before.
    pub fn insert(&mut self, id: String, locations: Vec<(String, usize)>)
        ensures
            final(self)@ == store(old(self)@, id@, locs_view(locations@)),
    {
        proof {
            use_type_invariant(&*self);
        }
        let ghost kv = id@;
        let ghost lv = locs_view(locations@);
        let pos = self.position(id.as_str());
        let mut entries = Vec::new();
        std::mem::swap(&mut entries, &mut self.entries);
        match pos {
            Some(i) => {
                proof {
                    let s = old(self)@;
                    assert(s[i as int].0 == kv);
                    let c = choose|j: int| 0 <= j < s.len() && s[j].0 == kv;
                    assert(c == i as int);
                }
                entries.set(i, (id, locations));
                proof {
                    assert(entries@.map_values(
                        |e: (String, Vec<(String, usize)>)| evidence_entry_view(e),
                    ) =~= old(self)@.update(i as int, (kv, lv)));
                }
            },
            None => {
                entries.push((id, locations));
                proof {
                    assert(entries@.map_values(
                        |e: (String, Vec<(String, usize)>)| evidence_entry_view(e),
                    ) =~= old(self)@.push((kv, lv)));
                }
            },
        }
        self.entries = entries;
    }

    /// Appends `more` to the locations recorded for `id` (recording `id` first when absent).
    pub fn extend(&mut self, id: String, more: Vec<(String, usize)>)
        ensures
            final(self)@ == store(
                old(self)@,
                id@,
                if has_key(old(self)@, id@) {
                    value_of(old(self)@, id@) + locs_view(more@)
                } else {
                    locs_view(more@)
                },
            ),
    {
        proof {
            use_type_invariant(&*self);
        }
        let ghost kv = id@;
        let pos = self.position(id.as_str());
        match pos {
            Some(i) => {
                let mut combined = clone_locations(&self.entries[i].1);
                let ghost mv = more@;
                let mut more = more;
                let ghost before = combined@;
                combined.append(&mut more);
                proof {
                    let s = old(self)@;
                    let c = choose|j: int| 0 <= j < s.len() && s[j].0 == kv;
                    assert(s[i as int].0 == kv);
                    assert(c == i as int);
                    assert(locs_view(combined@) =~= locs_view(before) + locs_view(mv));
                }
                self.insert(id, combined);
            },
            None => {
                self.insert(id, more);
            },
        }
    }

    /// Appends one location to the locations recorded for `id`.
    pub fn push(&mut self, id: String, location: (String, usize))
        ensures
            final(self)@ == store(
                old(self)@,
                id@,
                if has_key(old(self)@, id@) {
                    value_of(old(self)@, id@).push(loc_view(location))
                } else {
                    seq![loc_view(location)]
                },
            ),
    {
        let ghost lv = loc_view(location);
        let mut one = Vec::new();
        one.push(location);
        proof {
            assert(locs_view(one@) =~= seq![lv]);
        }
        self.extend(id, one);
        proof {
            if has_key(old(self)@, id@) {
                assert(value_of(old(self)@, id@) + seq![lv] =~= value_of(old(self)@, id@).push(lv));
            }
        }
    }
}


// ---------------------------------------------------------------------------
// Laws of the maps
// ---------------------------------------------------------------------------

/// In a map with distinct keys, reading a key just stored gives back the stored value;
/// every other key keeps its presence and value; keys stay distinct.
pub proof fn lemma_store_then_read<V>(s: Seq<(Seq<char>, V)>, key: Seq<char>, v: V, other: Seq<char>)
    requires
        distinct_keys(s),
    ensures
        has_key(store(s, key, v), key),
        value_of(store(s, key, v), key) == v,
        distinct_keys(store(s, key, v)),
        other != key ==> has_key(store(s, key, v), other) == has_key(s, other),
        other != key && has_key(s, other) ==> value_of(store(s, key, v), other) == value_of(s, other),
{
    let t = store(s, key, v);
    if has_key(s, key) {
        let i = choose|i: int| 0 <= i < s.len() && s[i].0 == key;
        assert(t[i].0 == key);
        let c = choose|j: int| 0 <= j < t.len() && t[j].0 == key;
        assert(c == i);
        if has_key(s, other) && other != key {
            let o = choose|j: int| 0 <= j < s.len() && s[j].0 == other;
            assert(t[o] == s[o]);
            let co = choose|j: int| 0 <= j < t.len() && t[j].0 == other;
            assert(co == o);
        }
        if other != key && has_key(t, other) {
            let o = choose|j: int| 0 <= j < t.len() && t[j].0 == other;
            assert(s[o].0 == other);
        }
    } else {
        assert(t[s.len() as int].0 == key);
        let c = choose|j: int| 0 <= j < t.len() && t[j].0 == key;
        assert(c == s.len());
        if has_key(s, other) && other != key {
            let o = choose|j: int| 0 <= j < s.len() && s[j].0 == other;
            assert(t[o] == s[o]);
            let co = choose|j: int| 0 <= j < t.len() && t[j].0 == other;
            assert(co == o);
        }
        if other != key && has_key(t, other) {
            let o = choose|j: int| 0 <= j < t.len() && t[j].0 == other;
            assert(s[o].0 == other);
        }
    }
}

/// After a node is added to a graph, looking up its id finds exactly that node; every
/// other id keeps its node; ids stay distinct.
pub proof fn lemma_added_node_is_found(ns: Seq<NodeView>, n: NodeView, other: Seq<char>)
    requires
        distinct_ids(ns),
    ensures
        has_id(insert_node(ns, n), n.id),
        node_with_id(insert_node(ns, n), n.id) == n,
        distinct_ids(insert_node(ns, n)),
        other != n.id ==> has_id(insert_node(ns, n), other) == has_id(ns, other),
        other != n.id && has_id(ns, other) ==> node_with_id(insert_node(ns, n), other) == node_with_id(ns, other),
{
    let t = insert_node(ns, n);
    let pos = if has_id(ns, n.id) {
        choose|i: int| 0 <= i < ns.len() && ns[i].id == n.id
    } else {
        ns.len() as int
    };
    assert(t[pos] == n);
    let c = choose|j: int| 0 <= j < t.len() && t[j].id == n.id;
    assert(c == pos);
    if other != n.id && has_id(ns, other) {
        let o = choose|j: int| 0 <= j < ns.len() && ns[j].id == other;
        assert(t[o] == ns[o]);
        let co = choose|j: int| 0 <= j < t.len() && t[j].id == other;
        assert(co == o);
    }
    if other != n.id && has_id(t, other) {
        let o = choose|j: int| 0 <= j < t.len() && t[j].id == other;
        assert(ns[o].id == other);
    }
}

} // verus!
