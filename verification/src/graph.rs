//! The `NoteGraph`: a directed graph of notes connected by wikilinks, kept
//! in a `petgraph` graph with an index from note id to node.
use vstd::prelude::*;
use std::collections::HashMap;
use petgraph::visit::EdgeRef;
use crate::ids::{uuid_text, NoteId};

verus! {

broadcast use {
    vstd::std_specs::hash::group_hash_axioms,
    vstd::seq_lib::group_to_multiset_ensures,
    vstd::multiset::group_multiset_axioms,
};

#[verifier::external_type_specification]
#[verifier::external_body]
#[verifier::reject_recursive_types(N)]
#[verifier::reject_recursive_types(E)]
#[verifier::reject_recursive_types(Ty)]
#[verifier::reject_recursive_types(Ix)]
pub struct ExGraph<N, E, Ty, Ix>(petgraph::graph::Graph<N, E, Ty, Ix>);

#[verifier::external_type_specification]
#[verifier::external_body]
pub struct ExDirected(petgraph::Directed);

/// The directed graph of note ids that the library keeps.
pub type NoteDiGraph = petgraph::graph::Graph<NoteId, (), petgraph::Directed, u32>;

/// The node weights of a graph, by node index: the note id values.
pub uninterp spec fn graph_nodes(g: petgraph::graph::Graph<NoteId, (), petgraph::Directed, u32>) -> Seq<u128>;

/// The edges of a graph, by edge index: (source, target) node indices.
pub uninterp spec fn graph_edges(g: petgraph::graph::Graph<NoteId, (), petgraph::Directed, u32>) -> Seq<(int, int)>;

/// What `Vec::swap_remove(i)` leaves: the last element takes the place of
/// the `i`-th.
pub open spec fn swap_removed<T>(s: Seq<T>, i: int) -> Seq<T> {
    s.update(i, s.last()).drop_last()
}

/// The largest index a `u32`-indexed petgraph graph gives out, plus one.
pub open spec fn index_limit() -> int {
    u32::MAX as int
}

/// `DiGraph::new()`: an empty graph.
#[verifier::external_body]
fn graph_new() -> (g: NoteDiGraph)
    ensures
        graph_nodes(g) == Seq::<u128>::empty(),
        graph_edges(g) == Seq::<(int, int)>::empty(),
{
    petgraph::graph::DiGraph::new()
}

/// `Graph::add_node`: appends a node with this weight and returns its
/// index, the former node count.  It panics only when the count reaches the
/// `u32` limit, which `requires` rules out.
#[verifier::external_body]
fn graph_add_node(g: &mut NoteDiGraph, id: NoteId) -> (r: usize)
    requires
        graph_nodes(*old(g)).len() < index_limit(),
    ensures
        graph_nodes(*final(g)) == graph_nodes(*old(g)).push(id@),
        graph_edges(*final(g)) == graph_edges(*old(g)),
        r == graph_nodes(*old(g)).len(),
{
    g.add_node(id).index()
}

/// `Graph::add_edge`: appends an edge from node `a` to node `b`.  It panics
/// only on a missing node or at the `u32` limit, which `requires` rules out.
#[verifier::external_body]
fn graph_add_edge(g: &mut NoteDiGraph, a: usize, b: usize)
    requires
        a < graph_nodes(*old(g)).len(),
        b < graph_nodes(*old(g)).len(),
        graph_edges(*old(g)).len() < index_limit(),
    ensures
        graph_nodes(*final(g)) == graph_nodes(*old(g)),
        graph_edges(*final(g)) == graph_edges(*old(g)).push((a as int, b as int)),
{
    g.add_edge(petgraph::graph::NodeIndex::new(a), petgraph::graph::NodeIndex::new(b), ());
}

/// `Graph::node_count`.
#[verifier::external_body]
fn graph_node_count(g: &NoteDiGraph) -> (r: usize)
    ensures
        r == graph_nodes(*g).len(),
{
    g.node_count()
}

/// `Graph::edge_count`.
#[verifier::external_body]
fn graph_edge_count(g: &NoteDiGraph) -> (r: usize)
    ensures
        r == graph_edges(*g).len(),
{
    g.edge_count()
}

/// `Graph::remove_edge`: the edge list is `swap_remove`d at `e`, so the
/// last edge takes index `e`; nodes stay.
#[verifier::external_body]
fn graph_remove_edge(g: &mut NoteDiGraph, e: usize)
    requires
        e < graph_edges(*old(g)).len(),
    ensures
        graph_nodes(*final(g)) == graph_nodes(*old(g)),
        graph_edges(*final(g)) == swap_removed(graph_edges(*old(g)), e as int),
{
    g.remove_edge(petgraph::graph::EdgeIndex::new(e));
}

/// The first edge that `Graph::edges(a)` yields: an outgoing edge of node
/// `a`, or `None` when `a` has none.  Which outgoing edge comes first is
/// not stated.
#[verifier::external_body]
fn graph_first_out_edge(g: &NoteDiGraph, a: usize) -> (r: Option<usize>)
    requires
        a < graph_nodes(*g).len(),
    ensures
        match r {
            Some(e) => e < graph_edges(*g).len() && graph_edges(*g)[e as int].0 == a,
            None => forall|e: int|
                0 <= e < graph_edges(*g).len() ==> (#[trigger] graph_edges(*g)[e]).0 != a,
        },
{
    match g.edges(petgraph::graph::NodeIndex::new(a)).next() {
        Some(e) => Some(e.id().index()),
        None => None,
    }
}

/// The node indices that `Graph::neighbors_directed(a, dir)` yields:
/// for `Outgoing` the target of each edge leaving `a`, for `Incoming` the
/// source of each edge entering `a`, once per edge.  Their order (most
/// recently added edge first) is not stated.
#[verifier::external_body]
pub(crate) fn graph_neighbors(g: &NoteDiGraph, a: usize, outgoing: bool) -> (r: Vec<usize>)
    requires
        a < graph_nodes(*g).len(),
    ensures
        forall|b: int|
            #[trigger] index_count(r@, b) == if outgoing {
                graph_edges(*g).to_multiset().count((a as int, b))
            } else {
                graph_edges(*g).to_multiset().count((b, a as int))
            },
{
    let dir = if outgoing { petgraph::Direction::Outgoing } else { petgraph::Direction::Incoming };
    let mut v = Vec::new();
    for n in g.neighbors_directed(petgraph::graph::NodeIndex::new(a), dir) {
        v.push(n.index());
    }
    v
}

/// `graph[NodeIndex::new(i)]`: the weight of node `i`.
#[verifier::external_body]
pub(crate) fn graph_node_weight(g: &NoteDiGraph, i: usize) -> (r: NoteId)
    requires
        i < graph_nodes(*g).len(),
    ensures
        r@ == graph_nodes(*g)[i as int],
{
    g[petgraph::graph::NodeIndex::new(i)]
}

/// `Graph::edge_endpoints(e)`: the source and target of edge `e`.
#[verifier::external_body]
fn graph_edge_endpoints(g: &NoteDiGraph, e: usize) -> (r: (usize, usize))
    requires
        e < graph_edges(*g).len(),
    ensures
        (r.0 as int, r.1 as int) == graph_edges(*g)[e as int],
{
    let (a, b) = g.edge_endpoints(petgraph::graph::EdgeIndex::new(e)).expect("valid edge");
    (a.index(), b.index())
}

/// How many times `b` occurs in a sequence of node indices.
pub open spec fn index_count(s: Seq<usize>, b: int) -> nat {
    s.map_values(|i: usize| i as int).to_multiset().count(b)
}

/// How many times the note id value `x` occurs in a sequence of note ids.
pub open spec fn id_count(s: Seq<NoteId>, x: u128) -> nat {
    s.map_values(|n: NoteId| n@).to_multiset().count(x)
}

/// The abstract state of a [`NoteGraph`]: note id values by node index and
/// (source, target) node indices by edge index.
pub struct GraphView {
    pub nodes: Seq<u128>,
    pub edges: Seq<(int, int)>,
}

/// The first node that holds the note id value `x`.
pub open spec fn node_pos(nodes: Seq<u128>, x: u128) -> Option<int>
    decreases nodes.len(),
{
    if nodes.len() == 0 {
        None
    } else {
        match node_pos(nodes.drop_last(), x) {
            Some(i) => Some(i),
            None => if nodes.last() == x {
                Some(nodes.len() - 1)
            } else {
                None
            },
        }
    }
}

pub proof fn lemma_node_pos(nodes: Seq<u128>, x: u128)
    ensures
        match node_pos(nodes, x) {
            Some(i) => 0 <= i < nodes.len() && nodes[i] == x && forall|k: int|
                0 <= k < i ==> #[trigger] nodes[k] != x,
            None => forall|k: int| 0 <= k < nodes.len() ==> #[trigger] nodes[k] != x,
        },
    decreases nodes.len(),
{
    if nodes.len() > 0 {
        lemma_node_pos(nodes.drop_last(), x);
        assert(forall|k: int| 0 <= k < nodes.len() - 1 ==> nodes.drop_last()[k] == #[trigger] nodes[k]);
    }
}

/// Node ids occur once each, every edge joins existing nodes, and both
/// counts stay within the `u32` indices of the graph.
pub open spec fn graph_ok(v: GraphView) -> bool {
    &&& forall|i: int, j: int|
        0 <= i < j < v.nodes.len() ==> #[trigger] v.nodes[i] != #[trigger] v.nodes[j]
    &&& forall|e: int|
        0 <= e < v.edges.len() ==> 0 <= (#[trigger] v.edges[e]).0 < v.nodes.len() && 0
            <= v.edges[e].1 < v.nodes.len()
    &&& v.nodes.len() <= index_limit()
    &&& v.edges.len() <= index_limit()
}

/// The number of links from node `a` to node `b`.
pub open spec fn link_count(v: GraphView, a: int, b: int) -> nat {
    v.edges.to_multiset().count((a, b))
}

/// How many times a note with value `x` is linked from node `a`.
pub open spec fn out_count(v: GraphView, a: int, x: u128) -> nat {
    match node_pos(v.nodes, x) {
        Some(b) => link_count(v, a, b),
        None => 0,
    }
}

/// How many times a note with value `x` links to node `a`.
pub open spec fn in_count(v: GraphView, a: int, x: u128) -> nat {
    match node_pos(v.nodes, x) {
        Some(b) => link_count(v, b, a),
        None => 0,
    }
}

/// The state after adding a note: unchanged if present, else one more node.
pub open spec fn with_note(v: GraphView, x: u128) -> GraphView {
    match node_pos(v.nodes, x) {
        Some(_) => v,
        None => GraphView { nodes: v.nodes.push(x), edges: v.edges },
    }
}

/// The state after adding a link: both notes present, one more edge.
pub open spec fn with_link(v: GraphView, from: u128, to: u128) -> GraphView {
    let w = with_note(with_note(v, from), to);
    GraphView {
        nodes: w.nodes,
        edges: w.edges.push((node_pos(w.nodes, from)->0, node_pos(w.nodes, to)->0)),
    }
}

/// Removing an element by `swap_remove` removes one occurrence of it from
/// the multiset and keeps the rest.
pub proof fn lemma_swap_removed_multiset<T>(s: Seq<T>, i: int)
    requires
        0 <= i < s.len(),
    ensures
        swap_removed(s, i).to_multiset() == s.to_multiset().remove(s[i]),
        forall|k: int|
            0 <= k < swap_removed(s, i).len() ==> s.contains(#[trigger] swap_removed(s, i)[k]),
{
    let t = s.update(i, s.last());
    vstd::seq_lib::to_multiset_update(s, i, s.last());
    vstd::seq_lib::to_multiset_remove(t, t.len() - 1);
    assert(t.drop_last() == t.remove(t.len() - 1));
    assert(s[s.len() - 1] == s.last());
    assert(s.contains(s.last()));
    assert(s.to_multiset().count(s.last()) > 0);
    assert(swap_removed(s, i).to_multiset() =~= s.to_multiset().remove(s[i]));
    assert forall|k: int| 0 <= k < swap_removed(s, i).len() implies s.contains(
        #[trigger] swap_removed(s, i)[k],
    ) by {
        if k == i {
            assert(s[s.len() - 1] == swap_removed(s, i)[k]);
        } else {
            assert(s[k] == swap_removed(s, i)[k]);
        }
    }
}

/// The graph and its index, with no invariant of their own: the operations
/// below state what they need and keep.
struct GraphParts {
    inner: NoteDiGraph,
    index_map: HashMap<u128, usize>,
}

/// A serializable snapshot of the graph for transfer to the frontend.
#[derive(Debug, Clone)]
pub struct GraphSnapshot {
    /// UUID strings — one per note node.
    pub nodes: Vec<String>,
    /// Directed wikilink pairs `(from_id, to_id)`.
    pub edges: Vec<(String, String)>,
    /// Mapping from UUID string to absolute file path (for click-to-open).
    pub id_to_path: HashMap<String, String>,
}

impl View for GraphParts {
    type V = GraphView;

    closed spec fn view(&self) -> GraphView {
        GraphView { nodes: graph_nodes(self.graph()), edges: graph_edges(self.graph()) }
    }
}

impl GraphParts {
    /// The petgraph graph inside.
    spec fn graph(&self) -> NoteDiGraph {
        self.inner
    }

    /// The index map agrees with the node weights.
    spec fn index_ok(&self) -> bool {
        let nodes = graph_nodes(self.inner);
        &&& forall|i: int|
            0 <= i < nodes.len() ==> #[trigger] self.index_map@.contains_key(nodes[i])
                && self.index_map@[nodes[i]] == i
        &&& forall|x: u128| #[trigger]
            self.index_map@.contains_key(x) ==> self.index_map@[x] < nodes.len()
                && nodes[self.index_map@[x] as int] == x
    }

    /// Well-formedness: what every operation keeps.
    spec fn wf(&self) -> bool {
        graph_ok(self@) && self.index_ok()
    }

    /// Create an empty graph.
    fn new() -> (r: Self)
        ensures
            r.wf(),
            r@.nodes == Seq::<u128>::empty(),
            r@.edges == Seq::<(int, int)>::empty(),
    {
        GraphParts { inner: graph_new(), index_map: HashMap::new() }
    }

    fn lookup(&self, x: u128) -> (r: Option<usize>)
        requires
            self.wf(),
        ensures
            crate::text::opt_int(r) == node_pos(self@.nodes, x),
    {
        proof {
            lemma_node_pos(self@.nodes, x);
        }
        match self.index_map.get(&x) {
            Some(i) => {
                let i = *i;
                proof {
                    let p = node_pos(self@.nodes, x);
                    if p != Some(i as int) {
                        assert(self@.nodes[i as int] == x);
                        assert(self@.nodes[p->0] == x);
                    }
                }
                Some(i)
            },
            None => {
                proof {
                    if node_pos(self@.nodes, x) is Some {
                        let p = node_pos(self@.nodes, x)->0;
                        assert(self.index_map@.contains_key(self@.nodes[p]));
                    }
                }
                None
            },
        }
    }

    /// Add a note node to the graph.  No-op if the note is already present.
    /// Returns the node index of the note.
    fn add_note(&mut self, id: NoteId) -> (r: usize)
        requires
            old(self).wf(),
            node_pos(old(self)@.nodes, id@) is None ==> old(self)@.nodes.len() < index_limit(),
        ensures
            final(self).wf(),
            final(self)@ == with_note(old(self)@, id@),
            node_pos(final(self)@.nodes, id@) == Some(r as int),
    {
        proof {
            lemma_node_pos(self@.nodes, id@);
        }
        match self.lookup(id.value()) {
            Some(i) => i,
            None => {
                let ghost old_nodes = self@.nodes;
                let i = graph_add_node(&mut self.inner, id);
                self.index_map.insert(id.value(), i);
                proof {
                    let nodes = self@.nodes;
                    assert(nodes == old_nodes.push(id@));
                    assert forall|k: int| 0 <= k < old_nodes.len() implies #[trigger] nodes[k] == old_nodes[k] by {}
                    lemma_node_pos(nodes, id@);
                    assert(node_pos(nodes, id@) == Some(i as int)) by {
                        assert(nodes.drop_last() == old_nodes);
                    }
                }
                i
            },
        }
    }
    /// Add a directed wikilink edge from `from` to `to`.
    ///
    /// Both notes are added to the graph if they are not already present.
    fn add_link(&mut self, from: NoteId, to: NoteId)
        requires
            old(self).wf(),
            with_note(with_note(old(self)@, from@), to@).nodes.len() <= index_limit(),
            old(self)@.edges.len() < index_limit(),
        ensures
            final(self).wf(),
            final(self)@ == with_link(old(self)@, from@, to@),
    {
        let from_idx = self.add_note(from);
        let ghost mid = self@;
        let to_idx = self.add_note(to);
        proof {
            let w = self@;
            lemma_node_pos(mid.nodes, from@);
            lemma_node_pos(w.nodes, from@);
            lemma_node_pos(w.nodes, to@);
            if w.nodes != mid.nodes {
                assert(w.nodes.drop_last() == mid.nodes);
                assert(w.nodes[from_idx as int] == from@);
            }
            assert(node_pos(w.nodes, from@) == Some(from_idx as int));
        }
        graph_add_edge(&mut self.inner, from_idx, to_idx);
    }

    /// Return the node index of a note, or `None` if it is not in the graph.
    fn node_index(&self, id: &NoteId) -> (r: Option<usize>)
        requires
            self.wf(),
        ensures
            crate::text::opt_int(r) == node_pos(self@.nodes, id@),
    {
        self.lookup(id.value())
    }

    /// Return the total number of nodes.
    fn node_count(&self) -> (r: usize)
        ensures
            r == self@.nodes.len(),
    {
        graph_node_count(&self.inner)
    }

    /// Return the total number of edges (links).
    fn edge_count(&self) -> (r: usize)
        ensures
            r == self@.edges.len(),
    {
        graph_edge_count(&self.inner)
    }
    /// Remove all outgoing edges from a given note.
    ///
    /// Used during incremental re-indexing to clear stale wikilinks before
    /// re-adding the current ones.  Nodes stay; the other links stay, though
    /// their edge indices may change.
    fn remove_note_edges(&mut self, note_id: NoteId)
        requires
            old(self).wf(),
        ensures
            final(self).wf(),
            final(self)@.nodes == old(self)@.nodes,
            match node_pos(old(self)@.nodes, note_id@) {
                None => final(self)@.edges == old(self)@.edges,
                Some(a) => final(self)@.edges.to_multiset() == old(self)@.edges.to_multiset().filter(
                    |e: (int, int)| e.0 != a,
                ),
            },
    {
        proof {
            lemma_node_pos(self@.nodes, note_id@);
        }
        match self.lookup(note_id.value()) {
            None => {},
            Some(a) => {
                let ghost keep = |e: (int, int)| e.0 != a;
                let ghost start = self@.edges.to_multiset().filter(keep);
                loop
                    invariant
                        self.wf(),
                        self@.nodes == old(self)@.nodes,
                        a < self@.nodes.len(),
                        keep == (|e: (int, int)| e.0 != a),
                        start == old(self)@.edges.to_multiset().filter(keep),
                        self@.edges.to_multiset().filter(keep) == start,
                    ensures
                        self.wf(),
                        self@.nodes == old(self)@.nodes,
                        self@.edges.to_multiset().filter(keep) == start,
                        forall|e: int|
                            0 <= e < self@.edges.len() ==> (#[trigger] self@.edges[e]).0 != a,
                    decreases self@.edges.len(),
                {
                    match graph_first_out_edge(&self.inner, a) {
                        None => break,
                        Some(e) => {
                            let ghost before = self@.edges;
                            graph_remove_edge(&mut self.inner, e);
                            proof {
                                lemma_swap_removed_multiset(before, e as int);
                                let after = self@.edges;
                                assert(after.to_multiset().filter(keep) =~= before.to_multiset().filter(keep));
                                assert forall|k: int| 0 <= k < after.len() implies 0 <= (
                                #[trigger] after[k]).0 < self@.nodes.len() && 0 <= after[k].1
                                    < self@.nodes.len() by {
                                    assert(before.contains(after[k]));
                                }
                            }
                        },
                    }
                }
                proof {
                    let edges = self@.edges;
                    assert forall|p: (int, int)| #[trigger] edges.to_multiset().count(p) > 0 implies keep(p) by {
                        assert(edges.contains(p));
                    }
                    assert(edges.to_multiset() =~= edges.to_multiset().filter(keep));
                }
            },
        }
    }

    /// Serialize the graph into a frontend-safe snapshot.
    ///
    /// Nodes are the string form of each note id, by node index; edges are
    /// `(from_id, to_id)` string pairs, by edge index.
    fn snapshot(&self) -> (r: GraphSnapshot)
        requires
            self.wf(),
        ensures
            r.nodes@.len() == self@.nodes.len(),
            forall|i: int| 0 <= i < self@.nodes.len() ==> (#[trigger] r.nodes@[i])@ == uuid_text(self@.nodes[i]),
            r.edges@.len() == self@.edges.len(),
            forall|e: int| 0 <= e < self@.edges.len() ==> {
                &&& (#[trigger] r.edges@[e]).0@ == uuid_text(self@.nodes[self@.edges[e].0])
                &&& r.edges@[e].1@ == uuid_text(self@.nodes[self@.edges[e].1])
            },
            r.id_to_path@ == Map::<String, String>::empty(),
    {
        let n = graph_node_count(&self.inner);
        let mut nodes: Vec<String> = Vec::new();
        let mut i: usize = 0;
        while i < n
            invariant
                n == self@.nodes.len(),
                i <= n,
                nodes@.len() == i,
                forall|k: int| 0 <= k < i ==> (#[trigger] nodes@[k])@ == uuid_text(self@.nodes[k]),
            decreases n - i,
        {
            nodes.push(graph_node_weight(&self.inner, i).to_string());
            i += 1;
        }
        let m = graph_edge_count(&self.inner);
        let mut edges: Vec<(String, String)> = Vec::new();
        let mut e: usize = 0;
        while e < m
            invariant
                self.wf(),
                m == self@.edges.len(),
                e <= m,
                edges@.len() == e,
                forall|k: int| 0 <= k < e ==> {
                    &&& (#[trigger] edges@[k]).0@ == uuid_text(self@.nodes[self@.edges[k].0])
                    &&& edges@[k].1@ == uuid_text(self@.nodes[self@.edges[k].1])
                },
            decreases m - e,
        {
            let (a, b) = graph_edge_endpoints(&self.inner, e);
            let from = graph_node_weight(&self.inner, a).to_string();
            let to = graph_node_weight(&self.inner, b).to_string();
            edges.push((from, to));
            e += 1;
        }
        GraphSnapshot { nodes, edges, id_to_path: HashMap::new() }
    }
}

/// A directed graph where each node is a `NoteId` and each edge is a wikilink.
///
/// `NoteGraph` is the authoritative backlink structure for the vault.  It is
/// rebuilt from scratch whenever the index is refreshed.  Every graph keeps
/// its invariant: note ids occur once each, edges join existing nodes, and
/// the index from note id to node agrees with the nodes.
pub struct NoteGraph {
    parts: GraphParts,
}

impl View for NoteGraph {
    type V = GraphView;

    open spec fn view(&self) -> GraphView {
        GraphView { nodes: graph_nodes(self.graph()), edges: graph_edges(self.graph()) }
    }
}

impl NoteGraph {
    /// The graph and index agree, and the graph is well-formed.
    #[verifier::type_invariant]
    spec fn well_formed(&self) -> bool {
        self.parts.wf()
    }

    /// The petgraph graph inside.
    pub closed spec fn graph(&self) -> NoteDiGraph {
        self.parts.inner
    }

    fn take_parts(&mut self) -> (r: GraphParts)
        ensures
            r.wf(),
            r@ == old(self)@,
    {
        proof {
            use_type_invariant(&*self);
        }
        let mut p = GraphParts::new();
        std::mem::swap(&mut p, &mut self.parts);
        p
    }

    /// Create an empty graph.
    pub fn new() -> (r: Self)
        ensures
            r@.nodes == Seq::<u128>::empty(),
            r@.edges == Seq::<(int, int)>::empty(),
    {
        NoteGraph { parts: GraphParts::new() }
    }

    /// Add a note node to the graph.  No-op if the note is already present.
    /// Returns the node index of the note.
    pub fn add_note(&mut self, id: NoteId) -> (r: usize)
        requires
            node_pos(old(self)@.nodes, id@) is None ==> old(self)@.nodes.len() < index_limit(),
        ensures
            final(self)@ == with_note(old(self)@, id@),
            node_pos(final(self)@.nodes, id@) == Some(r as int),
    {
        let mut p = self.take_parts();
        let r = p.add_note(id);
        self.parts = p;
        r
    }

    /// Add a directed wikilink edge from `from` to `to`.
    ///
    /// Both notes are added to the graph if they are not already present.
    pub fn add_link(&mut self, from: NoteId, to: NoteId)
        requires
            with_note(with_note(old(self)@, from@), to@).nodes.len() <= index_limit(),
            old(self)@.edges.len() < index_limit(),
        ensures
            final(self)@ == with_link(old(self)@, from@, to@),
    {
        let mut p = self.take_parts();
        p.add_link(from, to);
        self.parts = p;
    }

    /// Return the node index of a note, or `None` if it is not in the graph.
    pub fn node_index(&self, id: &NoteId) -> (r: Option<usize>)
        ensures
            crate::text::opt_int(r) == node_pos(self@.nodes, id@),
            graph_ok(self@),
    {
        proof {
            use_type_invariant(self);
        }
        self.parts.node_index(id)
    }

    /// Return a reference to the underlying petgraph.
    pub fn inner(&self) -> (r: &NoteDiGraph)
        ensures
            *r == self.graph(),
    {
        &self.parts.inner
    }

    /// Return the total number of nodes.
    pub fn node_count(&self) -> (r: usize)
        ensures
            r == self@.nodes.len(),
    {
        self.parts.node_count()
    }

    /// Return the total number of edges (links).
    pub fn edge_count(&self) -> (r: usize)
        ensures
            r == self@.edges.len(),
    {
        self.parts.edge_count()
    }

    /// Remove all outgoing edges from a given note.
    ///
    /// Used during incremental re-indexing to clear stale wikilinks before
    /// re-adding the current ones.  Nodes stay; the other links stay, though
    /// their edge indices may change.
    pub fn remove_note_edges(&mut self, note_id: NoteId)
        ensures
            final(self)@.nodes == old(self)@.nodes,
            match node_pos(old(self)@.nodes, note_id@) {
                None => final(self)@.edges == old(self)@.edges,
                Some(a) => final(self)@.edges.to_multiset() == old(self)@.edges.to_multiset().filter(
                    |e: (int, int)| e.0 != a,
                ),
            },
    {
        let mut p = self.take_parts();
        p.remove_note_edges(note_id);
        self.parts = p;
    }

    /// Serialize the graph into a frontend-safe snapshot.
    ///
    /// Nodes are the string form of each note id, by node index; edges are
    /// `(from_id, to_id)` string pairs, by edge index.
    pub fn snapshot(&self) -> (r: GraphSnapshot)
        ensures
            r.nodes@.len() == self@.nodes.len(),
            forall|i: int| 0 <= i < self@.nodes.len() ==> (#[trigger] r.nodes@[i])@ == uuid_text(self@.nodes[i]),
            r.edges@.len() == self@.edges.len(),
            forall|e: int| 0 <= e < self@.edges.len() ==> {
                &&& (#[trigger] r.edges@[e]).0@ == uuid_text(self@.nodes[self@.edges[e].0])
                &&& r.edges@[e].1@ == uuid_text(self@.nodes[self@.edges[e].1])
            },
            r.id_to_path@ == Map::<String, String>::empty(),
    {
        proof {
            use_type_invariant(self);
        }
        self.parts.snapshot()
    }
}

impl Default for NoteGraph {
    /// An empty graph, as [`NoteGraph::new`].
    fn default() -> (r: Self)
        ensures
            r@.nodes == Seq::<u128>::empty(),
            r@.edges == Seq::<(int, int)>::empty(),
    {
        Self::new()
    }
}

} // verus!
