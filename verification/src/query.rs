//! Backlink and forward-link queries on the `NoteGraph`, and the error they
//! report for an unknown note.
use vstd::prelude::*;
use crate::errors::concat3;
use crate::graph::{
    graph_neighbors, graph_node_weight, graph_ok, id_count, in_count, index_count, link_count,
    lemma_node_pos, node_pos, out_count, with_link, with_note, GraphView, NoteGraph,
};
use crate::ids::{uuid_text, NoteId};

verus! {

broadcast use {vstd::seq_lib::group_to_multiset_ensures, vstd::multiset::group_multiset_axioms};

/// Error type of the graph queries.
#[derive(Debug)]
pub enum GraphError {
    /// A queried note is not present in the graph.
    NoteNotFound { id: NoteId },
}

/// The message of a graph error.
pub open spec fn graph_error_text(e: GraphError) -> Seq<char> {
    match e {
        GraphError::NoteNotFound { id } => "note "@ + uuid_text(id@) + " not found in graph"@,
    }
}

impl GraphError {
    /// The error message: `note {id} not found in graph`.
    pub fn to_string(&self) -> (r: String)
        ensures
            r@ == graph_error_text(*self),
    {
        match self {
            GraphError::NoteNotFound { id } => {
                let s = id.to_string();
                concat3("note ", s.as_str(), " not found in graph")
            },
        }
    }
}

/// Mapping node indices to the note ids they hold keeps the counts: a note
/// id occurs as often as its node index did.
proof fn lemma_ids_of_indices(s: Seq<usize>, v: GraphView, x: u128)
    requires
        graph_ok(v),
        forall|k: int| 0 <= k < s.len() ==> (#[trigger] s[k]) < v.nodes.len(),
    ensures
        s.map_values(|i: usize| v.nodes[i as int]).to_multiset().count(x) == match node_pos(
            v.nodes,
            x,
        ) {
            Some(b) => index_count(s, b),
            None => 0,
        },
    decreases s.len(),
{
    lemma_node_pos(v.nodes, x);
    if s.len() > 0 {
        let t = s.drop_last();
        let i = s.last();
        lemma_ids_of_indices(t, v, x);
        assert(s == t.push(i));
        assert(s.map_values(|i: usize| v.nodes[i as int]) == t.map_values(
            |i: usize| v.nodes[i as int],
        ).push(v.nodes[i as int]));
        assert(s.map_values(|i: usize| i as int) == t.map_values(|i: usize| i as int).push(
            i as int,
        ));
        if v.nodes[i as int] == x {
            assert(node_pos(v.nodes, x) == Some(i as int));
        }
    } else {
        assert(s.map_values(|i: usize| v.nodes[i as int]).to_multiset() =~= vstd::multiset::Multiset::empty());
        assert(s.map_values(|i: usize| i as int).to_multiset() =~= vstd::multiset::Multiset::empty());
    }
}

/// Each neighbor index names a node: it is an endpoint of some edge.
proof fn lemma_neighbor_in_range(v: GraphView, a: int, b: int, outgoing: bool)
    requires
        graph_ok(v),
        (if outgoing { link_count(v, a, b) } else { link_count(v, b, a) }) > 0,
    ensures
        0 <= b < v.nodes.len(),
{
    let p = if outgoing { (a, b) } else { (b, a) };
    assert(v.edges.contains(p));
    let e = choose|e: int| 0 <= e < v.edges.len() && v.edges[e] == p;
    assert(0 <= v.edges[e].0 < v.nodes.len());
}

/// The notes at the other end of the edges of node `a`: their targets
/// (`outgoing`) or their sources, once per edge.
fn neighbor_ids(graph: &NoteGraph, a: usize, outgoing: bool) -> (r: Vec<NoteId>)
    requires
        graph_ok(graph@),
        a < graph@.nodes.len(),
    ensures
        forall|x: u128| #[trigger]
            id_count(r@, x) == if outgoing {
                out_count(graph@, a as int, x)
            } else {
                in_count(graph@, a as int, x)
            },
{
    let g = graph.inner();
    let ns = graph_neighbors(g, a, outgoing);
    let ghost v = graph@;
    proof {
        assert forall|j: int| 0 <= j < ns@.len() implies (#[trigger] ns@[j]) < v.nodes.len() by {
            let b = ns@[j] as int;
            let m = ns@.map_values(|i: usize| i as int);
            assert(m[j] == b);
            assert(m.contains(b));
            assert(index_count(ns@, b) > 0);
            lemma_neighbor_in_range(v, a as int, b, outgoing);
        }
    }
    let mut out: Vec<NoteId> = Vec::new();
    let mut k: usize = 0;
    while k < ns.len()
        invariant
            v == graph@,
            graph_ok(v),
            *g == graph.graph(),
            k <= ns@.len(),
            forall|j: int| 0 <= j < ns@.len() ==> (#[trigger] ns@[j]) < v.nodes.len(),
            out@.map_values(|n: NoteId| n@) == ns@.take(k as int).map_values(
                |i: usize| v.nodes[i as int],
            ),
        decreases ns.len() - k,
    {
        let n = graph_node_weight(g, ns[k]);
        let ghost before = out@;
        out.push(n);
        proof {
            assert(n@ == v.nodes[ns@[k as int] as int]);
            assert(out@ == before.push(n));
            assert(out@.map_values(|n: NoteId| n@) =~= before.map_values(|n: NoteId| n@).push(n@));
            assert(ns@.take(k + 1) == ns@.take(k as int).push(ns@[k as int]));
            assert(out@.map_values(|n: NoteId| n@) =~= ns@.take(k + 1).map_values(
                |i: usize| v.nodes[i as int],
            ));
        }
        k += 1;
    }
    proof {
        assert(ns@.take(ns@.len() as int) == ns@);
        assert forall|x: u128| #[trigger]
            id_count(out@, x) == if outgoing {
                out_count(v, a as int, x)
            } else {
                in_count(v, a as int, x)
            } by {
            lemma_ids_of_indices(ns@, v, x);
        }
    }
    out
}

/// Return all notes that link *to* the given note (backlinks), once per
/// link.
///
/// # Errors
/// Returns [`GraphError::NoteNotFound`] if `id` is not in the graph.
pub fn backlinks(graph: &NoteGraph, id: &NoteId) -> (r: Result<Vec<NoteId>, GraphError>)
    ensures
        match node_pos(graph@.nodes, id@) {
            None => r == Err::<Vec<NoteId>, GraphError>(GraphError::NoteNotFound { id: *id }),
            Some(a) => r is Ok && forall|x: u128| #[trigger]
                id_count(r->Ok_0@, x) == in_count(graph@, a, x),
        },
{
    proof {
        lemma_node_pos(graph@.nodes, id@);
    }
    match graph.node_index(id) {
        None => Err(GraphError::NoteNotFound { id: *id }),
        Some(idx) => Ok(neighbor_ids(graph, idx, false)),
    }
}

/// Return all notes that the given note links *to* (forward links), once
/// per link.
///
/// # Errors
/// Returns [`GraphError::NoteNotFound`] if `id` is not in the graph.
pub fn forward_links(graph: &NoteGraph, id: &NoteId) -> (r: Result<Vec<NoteId>, GraphError>)
    ensures
        match node_pos(graph@.nodes, id@) {
            None => r == Err::<Vec<NoteId>, GraphError>(GraphError::NoteNotFound { id: *id }),
            Some(a) => r is Ok && forall|x: u128| #[trigger]
                id_count(r->Ok_0@, x) == out_count(graph@, a, x),
        },
{
    proof {
        lemma_node_pos(graph@.nodes, id@);
    }
    match graph.node_index(id) {
        None => Err(GraphError::NoteNotFound { id: *id }),
        Some(idx) => Ok(neighbor_ids(graph, idx, true)),
    }
}

/// Links read the same from both ends: a note `y` occurs among the forward
/// links of `x` exactly as often as `x` occurs among the backlinks of `y`.
pub proof fn law_forward_backward_symmetry(v: GraphView, x: u128, y: u128)
    requires
        node_pos(v.nodes, x) is Some,
        node_pos(v.nodes, y) is Some,
    ensures
        out_count(v, node_pos(v.nodes, x)->0, y) == in_count(v, node_pos(v.nodes, y)->0, x),
{
}

/// Adding a note that is already present changes nothing; adding one twice
/// is the same as adding it once.
pub proof fn law_add_note_idempotent(v: GraphView, x: u128)
    ensures
        with_note(with_note(v, x), x) == with_note(v, x),
        node_pos(with_note(v, x).nodes, x) is Some,
{
    lemma_node_pos(v.nodes, x);
    if node_pos(v.nodes, x) is None {
        let w = with_note(v, x);
        assert(w.nodes.drop_last() == v.nodes);
        assert(node_pos(w.nodes, x) == Some(v.nodes.len() as int));
    }
}

/// Adding a link from `from` to `to` makes `to` occur once more among the
/// forward links of `from`, and `from` once more among the backlinks of
/// `to`; every other count stays as it was after adding the two notes.
pub proof fn law_add_link_counts(v: GraphView, from: u128, to: u128, a: int, y: u128)
    requires
        graph_ok(v),
    ensures
        ({
            let w = with_note(with_note(v, from), to);
            let l = with_link(v, from, to);
            let f = node_pos(w.nodes, from)->0;
            let t = node_pos(w.nodes, to)->0;
            &&& out_count(l, f, to) == out_count(w, f, to) + 1
            &&& in_count(l, t, from) == in_count(w, t, from) + 1
            &&& (a != f || y != to) && node_pos(w.nodes, y) is Some ==> out_count(l, a, y)
                == out_count(w, a, y)
        }),
{
    law_add_note_idempotent(v, from);
    law_add_note_idempotent(with_note(v, from), to);
    let u = with_note(v, from);
    let w = with_note(u, to);
    lemma_node_pos(u.nodes, from);
    lemma_node_pos(w.nodes, from);
    lemma_node_pos(w.nodes, to);
    if w.nodes != u.nodes {
        assert(w.nodes.drop_last() == u.nodes);
    }
    assert(node_pos(w.nodes, from) is Some);
    let l = with_link(v, from, to);
    assert(l.nodes == w.nodes);
    lemma_node_pos(w.nodes, y);
}

/// After the outgoing links of node `a` are removed (the edge multiset
/// filtered as `remove_note_edges` leaves it), `a` has no forward links and
/// every other note keeps its forward links.
pub proof fn law_removed_edges(v: GraphView, w: GraphView, a: int, b: int, y: u128)
    requires
        w.nodes == v.nodes,
        w.edges.to_multiset() == v.edges.to_multiset().filter(|e: (int, int)| e.0 != a),
    ensures
        out_count(w, a, y) == 0,
        b != a ==> out_count(w, b, y) == out_count(v, b, y),
{
}

/// One call that grows a graph: `add_note` or `add_link`.
pub enum GraphStep {
    AddNote(u128),
    AddLink(u128, u128),
}

/// The state after one step.
pub open spec fn apply_step(v: GraphView, s: GraphStep) -> GraphView {
    match s {
        GraphStep::AddNote(x) => with_note(v, x),
        GraphStep::AddLink(f, t) => with_link(v, f, t),
    }
}

/// The graph that the steps, taken one after the other from an empty graph
/// (`NoteGraph::new`), build.
pub open spec fn built(steps: Seq<GraphStep>) -> GraphView
    decreases steps.len(),
{
    if steps.len() == 0 {
        GraphView { nodes: seq![], edges: seq![] }
    } else {
        apply_step(built(steps.drop_last()), steps.last())
    }
}

/// Whether a step names a note: the note it adds, or either end of the
/// link it adds.
pub open spec fn is_end(s: GraphStep, x: u128) -> bool {
    match s {
        GraphStep::AddNote(y) => y == x,
        GraphStep::AddLink(f, t) => f == x || t == x,
    }
}

/// Whether some step names a note.
pub open spec fn mentions(steps: Seq<GraphStep>, x: u128) -> bool {
    exists|i: int| 0 <= i < steps.len() && #[trigger] is_end(steps[i], x)
}

/// Note ids occur once each and every edge joins existing nodes.
pub open spec fn shaped(v: GraphView) -> bool {
    &&& forall|i: int, j: int|
        0 <= i < j < v.nodes.len() ==> #[trigger] v.nodes[i] != #[trigger] v.nodes[j]
    &&& forall|e: int|
        0 <= e < v.edges.len() ==> 0 <= (#[trigger] v.edges[e]).0 < v.nodes.len() && 0
            <= v.edges[e].1 < v.nodes.len()
}

proof fn lemma_with_note(v: GraphView, z: u128, x: u128)
    requires
        shaped(v),
    ensures
        shaped(with_note(v, z)),
        with_note(v, z).edges == v.edges,
        with_note(v, z).nodes.len() >= v.nodes.len(),
        forall|k: int| 0 <= k < v.nodes.len() ==> #[trigger] with_note(v, z).nodes[k] == v.nodes[k],
        node_pos(with_note(v, z).nodes, x) == if node_pos(v.nodes, x) is Some {
            node_pos(v.nodes, x)
        } else if x == z {
            Some(v.nodes.len() as int)
        } else {
            None::<int>
        },
{
    lemma_node_pos(v.nodes, z);
    lemma_node_pos(v.nodes, x);
    let w = with_note(v, z);
    lemma_node_pos(w.nodes, x);
    if node_pos(v.nodes, z) is None {
        assert(w.nodes.drop_last() == v.nodes);
        assert forall|i: int, j: int| 0 <= i < j < w.nodes.len() implies #[trigger] w.nodes[i]
            != #[trigger] w.nodes[j] by {
            if j == v.nodes.len() {
                assert(w.nodes[i] == v.nodes[i]);
            }
        }
    }
}

/// Two positions of a shaped graph's nodes that hold the same note are the
/// same position.
proof fn lemma_same_node(v: GraphView, a: int, b: int)
    requires
        shaped(v),
        0 <= a < v.nodes.len(),
        0 <= b < v.nodes.len(),
        v.nodes[a] == v.nodes[b],
    ensures
        a == b,
{
    if a < b {
        assert(v.nodes[a] != v.nodes[b]);
    } else if b < a {
        assert(v.nodes[b] != v.nodes[a]);
    }
}

/// A link whose ends are not both present was never added.
proof fn lemma_absent_link(steps: Seq<GraphStep>, na: u128, nb: u128)
    requires
        forall|x: u128| (#[trigger] node_pos(built(steps).nodes, x) is Some) == mentions(steps, x),
        steps.to_multiset().count(GraphStep::AddLink(na, nb)) > 0,
    ensures
        node_pos(built(steps).nodes, na) is Some,
        node_pos(built(steps).nodes, nb) is Some,
{
    assert(steps.contains(GraphStep::AddLink(na, nb)));
    let i = choose|i: int| 0 <= i < steps.len() && steps[i] == GraphStep::AddLink(na, nb);
    assert(is_end(steps[i], na) && is_end(steps[i], nb));
}

proof fn lemma_built(steps: Seq<GraphStep>)
    ensures
        shaped(built(steps)),
        forall|x: u128| (#[trigger] node_pos(built(steps).nodes, x) is Some) == mentions(steps, x),
        forall|a: int, b: int|
            0 <= a < built(steps).nodes.len() && 0 <= b < built(steps).nodes.len() ==> #[trigger]
                link_count(built(steps), a, b) == steps.to_multiset().count(
                GraphStep::AddLink(built(steps).nodes[a], built(steps).nodes[b]),
            ),
    decreases steps.len(),
{
    if steps.len() == 0 {
        assert forall|x: u128| (#[trigger] node_pos(built(steps).nodes, x) is Some) == mentions(
            steps,
            x,
        ) by {}
    } else {
        let lp = steps.drop_last();
        let st = steps.last();
        lemma_built(lp);
        let v = built(lp);
        let l = built(steps);
        assert(steps == lp.push(st));
        assert forall|x: u128| #[trigger] mentions(steps, x) == (mentions(lp, x) || is_end(st, x)) by {
            if mentions(steps, x) {
                let i = choose|i: int| 0 <= i < steps.len() && #[trigger] is_end(steps[i], x);
                if i < lp.len() {
                    assert(lp[i] == steps[i]);
                    assert(is_end(lp[i], x));
                }
            }
            if mentions(lp, x) {
                let i = choose|i: int| 0 <= i < lp.len() && #[trigger] is_end(lp[i], x);
                assert(steps[i] == lp[i]);
                assert(is_end(steps[i], x));
            }
            if is_end(st, x) {
                assert(steps[steps.len() - 1] == st);
                assert(is_end(steps[steps.len() - 1], x));
            }
        }
        match st {
            GraphStep::AddNote(z) => {
                lemma_with_note(v, z, z);
                assert(l == with_note(v, z));
                assert forall|x: u128| (#[trigger] node_pos(l.nodes, x) is Some) == mentions(
                    steps,
                    x,
                ) by {
                    lemma_with_note(v, z, x);
                }
                assert forall|a: int, b: int|
                    0 <= a < l.nodes.len() && 0 <= b < l.nodes.len() implies #[trigger] link_count(
                    l,
                    a,
                    b,
                ) == steps.to_multiset().count(GraphStep::AddLink(l.nodes[a], l.nodes[b])) by {
                    let na = l.nodes[a];
                    let nb = l.nodes[b];
                    assert(steps.to_multiset().count(GraphStep::AddLink(na, nb))
                        == lp.to_multiset().count(GraphStep::AddLink(na, nb)));
                    assert(link_count(l, a, b) == link_count(v, a, b));
                    if a < v.nodes.len() && b < v.nodes.len() {
                        assert(v.nodes[a] == na && v.nodes[b] == nb);
                        assert(link_count(v, a, b) == lp.to_multiset().count(
                            GraphStep::AddLink(na, nb),
                        ));
                    } else {
                        assert(v.edges.to_multiset().count((a, b)) == 0) by {
                            if v.edges.to_multiset().count((a, b)) > 0 {
                                assert(v.edges.contains((a, b)));
                                let e = choose|e: int| 0 <= e < v.edges.len() && v.edges[e] == (a, b);
                                assert(0 <= v.edges[e].0 < v.nodes.len());
                            }
                        }
                        if lp.to_multiset().count(GraphStep::AddLink(na, nb)) > 0 {
                            lemma_absent_link(lp, na, nb);
                            lemma_node_pos(v.nodes, na);
                            lemma_node_pos(v.nodes, nb);
                            let pa = node_pos(v.nodes, na)->0;
                            let pb = node_pos(v.nodes, nb)->0;
                            assert(l.nodes[pa] == na);
                            assert(l.nodes[pb] == nb);
                            lemma_same_node(l, a, pa);
                            lemma_same_node(l, b, pb);
                        }
                    }
                }
            },
            GraphStep::AddLink(f, t) => {
                let u = with_note(v, f);
                let w = with_note(u, t);
                lemma_with_note(v, f, f);
                lemma_with_note(u, t, f);
                lemma_with_note(u, t, t);
                let pf = node_pos(w.nodes, f)->0;
                let pt = node_pos(w.nodes, t)->0;
                lemma_node_pos(w.nodes, f);
                lemma_node_pos(w.nodes, t);
                assert(l.nodes == w.nodes);
                assert(l.edges == v.edges.push((pf, pt)));
                assert forall|x: u128| (#[trigger] node_pos(l.nodes, x) is Some) == mentions(
                    steps,
                    x,
                ) by {
                    lemma_with_note(v, f, x);
                    lemma_with_note(u, t, x);
                }
                assert forall|e: int| 0 <= e < l.edges.len() implies 0 <= (#[trigger] l.edges[e]).0
                    < l.nodes.len() && 0 <= l.edges[e].1 < l.nodes.len() by {
                    if e < v.edges.len() {
                        assert(l.edges[e] == v.edges[e]);
                    }
                }
                assert forall|a: int, b: int|
                    0 <= a < l.nodes.len() && 0 <= b < l.nodes.len() implies #[trigger] link_count(
                    l,
                    a,
                    b,
                ) == steps.to_multiset().count(GraphStep::AddLink(l.nodes[a], l.nodes[b])) by {
                    let na = l.nodes[a];
                    let nb = l.nodes[b];
                    assert(link_count(l, a, b) == v.edges.to_multiset().count((a, b)) + if (a, b)
                        == (pf, pt) {
                        1int
                    } else {
                        0int
                    });
                    assert(steps.to_multiset().count(GraphStep::AddLink(na, nb))
                        == lp.to_multiset().count(GraphStep::AddLink(na, nb)) + if (na, nb) == (
                        f,
                        t,
                    ) {
                        1int
                    } else {
                        0int
                    });
                    assert(((a, b) == (pf, pt)) == ((na, nb) == (f, t))) by {
                        if na == f {
                            assert(w.nodes[pf] == f);
                            lemma_same_node(l, a, pf);
                        }
                        if nb == t {
                            assert(w.nodes[pt] == t);
                            lemma_same_node(l, b, pt);
                        }
                    }
                    if a < v.nodes.len() && b < v.nodes.len() {
                        assert(v.nodes[a] == na && v.nodes[b] == nb);
                        assert(link_count(v, a, b) == lp.to_multiset().count(
                            GraphStep::AddLink(na, nb),
                        ));
                    } else {
                        assert(v.edges.to_multiset().count((a, b)) == 0) by {
                            if v.edges.to_multiset().count((a, b)) > 0 {
                                assert(v.edges.contains((a, b)));
                                let e = choose|e: int| 0 <= e < v.edges.len() && v.edges[e] == (a, b);
                                assert(0 <= v.edges[e].0 < v.nodes.len());
                            }
                        }
                        if lp.to_multiset().count(GraphStep::AddLink(na, nb)) > 0 {
                            lemma_absent_link(lp, na, nb);
                            lemma_node_pos(v.nodes, na);
                            lemma_node_pos(v.nodes, nb);
                            let pa = node_pos(v.nodes, na)->0;
                            let pb = node_pos(v.nodes, nb)->0;
                            assert(l.nodes[pa] == na);
                            assert(l.nodes[pb] == nb);
                            lemma_same_node(l, a, pa);
                            lemma_same_node(l, b, pb);
                        }
                    }
                }
            },
        }
    }
}

/// What the queries read back of the steps taken: in a graph built from an
/// empty one (`NoteGraph::new`) by `add_note` and `add_link` calls, a note
/// is present exactly when a step names it, so `backlinks` and
/// `forward_links` fail exactly on the others; and `y` occurs among the
/// forward links of `x`, and `x` among the backlinks of `y` (the counts
/// `out_count` and `in_count` that those functions return), exactly as
/// often as the link from `x` to `y` was added.
pub proof fn law_built_graph_counts(steps: Seq<GraphStep>, x: u128, y: u128)
    ensures
        (node_pos(built(steps).nodes, x) is Some) == mentions(steps, x),
        node_pos(built(steps).nodes, x) is Some ==> out_count(
            built(steps),
            node_pos(built(steps).nodes, x)->0,
            y,
        ) == steps.to_multiset().count(GraphStep::AddLink(x, y)),
        node_pos(built(steps).nodes, y) is Some ==> in_count(
            built(steps),
            node_pos(built(steps).nodes, y)->0,
            x,
        ) == steps.to_multiset().count(GraphStep::AddLink(x, y)),
{
    lemma_built(steps);
    let v = built(steps);
    lemma_node_pos(v.nodes, x);
    lemma_node_pos(v.nodes, y);
    if steps.to_multiset().count(GraphStep::AddLink(x, y)) > 0 {
        lemma_absent_link(steps, x, y);
    }
    if node_pos(v.nodes, x) is Some && node_pos(v.nodes, y) is Some {
        let a = node_pos(v.nodes, x)->0;
        let b = node_pos(v.nodes, y)->0;
        assert(link_count(v, a, b) == steps.to_multiset().count(
            GraphStep::AddLink(v.nodes[a], v.nodes[b]),
        ));
    }
}

} // verus!
