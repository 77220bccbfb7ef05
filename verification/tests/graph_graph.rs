use forgexalith::graph::NoteGraph;
use forgexalith::ids::NoteId;

#[test]
fn test_new_empty_graph() {
    // Creating a new graph should result in an empty graph with 0 nodes and 0 edges
    let graph = NoteGraph::new();
    assert_eq!(graph.node_count(), 0);
    assert_eq!(graph.edge_count(), 0);
}

#[test]
fn test_default_identical_to_new() {
    // Default impl should be identical to new()
    let graph = NoteGraph::default();
    assert_eq!(graph.node_count(), 0);
    assert_eq!(graph.edge_count(), 0);
}

#[test]
fn test_add_single_note() {
    // Adding a single note should increase node_count to 1
    let mut graph = NoteGraph::new();
    let id = NoteId::new();
    graph.add_note(id);
    assert_eq!(graph.node_count(), 1);
    assert_eq!(graph.edge_count(), 0);
}

#[test]
fn test_add_duplicate_note() {
    // Adding the same note twice should not increase node_count beyond 1
    let mut graph = NoteGraph::new();
    let id = NoteId::new();
    graph.add_note(id);
    graph.add_note(id);
    assert_eq!(graph.node_count(), 1);
    assert_eq!(graph.edge_count(), 0);
}

#[test]
fn test_add_multiple_distinct_notes() {
    // Adding multiple distinct notes should increase node_count accordingly
    let mut graph = NoteGraph::new();
    let id1 = NoteId::new();
    let id2 = NoteId::new();
    let id3 = NoteId::new();
    graph.add_note(id1);
    graph.add_note(id2);
    graph.add_note(id3);
    assert_eq!(graph.node_count(), 3);
    assert_eq!(graph.edge_count(), 0);
}

#[test]
fn test_add_link_between_two_notes() {
    // Adding a link from A to B should create an edge
    let mut graph = NoteGraph::new();
    let id_a = NoteId::new();
    let id_b = NoteId::new();
    graph.add_link(id_a, id_b);
    assert_eq!(graph.node_count(), 2);
    assert_eq!(graph.edge_count(), 1);
}

#[test]
fn test_add_link_auto_creates_notes() {
    // add_link should automatically create notes if they don't exist
    let mut graph = NoteGraph::new();
    let id_a = NoteId::new();
    let id_b = NoteId::new();
    graph.add_link(id_a, id_b);
    assert!(graph.node_index(&id_a).is_some());
    assert!(graph.node_index(&id_b).is_some());
}

#[test]
fn test_add_multiple_links() {
    // Adding multiple distinct links should increase edge_count
    let mut graph = NoteGraph::new();
    let id_a = NoteId::new();
    let id_b = NoteId::new();
    let id_c = NoteId::new();
    graph.add_link(id_a, id_b);
    graph.add_link(id_b, id_c);
    graph.add_link(id_c, id_a);
    assert_eq!(graph.node_count(), 3);
    assert_eq!(graph.edge_count(), 3);
}

#[test]
fn test_add_duplicate_link() {
    // Adding the same link twice creates two edges (parallel edges are kept)
    let mut graph = NoteGraph::new();
    let id_a = NoteId::new();
    let id_b = NoteId::new();
    graph.add_link(id_a, id_b);
    graph.add_link(id_a, id_b);
    assert_eq!(graph.edge_count(), 2);
}

#[test]
fn test_node_index_existing_note() {
    // node_index should return Some for a note that exists
    let mut graph = NoteGraph::new();
    let id = NoteId::new();
    graph.add_note(id);
    assert!(graph.node_index(&id).is_some());
}

#[test]
fn test_node_index_nonexistent_note() {
    // node_index should return None for a note that does not exist
    let graph = NoteGraph::new();
    let id = NoteId::new();
    assert!(graph.node_index(&id).is_none());
}

#[test]
fn test_snapshot_empty_graph() {
    // Snapshot of empty graph should have empty nodes and edges vectors
    let graph = NoteGraph::new();
    let snap = graph.snapshot();
    assert_eq!(snap.nodes.len(), 0);
    assert_eq!(snap.edges.len(), 0);
}

#[test]
fn test_snapshot_single_node() {
    // Snapshot of graph with one node should contain one node string
    let mut graph = NoteGraph::new();
    let id = NoteId::new();
    graph.add_note(id);
    let snap = graph.snapshot();
    assert_eq!(snap.nodes.len(), 1);
    assert_eq!(snap.edges.len(), 0);
    assert_eq!(snap.nodes[0], id.to_string());
}

#[test]
fn test_snapshot_single_link() {
    // Snapshot of graph with one link should contain two nodes and one edge
    let mut graph = NoteGraph::new();
    let id_a = NoteId::new();
    let id_b = NoteId::new();
    graph.add_link(id_a, id_b);
    let snap = graph.snapshot();
    assert_eq!(snap.nodes.len(), 2);
    assert_eq!(snap.edges.len(), 1);
    assert!(snap.nodes.contains(&id_a.to_string()));
    assert!(snap.nodes.contains(&id_b.to_string()));
    assert_eq!(snap.edges[0], (id_a.to_string(), id_b.to_string()));
}

#[test]
fn test_snapshot_complex_graph() {
    // Snapshot of complex graph should serialize all nodes and edges correctly
    let mut graph = NoteGraph::new();
    let id_a = NoteId::new();
    let id_b = NoteId::new();
    let id_c = NoteId::new();
    graph.add_link(id_a, id_b);
    graph.add_link(id_b, id_c);
    graph.add_link(id_c, id_a);
    let snap = graph.snapshot();
    assert_eq!(snap.nodes.len(), 3);
    assert_eq!(snap.edges.len(), 3);
    assert!(snap.nodes.contains(&id_a.to_string()));
    assert!(snap.nodes.contains(&id_b.to_string()));
    assert!(snap.nodes.contains(&id_c.to_string()));
    let edges_set: std::collections::HashSet<_> = snap.edges.iter().cloned().collect();
    assert!(edges_set.contains(&(id_a.to_string(), id_b.to_string())));
    assert!(edges_set.contains(&(id_b.to_string(), id_c.to_string())));
    assert!(edges_set.contains(&(id_c.to_string(), id_a.to_string())));
}

#[test]
fn test_add_note_returns_node_index() {
    // add_note should return a valid node index
    let mut graph = NoteGraph::new();
    let id = NoteId::new();
    let idx = graph.add_note(id);
    assert_eq!(graph.node_index(&id), Some(idx));
}

#[test]
fn test_add_note_duplicate_returns_same_index() {
    // Adding the same note twice should return the same node index
    let mut graph = NoteGraph::new();
    let id = NoteId::new();
    let idx1 = graph.add_note(id);
    let idx2 = graph.add_note(id);
    assert_eq!(idx1, idx2);
}

/// Node indices are handed out in order of first addition.
#[test]
fn graph_node_indices_follow_insertion_order() {
    let mut graph = NoteGraph::new();
    let a = NoteId::new();
    let b = NoteId::new();
    assert_eq!(graph.add_note(a), 0);
    assert_eq!(graph.add_note(b), 1);
    assert_eq!(graph.add_note(a), 0);
    graph.add_link(b, NoteId::new());
    assert_eq!(graph.node_count(), 3);
}

/// Snapshot nodes and edges come in index order, as text.
#[test]
fn graph_snapshot_is_in_index_order() {
    let mut graph = NoteGraph::new();
    let a = NoteId::new();
    let b = NoteId::new();
    let c = NoteId::new();
    graph.add_link(a, b);
    graph.add_link(c, a);
    let snap = graph.snapshot();
    assert_eq!(snap.nodes, vec![a.to_string(), b.to_string(), c.to_string()]);
    assert_eq!(
        snap.edges,
        vec![(a.to_string(), b.to_string()), (c.to_string(), a.to_string())]
    );
    assert!(snap.id_to_path.is_empty());
}

/// Removing a note's outgoing links keeps its node and the other links.
#[test]
fn graph_remove_note_edges_keeps_other_links() {
    let mut graph = NoteGraph::new();
    let a = NoteId::new();
    let b = NoteId::new();
    let c = NoteId::new();
    graph.add_link(a, b);
    graph.add_link(b, c);
    graph.add_link(a, c);
    graph.add_link(c, a);
    graph.add_link(a, a);
    graph.remove_note_edges(a);
    assert_eq!(graph.node_count(), 3);
    assert_eq!(graph.edge_count(), 2);
    let snap = graph.snapshot();
    let mut edges = snap.edges.clone();
    edges.sort();
    let mut expected = vec![(b.to_string(), c.to_string()), (c.to_string(), a.to_string())];
    expected.sort();
    assert_eq!(edges, expected);
    assert!(forgexalith::query::forward_links(&graph, &a).unwrap().is_empty());
}

/// Removing the links of an unknown note changes nothing.
#[test]
fn graph_remove_note_edges_of_unknown_note() {
    let mut graph = NoteGraph::new();
    let a = NoteId::new();
    let b = NoteId::new();
    graph.add_link(a, b);
    graph.remove_note_edges(NoteId::new());
    assert_eq!(graph.node_count(), 2);
    assert_eq!(graph.edge_count(), 1);
}

/// After links were removed and swapped around, removing the outgoing links
/// of another note still removes exactly those.
#[test]
fn graph_remove_note_edges_after_earlier_removal() {
    let mut graph = NoteGraph::new();
    let a = NoteId::new();
    let b = NoteId::new();
    let c = NoteId::new();
    graph.add_link(b, a);
    graph.add_link(a, b);
    graph.add_link(c, b);
    graph.add_link(b, c);
    graph.add_link(c, a);
    graph.remove_note_edges(a);
    graph.remove_note_edges(b);
    assert_eq!(graph.edge_count(), 2);
    let fwd_c = forgexalith::query::forward_links(&graph, &c).unwrap();
    assert_eq!(fwd_c.len(), 2);
    assert!(fwd_c.contains(&a));
    assert!(fwd_c.contains(&b));
    assert!(forgexalith::query::forward_links(&graph, &b).unwrap().is_empty());
}
