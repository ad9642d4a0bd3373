//! Trusted surface over petgraph's `Graph`, the container the layout
//! engine reads. The graph's contents are named by two spec functions:
//! its node count and its edge list (pairs of node indices, in insertion
//! order); every wrapper's contract speaks over those names, as
//! petgraph's source shows.

use vstd::prelude::*;

verus! {

#[verifier::external_type_specification]
#[verifier::external_body]
#[verifier::reject_recursive_types(N)]
#[verifier::reject_recursive_types(E)]
#[verifier::reject_recursive_types(Ty)]
#[verifier::reject_recursive_types(Ix)]
pub struct ExGraph<N, E, Ty, Ix>(petgraph::graph::Graph<N, E, Ty, Ix>);

#[verifier::external_type_specification]
#[verifier::external_body]
pub struct ExUndirected(petgraph::Undirected);

/// How many nodes the graph holds.
pub uninterp spec fn graph_nodes(g: petgraph::graph::Graph<(), (), petgraph::Undirected>) -> nat;

/// The graph's edges as pairs of node indices, in insertion order.
pub uninterp spec fn graph_edges(
    g: petgraph::graph::Graph<(), (), petgraph::Undirected>,
) -> Seq<(usize, usize)>;

/// Relies on petgraph's Graph::new_undirected: an empty graph.
#[verifier::external_body]
pub fn graph_new() -> (g: petgraph::graph::Graph<(), (), petgraph::Undirected>)
    ensures
        graph_nodes(g) == 0,
        graph_edges(g) == Seq::<(usize, usize)>::empty(),
{
    petgraph::graph::Graph::new_undirected()
}

/// Relies on petgraph's Graph::add_node: appends one node and returns its
/// index; indices are assigned in insertion order, so the new index is the
/// old node count. Panics only at the u32 index limit, which the
/// precondition rules out.
#[verifier::external_body]
pub fn graph_add_node(g: &mut petgraph::graph::Graph<(), (), petgraph::Undirected>) -> (r: usize)
    requires
        graph_nodes(*old(g)) < 0xFFFF_FFFF,
    ensures
        graph_nodes(*final(g)) == graph_nodes(*old(g)) + 1,
        graph_edges(*final(g)) == graph_edges(*old(g)),
        r == graph_nodes(*old(g)),
{
    g.add_node(()).index()
}

/// Relies on petgraph's Graph::add_edge: appends one edge between the two
/// given node indices, keeping earlier edges as they are. Panics only on
/// an index out of bounds or at the u32 edge limit, which the
/// preconditions rule out.
#[verifier::external_body]
pub fn graph_add_edge(
    g: &mut petgraph::graph::Graph<(), (), petgraph::Undirected>,
    a: usize,
    b: usize,
)
    requires
        a < graph_nodes(*old(g)),
        b < graph_nodes(*old(g)),
        graph_edges(*old(g)).len() < 0xFFFF_FFFF,
    ensures
        graph_nodes(*final(g)) == graph_nodes(*old(g)),
        graph_edges(*final(g)) == graph_edges(*old(g)).push((a, b)),
{
    let _ = g.add_edge(
        petgraph::graph::NodeIndex::new(a),
        petgraph::graph::NodeIndex::new(b),
        (),
    );
}

/// Relies on petgraph's Graph::node_count.
#[verifier::external_body]
pub fn graph_node_count(g: &petgraph::graph::Graph<(), (), petgraph::Undirected>) -> (r: usize)
    ensures
        r == graph_nodes(*g),
{
    g.node_count()
}

/// Relies on petgraph's Graph::edge_count.
#[verifier::external_body]
pub fn graph_edge_count(g: &petgraph::graph::Graph<(), (), petgraph::Undirected>) -> (r: usize)
    ensures
        r == graph_edges(*g).len(),
{
    g.edge_count()
}

/// Relies on petgraph's Graph::edge_endpoints: the two node indices the
/// edge was added with, in that order; `Some` whenever the edge index is
/// below the edge count, which the precondition guarantees.
#[verifier::external_body]
pub fn graph_edge_endpoints(
    g: &petgraph::graph::Graph<(), (), petgraph::Undirected>,
    e: usize,
) -> (r: (usize, usize))
    requires
        e < graph_edges(*g).len(),
    ensures
        r == graph_edges(*g)[e as int],
{
    let (a, b) = g.edge_endpoints(petgraph::graph::EdgeIndex::new(e)).unwrap();
    (a.index(), b.index())
}

} // verus!
