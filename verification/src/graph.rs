//! The directed graph of `petgraph` that stores the memory nodes and their
//! relations, seen through the sequence of its nodes and that of its edges.

use petgraph::graph::{Graph, NodeIndex};
use vstd::prelude::*;

use crate::memory::{MemoryEdge, MemoryNode};

verus! {

#[verifier::external_type_specification]
#[verifier::external_body]
#[verifier::reject_recursive_types(N)]
#[verifier::reject_recursive_types(E)]
#[verifier::reject_recursive_types(Ty)]
#[verifier::reject_recursive_types(Ix)]
pub struct ExGraph<N, E, Ty, Ix>(petgraph::graph::Graph<N, E, Ty, Ix>);

#[verifier::external_type_specification]
#[verifier::external_body]
pub struct ExDirected(petgraph::Directed);

/// The node weights of a graph, in the order of their indices.
pub uninterp spec fn graph_nodes(g: Graph<MemoryNode, MemoryEdge>) -> Seq<MemoryNode>;

/// The edges of a graph, in the order of their indices, each as the index of
/// its source node, that of its target node, and its weight.
pub uninterp spec fn graph_edges(g: Graph<MemoryNode, MemoryEdge>) -> Seq<(usize, usize, MemoryEdge)>;

/// `Graph::new`: a directed graph with no nodes and no edges.
#[verifier::external_body]
pub(crate) fn graph_new() -> (g: Graph<MemoryNode, MemoryEdge>)
    ensures
        graph_nodes(g) == Seq::<MemoryNode>::empty(),
        graph_edges(g) == Seq::<(usize, usize, MemoryEdge)>::empty(),
{
    Graph::new()
}

/// `Graph::node_count`: the number of nodes.
#[verifier::external_body]
pub(crate) fn graph_node_count(g: &Graph<MemoryNode, MemoryEdge>) -> (n: usize)
    ensures
        n == graph_nodes(*g).len(),
{
    g.node_count()
}

/// `Graph::edge_count`: the number of edges.
#[verifier::external_body]
pub(crate) fn graph_edge_count(g: &Graph<MemoryNode, MemoryEdge>) -> (n: usize)
    ensures
        n == graph_edges(*g).len(),
{
    g.edge_count()
}

/// `Graph::add_node`: appends `weight` as the last node and returns its index,
/// which is the former node count. It panics when the count has reached the
/// largest `u32` index, which `requires` leaves out.
#[verifier::external_body]
pub(crate) fn graph_add_node(g: &mut Graph<MemoryNode, MemoryEdge>, weight: MemoryNode) -> (idx: usize)
    requires
        graph_nodes(*old(g)).len() < u32::MAX,
    ensures
        graph_nodes(*final(g)) == graph_nodes(*old(g)).push(weight),
        graph_edges(*final(g)) == graph_edges(*old(g)),
        idx == graph_nodes(*old(g)).len(),
{
    g.add_node(weight).index()
}

/// `Graph::add_edge`: appends an edge from node `a` to node `b` with `weight`.
/// It panics when either node does not exist or the edge count has reached the
/// largest `u32` index, which `requires` leaves out.
#[verifier::external_body]
pub(crate) fn graph_add_edge(
    g: &mut Graph<MemoryNode, MemoryEdge>,
    a: usize,
    b: usize,
    weight: MemoryEdge,
)
    requires
        a < graph_nodes(*old(g)).len(),
        b < graph_nodes(*old(g)).len(),
        a < u32::MAX,
        b < u32::MAX,
        graph_edges(*old(g)).len() < u32::MAX,
    ensures
        graph_edges(*final(g)) == graph_edges(*old(g)).push((a, b, weight)),
        graph_nodes(*final(g)) == graph_nodes(*old(g)),
{
    let _ = g.add_edge(NodeIndex::new(a), NodeIndex::new(b), weight);
}

/// `Graph::node_weight`: the weight of the node at index `i`, or `None` when
/// there is no such node. An index is taken as a `u32`, so `requires` keeps it
/// below the largest `u32`.
#[verifier::external_body]
pub(crate) fn graph_node_weight(g: &Graph<MemoryNode, MemoryEdge>, i: usize) -> (w: Option<&MemoryNode>)
    requires
        i < u32::MAX,
    ensures
        i < graph_nodes(*g).len() ==> w.is_some() && *w.unwrap() == graph_nodes(*g)[i as int],
        i >= graph_nodes(*g).len() ==> w.is_none(),
{
    g.node_weight(NodeIndex::new(i))
}

} // verus!
