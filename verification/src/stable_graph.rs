//! The petgraph `StableGraph` that holds the shape of the context graph.
//!
//! Its node and edge weights are positions in the context graph's own tables
//! of entities and edges; its indices are `usize`, so that adding a node or an
//! edge never exhausts the index type. What it holds is named by two maps: the
//! weight of each live node, and the source, target and weight of each live edge.
use vstd::prelude::*;

use petgraph::stable_graph::{EdgeIndex, NodeIndex, StableGraph};
use petgraph::visit::EdgeRef;
use petgraph::{Directed, Direction};

verus! {

/// `petgraph::stable_graph::StableGraph`, opaque to verification.
#[verifier::external_type_specification]
#[verifier::external_body]
#[verifier::reject_recursive_types(N)]
#[verifier::reject_recursive_types(E)]
#[verifier::reject_recursive_types(Ty)]
#[verifier::reject_recursive_types(Ix)]
pub struct ExStableGraph<N, E, Ty, Ix>(StableGraph<N, E, Ty, Ix>);

/// `petgraph::Directed`, the edge type marker.
#[verifier::external_type_specification]
#[verifier::external_body]
pub struct ExDirected(Directed);

/// The directed stable graph with `usize` weights and indices.
pub type IndexGraph = StableGraph<usize, usize, Directed, usize>;

/// The live nodes of the graph: node index to weight.
pub uninterp spec fn graph_nodes(g: IndexGraph) -> Map<usize, usize>;

/// The live edges of the graph: edge index to source, target and weight.
pub uninterp spec fn graph_edges(g: IndexGraph) -> Map<
    usize,
    (usize, usize, usize),
>;

/// The edges that neither start nor end at node `a`.
pub open spec fn edges_without(m: Map<usize, (usize, usize, usize)>, a: usize) -> Map<
    usize,
    (usize, usize, usize),
> {
    m.restrict(m.dom().filter(|e: usize| m[e].0 != a && m[e].1 != a))
}

/// `StableGraph::with_capacity(0, 0)`: a graph with no nodes and no edges.
#[verifier::external_body]
pub(crate) fn graph_new() -> (r: IndexGraph)
    ensures
        graph_nodes(r) =~= Map::empty(),
        graph_edges(r) =~= Map::empty(),
{
    StableGraph::with_capacity(0, 0)
}

/// `StableGraph::add_node`: the new node gets an index that no live node has
/// (a vacant one is reused first); the edges are untouched. With `usize`
/// indices the index type cannot run out, so the call does not panic.
#[verifier::external_body]
pub(crate) fn graph_add_node(g: &mut IndexGraph, w: usize) -> (r:
    usize)
    ensures
        !graph_nodes(*old(g)).contains_key(r),
        graph_nodes(*final(g)) == graph_nodes(*old(g)).insert(r, w),
        graph_edges(*final(g)) == graph_edges(*old(g)),
{
    g.add_node(w).index()
}

/// `StableGraph::add_edge`: the new edge gets an index that no live edge has;
/// the nodes are untouched. It panics on an endpoint that is not a live node,
/// which `requires` rules out.
#[verifier::external_body]
pub(crate) fn graph_add_edge(
    g: &mut IndexGraph,
    a: usize,
    b: usize,
    w: usize,
) -> (r: usize)
    requires
        graph_nodes(*old(g)).contains_key(a),
        graph_nodes(*old(g)).contains_key(b),
    ensures
        !graph_edges(*old(g)).contains_key(r),
        graph_edges(*final(g)) == graph_edges(*old(g)).insert(r, (a, b, w)),
        graph_nodes(*final(g)) == graph_nodes(*old(g)),
{
    g.add_edge(NodeIndex::new(a), NodeIndex::new(b), w).index()
}

/// `StableGraph::remove_node`: a live node goes, with every edge that starts
/// or ends at it, and its weight is returned; for any other index nothing
/// changes and `None` is returned.
#[verifier::external_body]
pub(crate) fn graph_remove_node(g: &mut IndexGraph, a: usize) -> (r:
    Option<usize>)
    ensures
        graph_nodes(*old(g)).contains_key(a) ==> r == Some(graph_nodes(*old(g))[a])
            && graph_nodes(*final(g)) == graph_nodes(*old(g)).remove(a) && graph_edges(*final(g))
            == edges_without(graph_edges(*old(g)), a),
        !graph_nodes(*old(g)).contains_key(a) ==> r is None && graph_nodes(*final(g))
            == graph_nodes(*old(g)) && graph_edges(*final(g)) == graph_edges(*old(g)),
{
    g.remove_node(NodeIndex::new(a))
}

/// `StableGraph::node_weight`, copied out: the weight of a live node, else `None`.
#[verifier::external_body]
pub(crate) fn graph_node_weight(g: &IndexGraph, a: usize) -> (r:
    Option<usize>)
    ensures
        r == (if graph_nodes(*g).contains_key(a) {
            Some(graph_nodes(*g)[a])
        } else {
            None
        }),
{
    g.node_weight(NodeIndex::new(a)).copied()
}

/// `StableGraph::edge_weight`, copied out: the weight of a live edge, else `None`.
#[verifier::external_body]
pub(crate) fn graph_edge_weight(g: &IndexGraph, e: usize) -> (r: Option<usize>)
    ensures
        r == (if graph_edges(*g).contains_key(e) {
            Some(graph_edges(*g)[e].2)
        } else {
            None
        }),
{
    g.edge_weight(EdgeIndex::new(e)).copied()
}

/// `StableGraph::edge_endpoints`: the source and target of a live edge, else `None`.
#[verifier::external_body]
pub(crate) fn graph_edge_endpoints(g: &IndexGraph, e: usize) -> (r: Option<(usize, usize)>)
    ensures
        r == (if graph_edges(*g).contains_key(e) {
            Some((graph_edges(*g)[e].0, graph_edges(*g)[e].1))
        } else {
            None
        }),
{
    g.edge_endpoints(EdgeIndex::new(e)).map(|(a, b)| (a.index(), b.index()))
}

/// `StableGraph::node_indices`, collected: the live node indices in
/// increasing order.
#[verifier::external_body]
pub(crate) fn graph_node_indices(g: &IndexGraph) -> (r: Vec<usize>)
    ensures
        r@.to_set() == graph_nodes(*g).dom(),
        forall|i: int, j: int| 0 <= i < j < r@.len() ==> r@[i] < r@[j],
{
    g.node_indices().map(|n| n.index()).collect()
}

/// `StableGraph::edge_indices`, collected: the live edge indices in
/// increasing order.
#[verifier::external_body]
pub(crate) fn graph_edge_indices(g: &IndexGraph) -> (r: Vec<usize>)
    ensures
        r@.to_set() == graph_edges(*g).dom(),
        forall|i: int, j: int| 0 <= i < j < r@.len() ==> r@[i] < r@[j],
{
    g.edge_indices().map(|e| e.index()).collect()
}

/// `StableGraph::edges_directed`, each edge as (index, source, target,
/// weight): every live edge leaving `a` (or, with `outgoing` false, entering
/// it), each once. The order, that of the node's adjacency list, is not stated.
#[verifier::external_body]
pub(crate) fn graph_edges_directed(
    g: &IndexGraph,
    a: usize,
    outgoing: bool,
) -> (r: Vec<(usize, usize, usize, usize)>)
    ensures
        forall|i: int|
            0 <= i < r@.len() ==> {
                let t = #[trigger] r@[i];
                &&& graph_edges(*g).contains_key(t.0)
                &&& graph_edges(*g)[t.0] == (t.1, t.2, t.3)
                &&& if outgoing {
                    t.1 == a
                } else {
                    t.2 == a
                }
            },
        forall|i: int, j: int| 0 <= i < j < r@.len() ==> #[trigger] r@[i].0 != #[trigger] r@[j].0,
        forall|e: usize|
            #[trigger] graph_edges(*g).contains_key(e) && (if outgoing {
                graph_edges(*g)[e].0 == a
            } else {
                graph_edges(*g)[e].1 == a
            }) ==> exists|i: int| 0 <= i < r@.len() && r@[i].0 == e,
{
    let dir = if outgoing {
        Direction::Outgoing
    } else {
        Direction::Incoming
    };
    g.edges_directed(NodeIndex::new(a), dir).map(
        |e| (e.id().index(), e.source().index(), e.target().index(), *e.weight()),
    ).collect()
}

/// `StableGraph::node_count`: the number of live nodes.
#[verifier::external_body]
pub(crate) fn graph_node_count(g: &IndexGraph) -> (r: usize)
    ensures
        r == graph_nodes(*g).len(),
{
    g.node_count()
}

/// `StableGraph::edge_count`: the number of live edges.
#[verifier::external_body]
pub(crate) fn graph_edge_count(g: &IndexGraph) -> (r: usize)
    ensures
        r == graph_edges(*g).len(),
{
    g.edge_count()
}

} // verus!
