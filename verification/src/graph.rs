//! The dependency graph of a pipeline, held in a `petgraph` directed graph.
//!
//! Nodes are numbered in the order they were added; an edge `(a, b)` says that
//! node `a` must come before node `b`.
use vstd::prelude::*;

use petgraph::graph::{DiGraph, NodeIndex};

verus! {

#[verifier::external_type_specification]
#[verifier::external_body]
#[verifier::reject_recursive_types(N)]
#[verifier::reject_recursive_types(E)]
#[verifier::reject_recursive_types(Ty)]
#[verifier::reject_recursive_types(Ix)]
pub struct ExGraph<N, E, Ty, Ix>(petgraph::graph::Graph<N, E, Ty, Ix>);

#[verifier::external_type_specification]
#[verifier::external_body]
pub struct ExDirected(petgraph::Directed);

/// The node weights of a graph, in node-index order.
pub uninterp spec fn dag_nodes(g: DiGraph<usize, ()>) -> Seq<usize>;

/// The edges of a graph as (source, target) node indices, in insertion order.
pub uninterp spec fn dag_edges(g: DiGraph<usize, ()>) -> Seq<(usize, usize)>;

/// What `petgraph::algo::toposort` returns on a graph with `n` nodes and the
/// given edges: the order it found, or the index of a node on a cycle.
pub uninterp spec fn toposort_outcome(n: nat, edges: Seq<(usize, usize)>) -> Result<
    Seq<usize>,
    usize,
>;

/// `order` lists every node `0..n` once, and every edge goes from an earlier
/// node to a later one.
pub open spec fn is_topo_order(order: Seq<usize>, n: nat, edges: Seq<(usize, usize)>) -> bool {
    &&& order.len() == n
    &&& order.no_duplicates()
    &&& forall|i: int| 0 <= i < n ==> #[trigger] order[i] < n
    &&& forall|k: int, i: int, j: int|
        #![trigger edges[k], order[i], order[j]]
        0 <= k < edges.len() && 0 <= i < n && 0 <= j < n && order[i] == edges[k].1 && order[j]
            == edges[k].0 ==> j < i
}

/// The graph has no cycle: some topological order exists.
pub open spec fn acyclic(n: nat, edges: Seq<(usize, usize)>) -> bool {
    exists|order: Seq<usize>| is_topo_order(order, n, edges)
}

/// There is an edge from node `a` to node `b`.
pub open spec fn has_edge(edges: Seq<(usize, usize)>, a: int, b: int) -> bool {
    exists|k: int| 0 <= k < edges.len() && edges[k].0 == a && edges[k].1 == b
}

/// Node `c` lies on a cycle: a path of one or more edges leads from `c` back to `c`.
pub open spec fn on_cycle(edges: Seq<(usize, usize)>, c: int) -> bool {
    exists|path: Seq<int>|
        path.len() >= 2 && path[0] == c && path.last() == c && forall|i: int|
            0 <= i < path.len() - 1 ==> #[trigger] has_edge(edges, path[i], path[i + 1])
}

/// `Graph::new`: an empty directed graph.
#[verifier::external_body]
pub(crate) fn dag_new() -> (g: DiGraph<usize, ()>)
    ensures
        dag_nodes(g) == Seq::<usize>::empty(),
        dag_edges(g) == Seq::<(usize, usize)>::empty(),
{
    DiGraph::new()
}

/// `Graph::add_node`: appends a node with weight `w` and returns its index.
/// It panics at `u32::MAX` nodes, which `requires` rules out.
#[verifier::external_body]
pub(crate) fn dag_add_node(g: &mut DiGraph<usize, ()>, w: usize) -> (idx: usize)
    requires
        dag_nodes(*old(g)).len() < u32::MAX,
    ensures
        idx == dag_nodes(*old(g)).len(),
        dag_nodes(*final(g)) == dag_nodes(*old(g)).push(w),
        dag_edges(*final(g)) == dag_edges(*old(g)),
{
    g.add_node(w).index()
}

/// `Graph::add_edge`: appends the edge `a -> b`. It panics on an index out of
/// bounds or at `u32::MAX` edges, which `requires` rules out.
#[verifier::external_body]
pub(crate) fn dag_add_edge(g: &mut DiGraph<usize, ()>, a: usize, b: usize)
    requires
        a < dag_nodes(*old(g)).len(),
        b < dag_nodes(*old(g)).len(),
        dag_edges(*old(g)).len() < u32::MAX,
    ensures
        dag_nodes(*final(g)) == dag_nodes(*old(g)),
        dag_edges(*final(g)) == dag_edges(*old(g)).push((a, b)),
{
    g.add_edge(NodeIndex::new(a), NodeIndex::new(b), ());
}

/// `petgraph::algo::toposort`: on an acyclic graph, the nodes in an order where
/// each node comes before its successors; otherwise a node that participates in
/// a cycle (a self loop is a cycle). Which order, and which node of which
/// cycle, is what its depth-first search meets first; the contract names it
/// without saying more.
#[verifier::external_body]
pub(crate) fn dag_toposort(g: &DiGraph<usize, ()>) -> (res: Result<Vec<usize>, usize>)
    ensures
        match res {
            Ok(order) => {
                &&& toposort_outcome(dag_nodes(*g).len(), dag_edges(*g)) == Ok::<
                    Seq<usize>,
                    usize,
                >(order@)
                &&& is_topo_order(order@, dag_nodes(*g).len(), dag_edges(*g))
            },
            Err(c) => {
                &&& toposort_outcome(dag_nodes(*g).len(), dag_edges(*g)) == Err::<
                    Seq<usize>,
                    usize,
                >(c)
                &&& c < dag_nodes(*g).len()
                &&& on_cycle(dag_edges(*g), c as int)
                &&& !acyclic(dag_nodes(*g).len(), dag_edges(*g))
            },
        },
{
    match petgraph::algo::toposort(g, None) {
        Ok(order) => Ok(order.iter().map(|n| n.index()).collect()),
        Err(cycle) => Err(cycle.node_id().index()),
    }
}

} // verus!
