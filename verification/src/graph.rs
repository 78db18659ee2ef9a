//! The dependency graph of a model, kept in a `petgraph` graph, and what
//! the library asks of it: a topological order, and its text in the DOT
//! language.

use vstd::prelude::*;
use petgraph::algo::toposort;
use petgraph::dot::{Config, Dot};
use petgraph::graph::{Graph, NodeIndex};
use petgraph::Directed;

verus! {

/// `petgraph::graph::Graph`, of which the library sees only what the
/// functions below say.
#[verifier::external_type_specification]
#[verifier::external_body]
#[verifier::reject_recursive_types(N)]
#[verifier::reject_recursive_types(E)]
#[verifier::reject_recursive_types(Ty)]
#[verifier::reject_recursive_types(Ix)]
pub struct ExGraph<N, E, Ty, Ix>(Graph<N, E, Ty, Ix>);

/// `petgraph::Directed`, the marker of a graph with directed edges.
#[verifier::external_type_specification]
#[verifier::external_body]
pub struct ExDirected(Directed);

/// The weights of the nodes of a graph, by node index.
pub uninterp spec fn graph_nodes(g: Graph<String, (), Directed, u32>) -> Seq<Seq<char>>;

/// The edges of a graph as pairs (source, target) of node indices, in the
/// order in which they were added. The library only ever adds to a graph.
pub uninterp spec fn graph_edges(g: Graph<String, (), Directed, u32>) -> Seq<(int, int)>;

/// The result of `petgraph::algo::toposort` on the graph of `nodes` nodes
/// to which `edges` were added in this order: the order that it finds, or a
/// node of a cycle.
pub uninterp spec fn toposort_order(nodes: nat, edges: Seq<(int, int)>) -> Result<Seq<int>, int>;

/// The text that `petgraph::dot::Dot` gives, with `Config::EdgeNoLabel`
/// and formatted with `{:?}`, for the graph of the nodes with the weights
/// `nodes` and of the edges `edges`.
pub uninterp spec fn dot_text(nodes: Seq<Seq<char>>, edges: Seq<(int, int)>) -> Seq<char>;

/// `order` lists each of the nodes `0 .. nodes` once.
pub open spec fn is_schedule(order: Seq<int>, nodes: int) -> bool {
    &&& order.len() == nodes
    &&& forall|i: int| 0 <= i < order.len() ==> 0 <= #[trigger] order[i] < nodes
    &&& forall|i: int, j: int| 0 <= i < j < order.len() ==> order[i] != order[j]
    &&& forall|v: int| 0 <= v < nodes ==> order.contains(v)
}

/// In `order` the source of each edge stands before its target.
pub open spec fn respects(order: Seq<int>, edges: Seq<(int, int)>) -> bool {
    forall|e: int, i: int, j: int|
        #![trigger edges[e], order[i], order[j]]
        0 <= e < edges.len() && 0 <= i < order.len() && 0 <= j < order.len() && order[i] == edges[e].0 && order[j]
            == edges[e].1 ==> i < j
}

/// `walk` follows edges from a node back to the same node.
pub open spec fn is_cycle(edges: Seq<(int, int)>, walk: Seq<int>) -> bool {
    &&& walk.len() >= 2
    &&& walk.first() == walk.last()
    &&& forall|i: int| 0 <= i < walk.len() - 1 ==> edges.contains((#[trigger] walk[i], walk[i + 1]))
}

/// Some walk along the edges returns to where it began.
pub open spec fn has_cycle(edges: Seq<(int, int)>) -> bool {
    exists|walk: Seq<int>| is_cycle(edges, walk)
}

/// Some walk along the edges leads from `node` back to it.
pub open spec fn on_cycle(edges: Seq<(int, int)>, node: int) -> bool {
    exists|walk: Seq<int>| is_cycle(edges, walk) && walk.first() == node
}

/// The indices of an order as mathematical integers.
pub open spec fn indices(order: Seq<usize>) -> Seq<int> {
    Seq::new(order.len(), |i: int| order[i] as int)
}

/// `Graph::new` gives a graph without nodes and edges.
#[verifier::external_body]
pub(crate) fn graph_new() -> (g: Graph<String, (), Directed, u32>)
    ensures
        graph_nodes(g) == Seq::<Seq<char>>::empty(),
        graph_edges(g) == Seq::<(int, int)>::empty(),
{
    Graph::new()
}

/// `Graph::add_node` appends a node with the given weight and returns its
/// index, which is the number of nodes before the call. It panics when the
/// graph already holds `u32::MAX` nodes.
#[verifier::external_body]
pub(crate) fn graph_add_node(g: &mut Graph<String, (), Directed, u32>, weight: String) -> (index: usize)
    requires
        graph_nodes(*old(g)).len() < u32::MAX,
    ensures
        index == graph_nodes(*old(g)).len(),
        graph_nodes(*final(g)) == graph_nodes(*old(g)).push(weight@),
        graph_edges(*final(g)) == graph_edges(*old(g)),
{
    g.add_node(weight).index()
}

/// `Graph::add_edge` appends an edge from node `a` to node `b`. It panics
/// when one of them is no node of the graph, or when the graph already
/// holds `u32::MAX` edges.
#[verifier::external_body]
pub(crate) fn graph_add_edge(g: &mut Graph<String, (), Directed, u32>, a: usize, b: usize)
    requires
        a < graph_nodes(*old(g)).len(),
        b < graph_nodes(*old(g)).len(),
        graph_edges(*old(g)).len() < u32::MAX,
    ensures
        graph_nodes(*final(g)) == graph_nodes(*old(g)),
        graph_edges(*final(g)) == graph_edges(*old(g)).push((a as int, b as int)),
{
    g.add_edge(NodeIndex::new(a), NodeIndex::new(b), ());
}

/// `petgraph::algo::toposort`: for a graph without cycle, all its nodes in
/// an order in which each stands before its successors; for a graph with a
/// cycle, self loops included, a node that takes part in one. Which order
/// and which node is fixed by the nodes and the edges as they were added.
#[verifier::external_body]
pub(crate) fn graph_toposort(g: &Graph<String, (), Directed, u32>) -> (r: Result<Vec<usize>, usize>)
    ensures
        match r {
            Ok(order) => {
                &&& toposort_order(graph_nodes(*g).len(), graph_edges(*g)) == Ok::<Seq<int>, int>(indices(order@))
                &&& is_schedule(indices(order@), graph_nodes(*g).len() as int)
                &&& respects(indices(order@), graph_edges(*g))
            },
            Err(node) => {
                &&& toposort_order(graph_nodes(*g).len(), graph_edges(*g)) == Err::<Seq<int>, int>(node as int)
                &&& node < graph_nodes(*g).len()
                &&& on_cycle(graph_edges(*g), node as int)
            },
        },
{
    match toposort(g, None) {
        Ok(order) => Ok(order.iter().map(|node| node.index()).collect()),
        Err(cycle) => Err(cycle.node_id().index()),
    }
}

/// `petgraph::dot::Dot` with `Config::EdgeNoLabel`, formatted with `{:?}`:
/// the graph in the DOT language.
#[verifier::external_body]
pub(crate) fn graph_dot(g: &Graph<String, (), Directed, u32>) -> (text: String)
    ensures
        text@ == dot_text(graph_nodes(*g), graph_edges(*g)),
{
    format!("{:?}", Dot::with_config(g, &[Config::EdgeNoLabel]))
}

/// An order that respects the edges shows that no walk along them returns
/// to where it began.
pub proof fn lemma_schedule_excludes_cycle(order: Seq<int>, nodes: int, edges: Seq<(int, int)>)
    requires
        is_schedule(order, nodes),
        respects(order, edges),
        forall|e: int| 0 <= e < edges.len() ==> 0 <= (#[trigger] edges[e]).0 < nodes && 0 <= edges[e].1 < nodes,
    ensures
        !has_cycle(edges),
{
    if has_cycle(edges) {
        let walk = choose|walk: Seq<int>| is_cycle(edges, walk);
        lemma_walk_ascends(order, nodes, edges, walk, walk.len() - 1);
        let first = order.index_of(walk.first());
        let last = order.index_of(walk.last());
        assert(first < last);
    }
}

/// Along a walk the places in a respecting order ascend.
proof fn lemma_walk_ascends(order: Seq<int>, nodes: int, edges: Seq<(int, int)>, walk: Seq<int>, k: int)
    requires
        is_schedule(order, nodes),
        respects(order, edges),
        forall|e: int| 0 <= e < edges.len() ==> 0 <= (#[trigger] edges[e]).0 < nodes && 0 <= edges[e].1 < nodes,
        forall|i: int| 0 <= i < walk.len() - 1 ==> edges.contains((#[trigger] walk[i], walk[i + 1])),
        1 <= k < walk.len(),
    ensures
        order.contains(walk[0]),
        order.contains(walk[k]),
        order.index_of(walk[0]) < order.index_of(walk[k]),
    decreases k,
{
    let edge = (walk[k - 1], walk[k]);
    assert(edges.contains(edge));
    let e = edges.index_of(edge);
    assert(edges[e] == edge);
    assert(order.contains(walk[k - 1]));
    assert(order.contains(walk[k]));
    let i = order.index_of(walk[k - 1]);
    let j = order.index_of(walk[k]);
    assert(i < j);
    if k > 1 {
        lemma_walk_ascends(order, nodes, edges, walk, k - 1);
    }
}

} // verus!
