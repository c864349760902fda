//! The graph under construction: petgraph's `Graph`, seen through two names
//! for what it holds, its node labels and its edges.

use vstd::prelude::*;

verus! {

/// petgraph's `Graph`, held opaque: what it holds is read through
/// `node_labels` and `edge_list`.
#[verifier::external_type_specification]
#[verifier::external_body]
#[verifier::reject_recursive_types(N)]
#[verifier::reject_recursive_types(E)]
#[verifier::reject_recursive_types(Ty)]
#[verifier::reject_recursive_types(Ix)]
pub struct ExGraph<N, E, Ty, Ix>(petgraph::graph::Graph<N, E, Ty, Ix>);

/// petgraph's marker for directed graphs, the default kind of `Graph`.
#[verifier::external_type_specification]
#[verifier::external_body]
pub struct ExDirected(petgraph::Directed);

/// A directed graph whose nodes and edges carry string labels.
pub type LabeledGraph = petgraph::graph::Graph<String, String>;

/// One edge as the graph stores it: source index, target index, label.
pub type EdgeRec = (nat, nat, Seq<char>);

/// The labels of the graph's nodes, in order of insertion: the node with
/// index `i` carries the `i`-th label.
pub uninterp spec fn node_labels(g: LabeledGraph) -> Seq<Seq<char>>;

/// The graph's edges, in order of insertion.
pub uninterp spec fn edge_list(g: LabeledGraph) -> Seq<EdgeRec>;

/// Relies on petgraph's `Graph::new`: a graph with no nodes and no edges.
#[verifier::external_body]
pub(crate) fn new_graph() -> (r: LabeledGraph)
    ensures
        node_labels(r) == Seq::<Seq<char>>::empty(),
        edge_list(r) == Seq::<EdgeRec>::empty(),
{
    petgraph::graph::Graph::new()
}

/// The largest count of nodes, or of edges, that the graph can index: petgraph
/// panics when a node or edge would take the index `u32::MAX`.
pub const INDEX_LIMIT: u64 = 4294967295;

/// Relies on petgraph's `Graph::add_node`: the node goes at the end, its index
/// is the old node count, and edges are untouched. It panics when that index
/// would be `u32::MAX`, which `requires` leaves out.
#[verifier::external_body]
pub(crate) fn add_node(g: &mut LabeledGraph, label: String) -> (r: usize)
    requires
        node_labels(*old(g)).len() < INDEX_LIMIT,
    ensures
        r == node_labels(*old(g)).len(),
        node_labels(*final(g)) == node_labels(*old(g)).push(label@),
        edge_list(*final(g)) == edge_list(*old(g)),
{
    g.add_node(label).index()
}

/// Relies on petgraph's `Graph::add_edge`: the edge from `a` to `b` goes at the
/// end and nodes are untouched. It panics when `a` or `b` is not a node, or when
/// the edge's index would be `u32::MAX`, which `requires` leaves out.
#[verifier::external_body]
pub(crate) fn add_edge(g: &mut LabeledGraph, a: usize, b: usize, label: String)
    requires
        a < node_labels(*old(g)).len(),
        b < node_labels(*old(g)).len(),
        edge_list(*old(g)).len() < INDEX_LIMIT,
    ensures
        edge_list(*final(g)) == edge_list(*old(g)).push((a as nat, b as nat, label@)),
        node_labels(*final(g)) == node_labels(*old(g)),
{
    g.add_edge(petgraph::graph::NodeIndex::new(a), petgraph::graph::NodeIndex::new(b), label);
}

/// The DOT text that petgraph writes for a graph with these node labels and
/// edges, with or without the edge labels.
pub uninterp spec fn dot_text(nodes: Seq<Seq<char>>, edges: Seq<EdgeRec>, edge_labels: bool) -> Seq<char>;

/// Relies on petgraph's `Dot` (its `Debug` output, under `Config::EdgeNoLabel`
/// when `edge_labels` is false): the text depends on the labels and the edges,
/// in their order, alone.
#[verifier::external_body]
pub(crate) fn render_dot(g: &LabeledGraph, edge_labels: bool) -> (r: String)
    ensures
        r@ == dot_text(node_labels(*g), edge_list(*g), edge_labels),
{
    let config: &[petgraph::dot::Config] =
        if edge_labels { &[] } else { &[petgraph::dot::Config::EdgeNoLabel] };
    format!("{:?}", petgraph::dot::Dot::with_config(g, config))
}

} // verus!
