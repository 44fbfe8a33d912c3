//! The part of the crate `ascii_dag` that the renderer calls.
//!
//! Nothing about the layout is proved here. What is said of a graph is which
//! nodes and edges it was given, and that the drawing depends on them alone.

use ascii_dag::graph::{Graph, RenderMode};
use vstd::prelude::*;

verus! {

/// `ascii_dag::graph::Graph`, of which nothing is seen.
#[verifier::external_type_specification]
#[verifier::external_body]
pub struct ExGraph<'a>(Graph<'a>);

/// The nodes of a graph, with their labels, in the order in which they were
/// added.
pub uninterp spec fn dag_nodes(dag: Graph<'_>) -> Seq<(usize, Seq<char>)>;

/// The edges of a graph, in the order in which they were added.
pub uninterp spec fn dag_edges(dag: Graph<'_>) -> Seq<(usize, usize)>;

/// Whether a graph is drawn from top to bottom and has nothing but nodes and
/// unlabelled edges: no clusters, no sizes and no layout settings of its own.
pub uninterp spec fn is_plain_vertical(dag: Graph<'_>) -> bool;

/// The drawing of a graph with these nodes and edges from top to bottom.
pub uninterp spec fn drawing(
    nodes: Seq<(usize, Seq<char>)>,
    edges: Seq<(usize, usize)>,
) -> Seq<char>;

/// Whether `id` is the id of one of `nodes`.
pub open spec fn has_id(nodes: Seq<(usize, Seq<char>)>, id: usize) -> bool {
    exists|i: int| 0 <= i < nodes.len() && (#[trigger] nodes[i]).0 == id
}

/// `Graph::with_mode` with `RenderMode::Vertical`: an empty graph that is
/// drawn from top to bottom.
#[verifier::external_body]
pub(crate) fn vertical_dag<'a>() -> (dag: Graph<'a>)
    ensures
        is_plain_vertical(dag),
        dag_nodes(dag) == Seq::<(usize, Seq<char>)>::empty(),
        dag_edges(dag) == Seq::<(usize, usize)>::empty(),
{
    Graph::with_mode(RenderMode::Vertical)
}

/// `Graph::add_node` with an id that the graph does not have yet: the node is
/// put behind the others, and nothing else changes.
#[verifier::external_body]
pub(crate) fn add_dag_node<'a>(dag: &mut Graph<'a>, id: usize, label: &'a str)
    requires
        !has_id(dag_nodes(*old(dag)), id),
    ensures
        is_plain_vertical(*final(dag)) == is_plain_vertical(*old(dag)),
        dag_nodes(*final(dag)) == dag_nodes(*old(dag)).push((id, label@)),
        dag_edges(*final(dag)) == dag_edges(*old(dag)),
{
    dag.add_node(id, label)
}

/// `Graph::add_edge` between two nodes of the graph, without a label: the edge
/// is put behind the others, and nothing else changes.
#[verifier::external_body]
pub(crate) fn add_dag_edge<'a>(dag: &mut Graph<'a>, from: usize, to: usize)
    requires
        has_id(dag_nodes(*old(dag)), from),
        has_id(dag_nodes(*old(dag)), to),
    ensures
        is_plain_vertical(*final(dag)) == is_plain_vertical(*old(dag)),
        dag_nodes(*final(dag)) == dag_nodes(*old(dag)),
        dag_edges(*final(dag)) == dag_edges(*old(dag)).push((from, to)),
{
    dag.add_edge(from, to, None)
}

/// `Graph::render`: the drawing of a plain graph depends on its nodes and edges
/// alone. How it looks is not said: neither where the labels stand, nor that a
/// warning takes the place of a graph with a cycle.
#[verifier::external_body]
pub(crate) fn render_dag<'a>(dag: &Graph<'a>) -> (text: String)
    requires
        is_plain_vertical(*dag),
    ensures
        text@ == drawing(dag_nodes(*dag), dag_edges(*dag)),
{
    dag.render()
}

} // verus!
