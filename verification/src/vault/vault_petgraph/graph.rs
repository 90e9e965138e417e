//! What the library has from `petgraph`: the graph that is handed out, and
//! the three operations that fill it.
//!
//! Nodes carry the position of their note in the vault. Nodes and edges are
//! numbered by `usize`, so that a graph can take as many as memory holds.

use petgraph::graph::{Graph, NodeIndex};
use petgraph::{Directed, Undirected};
use vstd::prelude::*;

verus! {

/// The graph of `petgraph`. Nothing is known of what is inside one but what
/// the names below say.
#[verifier::external_type_specification]
#[verifier::external_body]
#[verifier::reject_recursive_types(N)]
#[verifier::reject_recursive_types(E)]
#[verifier::reject_recursive_types(Ty)]
#[verifier::reject_recursive_types(Ix)]
pub struct ExGraph<N, E, Ty, Ix>(Graph<N, E, Ty, Ix>);

/// The marker of a graph whose edges have a direction.
#[verifier::external_type_specification]
#[verifier::external_body]
pub struct ExDirected(Directed);

/// The marker of a graph whose edges have none.
#[verifier::external_type_specification]
#[verifier::external_body]
pub struct ExUndirected(Undirected);

/// A directed graph of notes.
pub type NoteDiGraph = Graph<usize, (), Directed, usize>;

/// An undirected graph of notes.
pub type NoteUnGraph = Graph<usize, (), Undirected, usize>;

/// The weights of the nodes of a directed graph, in the order of their indices.
pub uninterp spec fn digraph_nodes(g: Graph<usize, (), Directed, usize>) -> Seq<usize>;

/// The edges of a directed graph, each as the indices of its source and its
/// target, in the order of their own indices.
pub uninterp spec fn digraph_edges(g: Graph<usize, (), Directed, usize>) -> Seq<(usize, usize)>;

/// The weights of the nodes of an undirected graph, in the order of their indices.
pub uninterp spec fn ungraph_nodes(g: Graph<usize, (), Undirected, usize>) -> Seq<usize>;

/// The edges of an undirected graph, each as the indices of the two nodes it
/// was added with, in the order of their own indices.
pub uninterp spec fn ungraph_edges(g: Graph<usize, (), Undirected, usize>) -> Seq<(usize, usize)>;

/// An empty directed graph, from `Graph::with_capacity`.
///
/// Believed, not proved: the graph has no node and no edge.
#[verifier::external_body]
pub(crate) fn digraph_new() -> (g: NoteDiGraph)
    ensures
        digraph_nodes(g) == Seq::<usize>::empty(),
        digraph_edges(g) == Seq::<(usize, usize)>::empty(),
{
    Graph::with_capacity(0, 0)
}

/// Adds a node with `Graph::add_node`.
///
/// Believed, not proved: the node is added behind the nodes that are there,
/// its index is their number, and the edges stay.
#[verifier::external_body]
pub(crate) fn digraph_add_node(g: &mut NoteDiGraph, weight: usize) -> (node: usize)
    ensures
        node == digraph_nodes(*old(g)).len(),
        digraph_nodes(*final(g)) == digraph_nodes(*old(g)).push(weight),
        digraph_edges(*final(g)) == digraph_edges(*old(g)),
{
    g.add_node(weight).index()
}

/// Adds an edge from the node `a` to the node `b` with `Graph::add_edge`,
/// which panics where one of them is no node of the graph.
///
/// Believed, not proved: the edge is added behind the edges that are there,
/// also where an edge from `a` to `b` is among them, and the nodes stay.
#[verifier::external_body]
pub(crate) fn digraph_add_edge(g: &mut NoteDiGraph, a: usize, b: usize)
    requires
        a < digraph_nodes(*old(g)).len(),
        b < digraph_nodes(*old(g)).len(),
    ensures
        digraph_nodes(*final(g)) == digraph_nodes(*old(g)),
        digraph_edges(*final(g)) == digraph_edges(*old(g)).push((a, b)),
{
    let _ = g.add_edge(NodeIndex::new(a), NodeIndex::new(b), ());
}

/// An empty undirected graph, from `Graph::with_capacity`.
///
/// Believed, not proved: the graph has no node and no edge.
#[verifier::external_body]
pub(crate) fn ungraph_new() -> (g: NoteUnGraph)
    ensures
        ungraph_nodes(g) == Seq::<usize>::empty(),
        ungraph_edges(g) == Seq::<(usize, usize)>::empty(),
{
    Graph::with_capacity(0, 0)
}

/// Adds a node with `Graph::add_node`.
///
/// Believed, not proved: the node is added behind the nodes that are there,
/// its index is their number, and the edges stay.
#[verifier::external_body]
pub(crate) fn ungraph_add_node(g: &mut NoteUnGraph, weight: usize) -> (node: usize)
    ensures
        node == ungraph_nodes(*old(g)).len(),
        ungraph_nodes(*final(g)) == ungraph_nodes(*old(g)).push(weight),
        ungraph_edges(*final(g)) == ungraph_edges(*old(g)),
{
    g.add_node(weight).index()
}

/// Adds an edge between the nodes `a` and `b` with `Graph::add_edge`, which
/// panics where one of them is no node of the graph.
///
/// Believed, not proved: the edge is added behind the edges that are there,
/// also where an edge between `a` and `b` is among them, and the nodes stay.
#[verifier::external_body]
pub(crate) fn ungraph_add_edge(g: &mut NoteUnGraph, a: usize, b: usize)
    requires
        a < ungraph_nodes(*old(g)).len(),
        b < ungraph_nodes(*old(g)).len(),
    ensures
        ungraph_nodes(*final(g)) == ungraph_nodes(*old(g)),
        ungraph_edges(*final(g)) == ungraph_edges(*old(g)).push((a, b)),
{
    let _ = g.add_edge(NodeIndex::new(a), NodeIndex::new(b), ());
}

} // verus!
