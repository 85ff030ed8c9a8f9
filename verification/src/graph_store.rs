//! Trusted view of petgraph's directed graph.
//!
//! The floorplan keeps its rooms and doors in a `petgraph::graph::DiGraph`.
//! The graph is opaque to the verifier, so its contents are named by two
//! uninterpreted sequences, `graph_rooms` and `graph_doors`, and every
//! graph call the store makes goes through a wrapper below whose contract
//! states, over those names, what petgraph's own source shows.

use vstd::prelude::*;

use crate::floorplan::{Door, Room};
use petgraph::graph::DiGraph;
use petgraph::visit::EdgeRef;

verus! {

#[verifier::external_type_specification]
#[verifier::external_body]
#[verifier::reject_recursive_types(N)]
#[verifier::reject_recursive_types(E)]
#[verifier::reject_recursive_types(Ty)]
#[verifier::reject_recursive_types(Ix)]
pub struct ExGraph<N, E, Ty, Ix>(petgraph::graph::Graph<N, E, Ty, Ix>);

#[verifier::external_type_specification]
#[verifier::external_body]
pub struct ExDirected(petgraph::Directed);

/// The nodes of the graph, in insertion order; node `i` carries `graph_rooms(g)[i]`.
pub uninterp spec fn graph_rooms(g: DiGraph<Room, Door>) -> Seq<Room>;

/// The edges of the graph, in insertion order, as (source, target, weight).
pub uninterp spec fn graph_doors(g: DiGraph<Room, Door>) -> Seq<(usize, usize, Door)>;

/// The predicate picking the edges that leave node `from`.
pub open spec fn leaves_node(from: int) -> spec_fn((usize, usize, Door)) -> bool {
    |e: (usize, usize, Door)| e.0 as int == from
}

/// The projection of an edge to its weight and its target.
pub open spec fn weight_and_target() -> spec_fn((usize, usize, Door)) -> (Door, usize) {
    |e: (usize, usize, Door)| (e.2, e.1)
}

/// The outgoing edges of node `from`, paired as (weight, target), in the
/// order petgraph's `edges` iterator yields them: most recently added first.
pub open spec fn outgoing_pairs(doors: Seq<(usize, usize, Door)>, from: int) -> Seq<(Door, usize)> {
    doors.filter(leaves_node(from)).reverse().map_values(weight_and_target())
}

/// Relies on `Graph::new`: a graph with no nodes and no edges.
#[verifier::external_body]
pub(crate) fn graph_new() -> (g: DiGraph<Room, Door>)
    ensures
        graph_rooms(g) == Seq::<Room>::empty(),
        graph_doors(g) == Seq::<(usize, usize, Door)>::empty(),
{
    DiGraph::new()
}

/// Relies on `Graph::node_count`: the number of nodes.
#[verifier::external_body]
pub(crate) fn graph_node_count(g: &DiGraph<Room, Door>) -> (n: usize)
    ensures
        n == graph_rooms(*g).len(),
{
    g.node_count()
}

/// Relies on `Graph::edge_count`: the number of edges.
#[verifier::external_body]
pub(crate) fn graph_edge_count(g: &DiGraph<Room, Door>) -> (n: usize)
    ensures
        n == graph_doors(*g).len(),
{
    g.edge_count()
}

/// Relies on `Graph::add_node`: appends one node and returns its index,
/// which equals the node count before the call.  With the default `u32`
/// index type the call panics once the graph holds `u32::MAX` nodes, so
/// that case is ruled out here.
#[verifier::external_body]
pub(crate) fn graph_add_node(g: &mut DiGraph<Room, Door>, room: Room) -> (ix: usize)
    requires
        graph_rooms(*old(g)).len() < 0xFFFF_FFFFusize,
    ensures
        graph_rooms(*final(g)) == graph_rooms(*old(g)).push(room),
        graph_doors(*final(g)) == graph_doors(*old(g)),
        ix == graph_rooms(*old(g)).len(),
{
    g.add_node(room).index()
}

/// Relies on `Graph::add_edge`: appends one directed edge.  The call panics
/// when an endpoint does not exist or the graph holds `u32::MAX` edges, so
/// those cases are ruled out here.
#[verifier::external_body]
pub(crate) fn graph_add_edge(g: &mut DiGraph<Room, Door>, from: usize, to: usize, door: Door)
    requires
        from < graph_rooms(*old(g)).len(),
        to < graph_rooms(*old(g)).len(),
        graph_doors(*old(g)).len() < 0xFFFF_FFFFusize,
    ensures
        graph_rooms(*final(g)) == graph_rooms(*old(g)),
        graph_doors(*final(g)) == graph_doors(*old(g)).push((from, to, door)),
{
    g.add_edge(
        petgraph::graph::NodeIndex::new(from),
        petgraph::graph::NodeIndex::new(to),
        door,
    );
}

/// Relies on `Graph::node_weight`: `Some` of the node's weight exactly when
/// the index is in range.  The index is kept in range here so that its
/// conversion to the graph's `u32` index type cannot truncate.
#[verifier::external_body]
pub(crate) fn graph_node_weight<'a>(g: &'a DiGraph<Room, Door>, ix: usize) -> (r: &'a Room)
    requires
        ix < graph_rooms(*g).len(),
    ensures
        *r == graph_rooms(*g)[ix as int],
{
    g.node_weight(petgraph::graph::NodeIndex::new(ix)).expect("node index in range")
}

/// Relies on `Graph::edges`: the outgoing edges of a node, most recently
/// added first.  The index is kept in range here so that its conversion to
/// the graph's `u32` index type cannot truncate.
#[verifier::external_body]
pub(crate) fn graph_edges_from(g: &DiGraph<Room, Door>, ix: usize) -> (r: Vec<(Door, usize)>)
    requires
        ix < graph_rooms(*g).len(),
    ensures
        r@ == outgoing_pairs(graph_doors(*g), ix as int),
{
    g.edges(petgraph::graph::NodeIndex::new(ix))
        .map(|e| (e.weight().clone(), e.target().index()))
        .collect()
}

} // verus!
