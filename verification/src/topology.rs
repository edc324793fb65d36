//! The shape of the dataflow graph: which node feeds which.
//!
//! The shape is kept in a `petgraph` graph without weights. What Verus knows
//! of it is stated here and taken on trust; everything else in the crate is
//! proved from these statements.

use vstd::prelude::*;

verus! {

#[verifier::external_type_specification]
#[verifier::external_body]
#[verifier::reject_recursive_types(N)]
#[verifier::reject_recursive_types(E)]
#[verifier::reject_recursive_types(Ty)]
#[verifier::reject_recursive_types(Ix)]
pub struct ExGraph<N, E, Ty, Ix>(petgraph::graph::Graph<N, E, Ty, Ix>);

#[verifier::external_type_specification]
#[verifier::external_body]
pub struct ExDirected(petgraph::Directed);

/// A directed graph without weights whose nodes are numbered from zero.
pub type Topology = petgraph::graph::Graph<(), (), petgraph::Directed, usize>;

/// Which way to follow the edges at a node.
#[derive(Clone, Copy, Debug, PartialEq, Eq, Structural)]
pub enum Direction {
    /// Towards the nodes that this node feeds.
    Outgoing,
    /// Towards the nodes that feed this node.
    Incoming,
}

/// For each node, the nodes it has an edge to, the most recently added edge first.
pub uninterp spec fn successors(g: Topology) -> Seq<Seq<usize>>;

/// For each node, the nodes it has an edge from, the most recently added edge first.
pub uninterp spec fn predecessors(g: Topology) -> Seq<Seq<usize>>;

/// The edges as (source, target), in the order they were added.
pub uninterp spec fn edge_list(g: Topology) -> Seq<(usize, usize)>;

/// The nodes in the order in which `petgraph::visit::Topo` visits them.
pub uninterp spec fn topological_walk(g: Topology) -> Seq<usize>;

/// The neighbours of `a` in the given direction; none for a node the graph lacks.
pub open spec fn neighbors(g: Topology, a: usize, dir: Direction) -> Seq<usize> {
    match dir {
        Direction::Outgoing => if a < successors(g).len() {
            successors(g)[a as int]
        } else {
            Seq::empty()
        },
        Direction::Incoming => if a < predecessors(g).len() {
            predecessors(g)[a as int]
        } else {
            Seq::empty()
        },
    }
}

/// `Graph::default` of petgraph: a graph with no node and no edge.
#[verifier::external_body]
pub(crate) fn topology_new() -> (g: Topology)
    ensures
        successors(g) == Seq::<Seq<usize>>::empty(),
        predecessors(g) == Seq::<Seq<usize>>::empty(),
        edge_list(g) == Seq::<(usize, usize)>::empty(),
{
    petgraph::graph::Graph::default()
}

/// `Graph::add_node` of petgraph: the new node gets the next number and has
/// no neighbour; no edge changes. With `usize` indices the call has no limit
/// of its own.
#[verifier::external_body]
pub(crate) fn topology_add_node(g: &mut Topology) -> (n: usize)
    ensures
        n == successors(*old(g)).len(),
        successors(*final(g)) == successors(*old(g)).push(Seq::empty()),
        predecessors(*final(g)) == predecessors(*old(g)).push(Seq::empty()),
        edge_list(*final(g)) == edge_list(*old(g)),
{
    g.add_node(()).index()
}

/// `Graph::add_edge` of petgraph, which panics when a node is missing: the
/// edge is put at the head of the source's outgoing list and of the target's
/// incoming list, and at the end of the list of all edges.
#[verifier::external_body]
pub(crate) fn topology_add_edge(g: &mut Topology, a: usize, b: usize)
    requires
        a < successors(*old(g)).len(),
        b < successors(*old(g)).len(),
        a < predecessors(*old(g)).len(),
        b < predecessors(*old(g)).len(),
    ensures
        successors(*final(g)) == successors(*old(g)).update(
            a as int,
            seq![b] + successors(*old(g))[a as int],
        ),
        predecessors(*final(g)) == predecessors(*old(g)).update(
            b as int,
            seq![a] + predecessors(*old(g))[b as int],
        ),
        edge_list(*final(g)) == edge_list(*old(g)).push((a, b)),
{
    g.add_edge(petgraph::graph::NodeIndex::new(a), petgraph::graph::NodeIndex::new(b), ());
}

/// `Graph::neighbors_directed` of petgraph: the neighbours of `a` in the
/// given direction, the most recently added edge first, and none for a node
/// that the graph lacks.
#[verifier::external_body]
pub(crate) fn topology_neighbors(g: &Topology, a: usize, dir: Direction) -> (r: Vec<usize>)
    ensures
        r@ == neighbors(*g, a, dir),
{
    let d = match dir {
        Direction::Outgoing => petgraph::Direction::Outgoing,
        Direction::Incoming => petgraph::Direction::Incoming,
    };
    g.neighbors_directed(petgraph::graph::NodeIndex::new(a), d).map(|n| n.index()).collect()
}

/// `Graph::raw_edges` of petgraph: every edge with its two ends, in the
/// order of addition.
#[verifier::external_body]
pub(crate) fn topology_edges(g: &Topology) -> (r: Vec<(usize, usize)>)
    ensures
        r@ == edge_list(*g),
{
    g.raw_edges().iter().map(|e| (e.source().index(), e.target().index())).collect()
}

/// Whether `order` lists nodes of the graph, none of them twice, each only
/// after all the nodes that it has an edge from, and leaves out only nodes
/// that have an edge from a node that is left out.
pub open spec fn in_topological_order(g: Topology, order: Seq<usize>) -> bool {
    &&& order.no_duplicates()
    &&& forall|k: int| 0 <= k < order.len() ==> (#[trigger] order[k]) < predecessors(g).len()
    &&& forall|k: int, p: usize|
        0 <= k < order.len() && order[k] < predecessors(g).len() && #[trigger] predecessors(
            g,
        )[order[k] as int].contains(p) ==> exists|j: int| 0 <= j < k && #[trigger] order[j] == p
    &&& forall|n: usize|
        n < predecessors(g).len() && !(#[trigger] order.contains(n)) ==> exists|p: usize|
            #[trigger] predecessors(g)[n as int].contains(p) && !order.contains(p)
}

/// `Topo::new` and `Topo::next` of petgraph, called until the walk ends:
/// the nodes in the order in which the walk hands them out. The walk starts
/// at the nodes without incoming edges, hands out no node twice, and hands
/// out a node when, and only when, every node it has an edge from has been
/// handed out: so a node that never comes has an edge from one that never comes.
#[verifier::external_body]
pub(crate) fn topology_walk(g: &Topology) -> (r: Vec<usize>)
    ensures
        r@ == topological_walk(*g),
        in_topological_order(*g, r@),
{
    let mut walker = petgraph::visit::Topo::new(g);
    let mut order = Vec::new();
    while let Some(n) = walker.next(g) {
        order.push(n.index());
    }
    order
}

} // verus!
