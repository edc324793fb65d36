//! The dataflow graph as the planner sees it: nodes, edges, and what the
//! key-tracing layer says about the columns of each node.

use crate::index::{same_columns, Index, IndexView, NodeIndex};
use crate::node::Node;
use crate::topology::{
    edge_list, predecessors, successors, topological_walk, topology_add_edge, topology_add_node,
    topology_edges, topology_neighbors, topology_new, topology_walk, Direction, Topology,
};
use vstd::prelude::*;

verus! {

/// One step of a replay path: a node and the index used at it, if any.
#[derive(Clone, Debug)]
pub struct IndexRef {
    pub node: NodeIndex,
    pub index: Option<Index>,
}

/// A way along which records can be streamed again, from a source (the first
/// segment) to a target (the last).
#[derive(Clone, Debug)]
pub struct ReplayPath {
    pub segments: Vec<IndexRef>,
    /// The path ends early, at a node that generates the columns itself.
    pub broken: bool,
}

/// The replay paths of one index of one node.
#[derive(Clone, Debug)]
pub struct ReplayPathsEntry {
    pub node: NodeIndex,
    pub index: Index,
    pub paths: Vec<ReplayPath>,
}

/// The provenance of a list of columns of one node: for each way up the
/// graph, the nodes passed and what each of the columns is at that node.
#[derive(Clone, Debug)]
pub struct ProvenanceEntry {
    pub node: NodeIndex,
    pub columns: Vec<usize>,
    pub paths: Vec<Vec<(NodeIndex, Vec<Option<usize>>)>>,
}

/// What a [`DataflowGraph`] stands for in contracts.
pub ghost struct GraphView {
    pub nodes: Seq<Node>,
    /// For each node, its children, the most recently added edge first.
    pub successors: Seq<Seq<usize>>,
    /// For each node, its parents, the most recently added edge first.
    pub predecessors: Seq<Seq<usize>>,
    /// The edges as (parent, child), in the order they were added.
    pub edges: Seq<(usize, usize)>,
    /// The nodes in the order of a topological walk.
    pub order: Seq<usize>,
    pub replay_paths: Seq<ReplayPathsEntry>,
    pub provenance: Seq<ProvenanceEntry>,
}

/// The position of the first entry at or after `from` for the node and index.
pub open spec fn find_replay_entry(
    entries: Seq<ReplayPathsEntry>,
    node: NodeIndex,
    index: IndexView,
    from: int,
) -> Option<int>
    decreases entries.len() - from,
{
    if from < 0 || from >= entries.len() {
        None
    } else if entries[from].node == node && entries[from].index@ == index {
        Some(from)
    } else {
        find_replay_entry(entries, node, index, from + 1)
    }
}

/// The position of the first entry at or after `from` for the node and columns.
pub open spec fn find_provenance_entry(
    entries: Seq<ProvenanceEntry>,
    node: NodeIndex,
    columns: Seq<usize>,
    from: int,
) -> Option<int>
    decreases entries.len() - from,
{
    if from < 0 || from >= entries.len() {
        None
    } else if entries[from].node == node && entries[from].columns@ == columns {
        Some(from)
    } else {
        find_provenance_entry(entries, node, columns, from + 1)
    }
}

impl GraphView {
    /// Every node has its two neighbour lists, every neighbour and every end
    /// of an edge is a node, the two neighbour tables agree, and no replay
    /// path is empty.
    pub open spec fn wf(self) -> bool {
        &&& self.successors.len() == self.nodes.len()
        &&& self.predecessors.len() == self.nodes.len()
        &&& forall|a: int, k: int|
            0 <= a < self.successors.len() && 0 <= k < self.successors[a].len()
                ==> #[trigger] self.successors[a][k] < self.nodes.len()
        &&& forall|a: int, k: int|
            0 <= a < self.predecessors.len() && 0 <= k < self.predecessors[a].len()
                ==> #[trigger] self.predecessors[a][k] < self.nodes.len()
        &&& forall|k: int| 0 <= k < self.edges.len() ==> #[trigger] self.edge_within(k)
        &&& forall|e: int, p: int|
            0 <= e < self.replay_paths.len() && 0 <= p < self.replay_paths[e].paths@.len()
                ==> (#[trigger] self.replay_paths[e].paths@[p]).segments@.len() > 0
    }

    /// Both ends of the edge at position `k` are nodes.
    pub open spec fn edge_within(self, k: int) -> bool {
        self.edges[k].0 < self.nodes.len() && self.edges[k].1 < self.nodes.len()
    }

    /// Whether `order` lists nodes of the graph, none of them twice, each
    /// only after all its parents, and leaves out only nodes of which a
    /// parent is left out.
    pub open spec fn parents_first(self, order: Seq<NodeIndex>) -> bool {
        &&& order.no_duplicates()
        &&& forall|k: int| 0 <= k < order.len() ==> self.has_node(#[trigger] order[k])
        &&& forall|k: int, p: NodeIndex|
            0 <= k < order.len() && #[trigger] self.parents(order[k]).contains(p) ==> exists|
                j: int,
            | 0 <= j < k && #[trigger] order[j] == p
        &&& forall|n: NodeIndex|
            self.has_node(n) && !(#[trigger] order.contains(n)) ==> exists|p: NodeIndex|
                #[trigger] self.parents(n).contains(p) && !order.contains(p)
    }

    /// Whether `rank` gives every node a rank above the ranks of its
    /// parents; a graph that has such ranks has no cycle.
    pub open spec fn ranked(self, rank: Seq<nat>) -> bool {
        &&& rank.len() == self.nodes.len()
        &&& forall|n: NodeIndex, p: NodeIndex|
            self.has_node(n) && #[trigger] self.parents(n).contains(p) ==> self.has_node(p)
                && rank[p as int] < rank[n as int]
    }

    /// Whether `n` is a node of the graph.
    pub open spec fn has_node(self, n: NodeIndex) -> bool {
        n < self.nodes.len()
    }

    /// The children of `n`; none for a node the graph lacks.
    pub open spec fn children(self, n: NodeIndex) -> Seq<usize> {
        if n < self.successors.len() {
            self.successors[n as int]
        } else {
            Seq::empty()
        }
    }

    /// The parents of `n`; none for a node the graph lacks.
    pub open spec fn parents(self, n: NodeIndex) -> Seq<usize> {
        if n < self.predecessors.len() {
            self.predecessors[n as int]
        } else {
            Seq::empty()
        }
    }

    /// The neighbours of `n` in the given direction.
    pub open spec fn neighbors(self, n: NodeIndex, dir: Direction) -> Seq<usize> {
        match dir {
            Direction::Outgoing => self.children(n),
            Direction::Incoming => self.parents(n),
        }
    }

    /// The replay paths known for the index of the node: those of the first entry for them.
    pub open spec fn replay_paths_for(self, node: NodeIndex, index: IndexView) -> Option<
        Seq<ReplayPath>,
    > {
        match find_replay_entry(self.replay_paths, node, index, 0) {
            Some(e) => Some(self.replay_paths[e].paths@),
            None => None,
        }
    }

    /// The provenance known for the columns of the node: that of the first entry for them.
    pub open spec fn provenance_of(self, node: NodeIndex, columns: Seq<usize>) -> Option<
        Seq<Vec<(NodeIndex, Vec<Option<usize>>)>>,
    > {
        match find_provenance_entry(self.provenance, node, columns, 0) {
            Some(e) => Some(self.provenance[e].paths@),
            None => None,
        }
    }

    /// Whether `other` is this graph but for the purge flags of its nodes.
    pub open spec fn differs_in_purge_only(self, other: GraphView) -> bool {
        &&& other == (GraphView { nodes: other.nodes, ..self })
        &&& other.nodes.len() == self.nodes.len()
        &&& forall|i: int|
            0 <= i < self.nodes.len() ==> #[trigger] other.nodes[i] == self.nodes[i].with_purge(
                other.nodes[i].purge,
            )
    }

    /// The same graph with another purge flag on node `n`.
    pub open spec fn with_purge(self, n: NodeIndex, purge: bool) -> GraphView {
        GraphView { nodes: self.nodes.update(n as int, self.nodes[n as int].with_purge(purge)), ..self }
    }
}

/// The dataflow graph.
#[derive(Debug)]
pub struct DataflowGraph {
    topology: Topology,
    nodes: Vec<Node>,
    replay_paths: Vec<ReplayPathsEntry>,
    provenance: Vec<ProvenanceEntry>,
}

impl View for DataflowGraph {
    type V = GraphView;

    closed spec fn view(&self) -> GraphView {
        GraphView {
            nodes: self.nodes@,
            successors: successors(self.topology),
            predecessors: predecessors(self.topology),
            edges: edge_list(self.topology),
            order: topological_walk(self.topology),
            replay_paths: self.replay_paths@,
            provenance: self.provenance@,
        }
    }
}

impl DataflowGraph {
    /// What the graph stands for is well-formed.
    pub open spec fn wf(&self) -> bool {
        self@.wf()
    }

    /// A graph without nodes.
    pub fn new() -> (g: DataflowGraph)
        ensures
            g.wf(),
            g@.nodes.len() == 0,
            g@.edges.len() == 0,
            g@.replay_paths.len() == 0,
            g@.provenance.len() == 0,
    {
        DataflowGraph {
            topology: topology_new(),
            nodes: Vec::new(),
            replay_paths: Vec::new(),
            provenance: Vec::new(),
        }
    }

    /// The number of nodes.
    pub fn node_count(&self) -> (n: usize)
        requires
            self.wf(),
        ensures
            n == self@.nodes.len(),
    {
        self.nodes.len()
    }

    /// Adds a node without edges and returns its index.
    pub fn add_node(&mut self, node: Node) -> (n: NodeIndex)
        requires
            old(self).wf(),
        ensures
            final(self).wf(),
            n == old(self)@.nodes.len(),
            final(self)@.nodes == old(self)@.nodes.push(node),
            final(self)@.successors == old(self)@.successors.push(Seq::empty()),
            final(self)@.predecessors == old(self)@.predecessors.push(Seq::empty()),
            final(self)@.edges == old(self)@.edges,
            final(self)@.replay_paths == old(self)@.replay_paths,
            final(self)@.provenance == old(self)@.provenance,
    {
        let ghost before = self@;
        let n = topology_add_node(&mut self.topology);
        self.nodes.push(node);
        proof {
            let after = self@;
            assert forall|a: int, k: int|
                0 <= a < after.successors.len() && 0 <= k < after.successors[a].len()
                implies #[trigger] after.successors[a][k] < after.nodes.len() by {
                assert(after.successors[a][k] == before.successors[a][k]);
            }
            assert forall|a: int, k: int|
                0 <= a < after.predecessors.len() && 0 <= k < after.predecessors[a].len()
                implies #[trigger] after.predecessors[a][k] < after.nodes.len() by {
                assert(after.predecessors[a][k] == before.predecessors[a][k]);
            }
            assert forall|k: int| 0 <= k < after.edges.len() implies #[trigger] after.edge_within(
                k,
            ) by {
                assert(before.edge_within(k));
            }
        }
        n
    }

    /// Adds an edge from `parent` to `child` if both are nodes of the graph; says whether it did.
    pub fn add_edge(&mut self, parent: NodeIndex, child: NodeIndex) -> (added: bool)
        requires
            old(self).wf(),
        ensures
            final(self).wf(),
            added == (old(self)@.has_node(parent) && old(self)@.has_node(child)),
            !added ==> final(self)@ == old(self)@,
            added ==> final(self)@ == (GraphView {
                successors: old(self)@.successors.update(
                    parent as int,
                    seq![child] + old(self)@.successors[parent as int],
                ),
                predecessors: old(self)@.predecessors.update(
                    child as int,
                    seq![parent] + old(self)@.predecessors[child as int],
                ),
                edges: old(self)@.edges.push((parent, child)),
                order: final(self)@.order,
                ..old(self)@
            }),
    {
        if parent < self.nodes.len() && child < self.nodes.len() {
            let ghost before = self@;
            topology_add_edge(&mut self.topology, parent, child);
            proof {
                let after = self@;
                assert forall|a: int, k: int|
                    0 <= a < after.successors.len() && 0 <= k < after.successors[a].len()
                    implies #[trigger] after.successors[a][k] < after.nodes.len() by {
                    if a == parent && k > 0 {
                        assert(after.successors[a][k] == before.successors[a][k - 1]);
                    }
                }
                assert forall|a: int, k: int|
                    0 <= a < after.predecessors.len() && 0 <= k < after.predecessors[a].len()
                    implies #[trigger] after.predecessors[a][k] < after.nodes.len() by {
                    if a == child && k > 0 {
                        assert(after.predecessors[a][k] == before.predecessors[a][k - 1]);
                    }
                }
                assert forall|k: int| 0 <= k < after.edges.len() implies #[trigger] after.edge_within(
                    k,
                ) by {
                    if k < before.edges.len() {
                        assert(before.edge_within(k));
                    }
                }
            }
            true
        } else {
            false
        }
    }

    /// The node at index `n`.
    pub fn node(&self, n: NodeIndex) -> (r: &Node)
        requires
            self@.has_node(n),
        ensures
            *r == self@.nodes[n as int],
    {
        &self.nodes[n]
    }

    /// The node at index `n`, if the graph has it.
    pub fn get(&self, n: NodeIndex) -> (r: Option<&Node>)
        ensures
            r is Some == self@.has_node(n),
            r matches Some(node) ==> *node == self@.nodes[n as int],
    {
        if n < self.nodes.len() {
            Some(&self.nodes[n])
        } else {
            None
        }
    }

    /// Sets the purge flag of node `n`.
    pub fn set_purge(&mut self, n: NodeIndex, purge: bool)
        requires
            old(self).wf(),
            old(self)@.has_node(n),
        ensures
            final(self).wf(),
            final(self)@ == old(self)@.with_purge(n, purge),
    {
        let ghost before = self@;
        let ghost old_node = self.nodes@[n as int];
        let node = &mut self.nodes[n];
        node.purge = purge;
        assert(self.nodes@[n as int] == old_node.with_purge(purge));
        assert(self.nodes@ =~= before.nodes.update(n as int, old_node.with_purge(purge)));
        proof {
            let after = self@;
            assert forall|k: int| 0 <= k < after.edges.len() implies #[trigger] after.edge_within(
                k,
            ) by {
                assert(before.edge_within(k));
            }
        }
    }

    /// The neighbours of `n` in the given direction, the most recently added edge first.
    pub fn neighbors(&self, n: NodeIndex, dir: Direction) -> (r: Vec<NodeIndex>)
        requires
            self.wf(),
        ensures
            r@ == self@.neighbors(n, dir),
            forall|k: int| 0 <= k < r@.len() ==> self@.has_node(#[trigger] r@[k]),
    {
        topology_neighbors(&self.topology, n, dir)
    }

    /// The children of `n`.
    pub fn children(&self, n: NodeIndex) -> (r: Vec<NodeIndex>)
        requires
            self.wf(),
        ensures
            r@ == self@.children(n),
            forall|k: int| 0 <= k < r@.len() ==> self@.has_node(#[trigger] r@[k]),
    {
        self.neighbors(n, Direction::Outgoing)
    }

    /// The parents of `n`.
    pub fn parents(&self, n: NodeIndex) -> (r: Vec<NodeIndex>)
        requires
            self.wf(),
        ensures
            r@ == self@.parents(n),
            forall|k: int| 0 <= k < r@.len() ==> self@.has_node(#[trigger] r@[k]),
    {
        self.neighbors(n, Direction::Incoming)
    }

    /// The edges as (parent, child), in the order they were added.
    pub fn edges(&self) -> (r: Vec<(NodeIndex, NodeIndex)>)
        ensures
            r@ == self@.edges,
    {
        topology_edges(&self.topology)
    }

    /// The nodes in the order of a topological walk from the nodes without
    /// parents: no node comes twice, and each comes after all its parents. A
    /// node on a cycle, or below one, does not come at all; every other node does.
    pub fn topological_order(&self) -> (r: Vec<NodeIndex>)
        requires
            self.wf(),
        ensures
            r@ == self@.order,
            self@.parents_first(r@),
    {
        let r = topology_walk(&self.topology);
        proof {
            let g = self@;
            assert forall|n: NodeIndex| g.has_node(n) && !(#[trigger] r@.contains(n)) implies exists|
                p: NodeIndex,
            | #[trigger] g.parents(n).contains(p) && !r@.contains(p) by {
                let p = choose|p: usize|
                    #[trigger] predecessors(self.topology)[n as int].contains(p) && !r@.contains(p);
                assert(g.parents(n).contains(p));
            }
        }
        r
    }

    /// Records the replay paths of an index of a node, unless one of them is empty;
    /// says whether it did. The first record for a node and index is the one that counts.
    pub fn add_replay_paths(&mut self, node: NodeIndex, index: Index, paths: Vec<ReplayPath>) -> (added:
        bool)
        requires
            old(self).wf(),
        ensures
            final(self).wf(),
            added == (forall|p: int| 0 <= p < paths@.len() ==> paths@[p].segments@.len() > 0),
            !added ==> final(self)@ == old(self)@,
            added ==> final(self)@ == (GraphView {
                replay_paths: old(self)@.replay_paths.push(ReplayPathsEntry { node, index, paths }),
                ..old(self)@
            }),
    {
        let mut p: usize = 0;
        while p < paths.len()
            invariant
                p <= paths.len(),
                *self == *old(self),
                self.wf(),
                forall|k: int| 0 <= k < p ==> paths@[k].segments@.len() > 0,
            decreases paths.len() - p,
        {
            if paths[p].segments.len() == 0 {
                return false;
            }
            p += 1;
        }
        let ghost before = self@;
        self.replay_paths.push(ReplayPathsEntry { node, index, paths });
        proof {
            let after = self@;
            assert forall|k: int| 0 <= k < after.edges.len() implies #[trigger] after.edge_within(
                k,
            ) by {
                assert(before.edge_within(k));
            }
        }
        true
    }

    /// Records the provenance of a list of columns of a node. The first record
    /// for a node and columns is the one that counts.
    pub fn add_provenance(
        &mut self,
        node: NodeIndex,
        columns: Vec<usize>,
        paths: Vec<Vec<(NodeIndex, Vec<Option<usize>>)>>,
    )
        requires
            old(self).wf(),
        ensures
            final(self).wf(),
            final(self)@ == (GraphView {
                provenance: old(self)@.provenance.push(ProvenanceEntry { node, columns, paths }),
                ..old(self)@
            }),
    {
        let ghost before = self@;
        self.provenance.push(ProvenanceEntry { node, columns, paths });
        proof {
            let after = self@;
            assert forall|k: int| 0 <= k < after.edges.len() implies #[trigger] after.edge_within(
                k,
            ) by {
                assert(before.edge_within(k));
            }
        }
    }

    /// The replay paths recorded for the index of the node.
    pub fn replay_paths_for_nonstop(&self, node: NodeIndex, index: &Index) -> (r: Option<
        &Vec<ReplayPath>,
    >)
        requires
            self.wf(),
        ensures
            r is Some == self@.replay_paths_for(node, index@) is Some,
            r matches Some(paths) ==> paths@ == self@.replay_paths_for(node, index@)->0,
            r matches Some(paths) ==> forall|p: int|
                0 <= p < paths@.len() ==> (#[trigger] paths@[p]).segments@.len() > 0,
    {
        let mut e: usize = 0;
        while e < self.replay_paths.len()
            invariant
                e <= self.replay_paths.len(),
                self.wf(),
                find_replay_entry(self@.replay_paths, node, index@, 0) == find_replay_entry(
                    self@.replay_paths,
                    node,
                    index@,
                    e as int,
                ),
            decreases self.replay_paths.len() - e,
        {
            if self.replay_paths[e].node == node && self.replay_paths[e].index.same(index) {
                return Some(&self.replay_paths[e].paths);
            }
            e += 1;
        }
        None
    }

    /// The provenance recorded for the columns of the node.
    pub fn provenance_of(&self, node: NodeIndex, columns: &Vec<usize>) -> (r: Option<
        &Vec<Vec<(NodeIndex, Vec<Option<usize>>)>>,
    >)
        ensures
            r is Some == self@.provenance_of(node, columns@) is Some,
            r matches Some(paths) ==> paths@ == self@.provenance_of(node, columns@)->0,
    {
        let mut e: usize = 0;
        while e < self.provenance.len()
            invariant
                e <= self.provenance.len(),
                find_provenance_entry(self@.provenance, node, columns@, 0)
                    == find_provenance_entry(self@.provenance, node, columns@, e as int),
            decreases self.provenance.len() - e,
        {
            if self.provenance[e].node == node && same_columns(&self.provenance[e].columns, columns) {
                return Some(&self.provenance[e].paths);
            }
            e += 1;
        }
        None
    }
}

} // verus!
