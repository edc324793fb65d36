//! Checking the materializations against the graph before they are committed.

use crate::collections::{table_get, NodeSet};
use crate::error::{InvalidEdge, PlanError};
use crate::graph::{DataflowGraph, ReplayPath};
use crate::index::{Index, NodeIndex};
use crate::node::Sharding;
use crate::search::{find_marked, reaches};
use crate::state::Materializations;
use crate::topology::Direction;
use crate::validation::{
    alias_in, all_columns, checked_for_full, checked_for_overlap, column_source, columns_within,
    conflict_at, first_with_state, frontier_closed, frontier_error, full_below_partial,
    has_invalid_edge, invalid_edge, merger_sharding, node_overlap, non_partial_nodes, overlap_free,
    overlap_in, overlaps_in_part, partial_nodes, path_conflict, path_sharding, paths_conflict,
    paths_sharding, purge_above, purged_nodes, sharding_from, share_column, unmaterialized_nodes,
    valid, validation_error,
};
use vstd::prelude::*;

verus! {

/// Whether `c` is one of the columns.
pub fn columns_contain(columns: &Vec<usize>, c: usize) -> (r: bool)
    ensures
        r == columns@.contains(c),
{
    let mut k: usize = 0;
    while k < columns.len()
        invariant
            k <= columns.len(),
            forall|j: int| 0 <= j < k ==> columns@[j] != c,
        decreases columns.len() - k,
    {
        if columns[k] == c {
            return true;
        }
        k += 1;
    }
    false
}

/// Whether some column of `a` is a column of `b`.
pub fn columns_share(a: &Vec<usize>, b: &Vec<usize>) -> (r: bool)
    ensures
        r == share_column(a@, b@),
{
    let mut k: usize = 0;
    while k < a.len()
        invariant
            k <= a.len(),
            forall|j: int| 0 <= j < k ==> !b@.contains(#[trigger] a@[j]),
        decreases a.len() - k,
    {
        if columns_contain(b, a[k]) {
            return true;
        }
        k += 1;
    }
    false
}

/// Whether every column of `a` is a column of `b`.
pub fn columns_all_within(a: &Vec<usize>, b: &Vec<usize>) -> (r: bool)
    ensures
        r == columns_within(a@, b@),
{
    let mut k: usize = 0;
    while k < a.len()
        invariant
            k <= a.len(),
            forall|j: int| 0 <= j < k ==> b@.contains(#[trigger] a@[j]),
        decreases a.len() - k,
    {
        if !columns_contain(b, a[k]) {
            return false;
        }
        k += 1;
    }
    true
}

/// Whether the two indexes, of whatever kind, share some of their columns, but not all.
pub fn index_overlaps(p: &Index, c: &Index) -> (r: bool)
    ensures
        r == overlaps_in_part(p@, c@),
{
    columns_share(&p.columns, &c.columns) && !(columns_all_within(
        &p.columns,
        &c.columns,
    ) && columns_all_within(&c.columns, &p.columns))
}

impl Materializations {
    /// For each node, whether it is not partial, and whether it is.
    pub fn partial_flags(&self, graph: &DataflowGraph) -> (r: (Vec<bool>, Vec<bool>))
        requires
            self.wf(),
            graph.wf(),
        ensures
            r.0@ == non_partial_nodes(self@, graph@),
            r.1@ == partial_nodes(self@, graph@),
    {
        let n = graph.node_count();
        let mut pass: Vec<bool> = Vec::new();
        let mut hit: Vec<bool> = Vec::new();
        let mut c: usize = 0;
        while c < n
            invariant
                c <= n,
                n == graph@.nodes.len(),
                pass@.len() == c,
                hit@.len() == c,
                forall|k: int| 0 <= k < c ==> pass@[k] == !self@.partial.contains(k as usize),
                forall|k: int| 0 <= k < c ==> hit@[k] == self@.partial.contains(k as usize),
            decreases n - c,
        {
            let partial = self.partial.contains(c);
            pass.push(!partial);
            hit.push(partial);
            c += 1;
        }
        assert(pass@ =~= non_partial_nodes(self@, graph@));
        assert(hit@ =~= partial_nodes(self@, graph@));
        (pass, hit)
    }

    /// Looks above node `ni`, if it is not partial, for a partial node, and
    /// returns the edge below the first one found.
    pub fn full_below(
        &self,
        graph: &DataflowGraph,
        ni: NodeIndex,
        pass: &Vec<bool>,
        hit: &Vec<bool>,
    ) -> (r: Option<InvalidEdge>)
        requires
            self.wf(),
            graph.wf(),
            pass@ == non_partial_nodes(self@, graph@),
            hit@ == partial_nodes(self@, graph@),
        ensures
            r is Some == full_below_partial(self@, graph@, ni),
            r matches Some(e) ==> {
                &&& self@.partial.contains(e.parent)
                &&& !self@.partial.contains(e.child)
                &&& graph@.parents(e.child).contains(e.parent)
                &&& e.child == ni || reaches(
                    graph@,
                    ni,
                    Direction::Incoming,
                    non_partial_nodes(self@, graph@),
                    e.child,
                )
            },
    {
        if self.partial.contains(ni) {
            return None;
        }
        match find_marked(graph, ni, Direction::Incoming, pass, hit) {
            None => None,
            Some((found, from)) => Some(InvalidEdge { parent: found, child: from }),
        }
    }

    /// Looks for a node that got an index, or a reader that came, since the
    /// last commit, that is not partial though a node above it is. Returns
    /// an edge from a partial node to a node that is not, above such a node.
    pub fn check_full_below_partial(&self, graph: &DataflowGraph) -> (r: Option<InvalidEdge>)
        requires
            self.wf(),
            graph.wf(),
        ensures
            r is Some == has_invalid_edge(self@, graph@),
            r matches Some(e) ==> invalid_edge(self@, graph@, e),
    {
        let (pass, hit) = self.partial_flags(graph);
        let ghost keys = self.added.order();
        let mut i: usize = 0;
        while i < self.added.len()
            invariant
                i <= keys.len(),
                keys == self.added.order(),
                self.wf(),
                graph.wf(),
                pass@ == non_partial_nodes(self@, graph@),
                hit@ == partial_nodes(self@, graph@),
                forall|k: int| 0 <= k < i ==> !full_below_partial(self@, graph@, #[trigger] keys[k]),
            decreases keys.len() - i,
        {
            let ni = self.added.key_at(i);
            match self.full_below(graph, ni, &pass, &hit) {
                Some(e) => {
                    assert(checked_for_full(self@, ni) && full_below_partial(self@, graph@, ni));
                    return Some(e);
                },
                None => {},
            }
            i += 1;
        }
        let ghost readers = self.new_readers.order();
        let mut i: usize = 0;
        while i < self.new_readers.len()
            invariant
                i <= readers.len(),
                keys == self.added.order(),
                readers == self.new_readers.order(),
                self.wf(),
                graph.wf(),
                pass@ == non_partial_nodes(self@, graph@),
                hit@ == partial_nodes(self@, graph@),
                forall|k: int|
                    0 <= k < keys.len() ==> !full_below_partial(self@, graph@, #[trigger] keys[k]),
                forall|k: int|
                    0 <= k < i ==> !full_below_partial(self@, graph@, #[trigger] readers[k]),
            decreases readers.len() - i,
        {
            let ni = self.new_readers.get(i);
            match self.full_below(graph, ni, &pass, &hit) {
                Some(e) => {
                    assert(checked_for_full(self@, ni) && full_below_partial(self@, graph@, ni));
                    return Some(e);
                },
                None => {},
            }
            i += 1;
        }
        proof {
            self.new_readers.lemma_members();
            assert forall|ni: NodeIndex| checked_for_full(self@, ni) implies !full_below_partial(
                self@,
                graph@,
                ni,
            ) by {
                if self@.added.contains_key(ni) {
                    assert(keys.to_set().contains(ni));
                    let k = choose|k: int| 0 <= k < keys.len() && keys[k] == ni;
                    assert(!full_below_partial(self@, graph@, keys[k]));
                } else {
                    assert(readers.contains(ni));
                    let k = choose|k: int| 0 <= k < readers.len() && readers[k] == ni;
                    assert(!full_below_partial(self@, graph@, readers[k]));
                }
            }
        }
        None
    }

    /// Whether the partial node `a` stands in the way of a replay with index `c`.
    pub fn conflict(&self, a: NodeIndex, c: &Index) -> (r: bool)
        requires
            self.wf(),
        ensures
            r == conflict_at(self@, a, c@),
    {
        match self.have.get(a) {
            None => false,
            Some(set) => {
                if set.contains(c) {
                    return false;
                }
                let mut k: usize = 0;
                while k < set.len()
                    invariant
                        k <= set@.len(),
                        set@ == table_get(self@.have, a),
                        !set@.contains(c@),
                        overlap_in(set@, c@, 0) == overlap_in(set@, c@, k as int),
                    decreases set@.len() - k,
                {
                    if index_overlaps(set.get(k), c) {
                        return true;
                    }
                    k += 1;
                }
                false
            },
        }
    }

    /// The first partial node that stands in the way on the replay path,
    /// looking from the target upwards to the first segment without an index.
    pub fn conflict_on_path(&self, path: &ReplayPath) -> (r: Option<NodeIndex>)
        requires
            self.wf(),
        ensures
            r == path_conflict(self@, *path, 0),
    {
        let len = path.segments.len();
        let mut i: usize = 0;
        while i < len
            invariant
                i <= len,
                len == path.segments@.len(),
                self.wf(),
                path_conflict(self@, *path, 0) == path_conflict(self@, *path, i as int),
            decreases len - i,
        {
            let seg = &path.segments[len - 1 - i];
            match &seg.index {
                None => {
                    return None;
                },
                Some(c) => {
                    if self.partial.contains(seg.node) && self.conflict(seg.node, c) {
                        return Some(seg.node);
                    }
                },
            }
            i += 1;
        }
        None
    }

    /// The first partial node that stands in the way on one of the replay paths.
    pub fn conflict_on_paths(&self, paths: &Vec<ReplayPath>) -> (r: Option<NodeIndex>)
        requires
            self.wf(),
        ensures
            r == paths_conflict(self@, paths@, 0),
    {
        let mut p: usize = 0;
        while p < paths.len()
            invariant
                p <= paths.len(),
                self.wf(),
                paths_conflict(self@, paths@, 0) == paths_conflict(self@, paths@, p as int),
            decreases paths.len() - p,
        {
            match self.conflict_on_path(&paths[p]) {
                Some(a) => {
                    return Some(a);
                },
                None => {},
            }
            p += 1;
        }
        None
    }

    /// What is wrong with the added indexes of node `ni`, if anything.
    pub fn check_node_overlap(&self, graph: &DataflowGraph, ni: NodeIndex) -> (r: Option<PlanError>)
        requires
            self.wf(),
            graph.wf(),
        ensures
            r == node_overlap(self@, graph@, ni, 0),
    {
        match self.added.get(ni) {
            None => None,
            Some(set) => {
                assert(set@ == table_get(self@.added, ni));
                let mut j: usize = 0;
                while j < set.len()
                    invariant
                        j <= set@.len(),
                        self.wf(),
                        graph.wf(),
                        set@ == table_get(self@.added, ni),
                        node_overlap(self@, graph@, ni, 0) == node_overlap(
                            self@,
                            graph@,
                            ni,
                            j as int,
                        ),
                    decreases set@.len() - j,
                {
                    match graph.replay_paths_for_nonstop(ni, set.get(j)) {
                        None => {
                            return Some(PlanError::PathsUnavailable { node: ni });
                        },
                        Some(paths) => match self.conflict_on_paths(paths) {
                            Some(a) => {
                                return Some(
                                    PlanError::OverlappingPartialIndices { parent: a, child: ni },
                                );
                            },
                            None => {},
                        },
                    }
                    j += 1;
                }
                None
            },
        }
    }

    /// Checks that no partial node with added indexes has a partial node in
    /// the way of its replays, and says what is wrong at one that has.
    pub fn check_overlaps(&self, graph: &DataflowGraph) -> (r: Result<(), PlanError>)
        requires
            self.wf(),
            graph.wf(),
        ensures
            r is Ok == overlap_free(self@, graph@),
            r matches Err(e) ==> exists|ni: NodeIndex|
                checked_for_overlap(self@, ni) && node_overlap(self@, graph@, ni, 0) == Some(e),
    {
        let ghost keys = self.added.order();
        let mut i: usize = 0;
        while i < self.added.len()
            invariant
                i <= keys.len(),
                keys == self.added.order(),
                self.wf(),
                graph.wf(),
                forall|k: int|
                    0 <= k < i && self@.partial.contains(#[trigger] keys[k]) ==> node_overlap(
                        self@,
                        graph@,
                        keys[k],
                        0,
                    ) is None,
            decreases keys.len() - i,
        {
            let ni = self.added.key_at(i);
            if self.partial.contains(ni) {
                match self.check_node_overlap(graph, ni) {
                    Some(e) => {
                        assert(checked_for_overlap(self@, ni) && node_overlap(
                            self@,
                            graph@,
                            ni,
                            0,
                        ) == Some(e));
                        return Err(e);
                    },
                    None => {},
                }
            }
            i += 1;
        }
        proof {
            assert forall|ni: NodeIndex| checked_for_overlap(self@, ni) implies node_overlap(
                self@,
                graph@,
                ni,
                0,
            ) is None by {
                assert(keys.to_set().contains(ni));
                let k = choose|k: int| 0 <= k < keys.len() && keys[k] == ni;
                assert(self@.partial.contains(keys[k]));
            }
        }
        Ok(())
    }

    /// For each node, whether it is not materialized, and whether it lies beyond the frontier.
    pub fn frontier_flags(&self, graph: &DataflowGraph) -> (r: (Vec<bool>, Vec<bool>))
        requires
            self.wf(),
            graph.wf(),
        ensures
            r.0@ == unmaterialized_nodes(self@, graph@),
            r.1@ == purged_nodes(graph@),
    {
        let n = graph.node_count();
        let mut pass: Vec<bool> = Vec::new();
        let mut hit: Vec<bool> = Vec::new();
        let mut c: usize = 0;
        while c < n
            invariant
                c <= n,
                n == graph@.nodes.len(),
                self.wf(),
                pass@.len() == c,
                hit@.len() == c,
                forall|k: int| 0 <= k < c ==> pass@[k] == !self@.have.contains_key(k as usize),
                forall|k: int| 0 <= k < c ==> hit@[k] == graph@.nodes[k].purge,
            decreases n - c,
        {
            pass.push(!self.have.contains_key(c));
            hit.push(graph.node(c).purge);
            c += 1;
        }
        assert(pass@ =~= unmaterialized_nodes(self@, graph@));
        assert(hit@ =~= purged_nodes(graph@));
        (pass, hit)
    }

    /// Checks that every new node is a node of the graph and that none keeps
    /// state within the frontier below a node beyond it.
    pub fn check_frontier(&self, graph: &DataflowGraph, new: &NodeSet) -> (r: Result<(), PlanError>)
        requires
            self.wf(),
            graph.wf(),
            new.wf(),
        ensures
            r is Ok == frontier_closed(self@, graph@, new@),
            r matches Err(e) ==> frontier_error(self@, graph@, new@, e),
    {
        let (pass, hit) = self.frontier_flags(graph);
        let ghost order = new.order();
        let mut i: usize = 0;
        while i < new.len()
            invariant
                i <= order.len(),
                order == new.order(),
                new.wf(),
                self.wf(),
                graph.wf(),
                pass@ == unmaterialized_nodes(self@, graph@),
                hit@ == purged_nodes(graph@),
                forall|k: int|
                    0 <= k < i ==> graph@.has_node(#[trigger] order[k]) && !purge_above(
                        self@,
                        graph@,
                        order[k],
                    ),
            decreases order.len() - i,
        {
            let ni = new.get(i);
            match graph.get(ni) {
                None => {
                    return Err(PlanError::UnknownNode { node: ni });
                },
                Some(node) => {
                    if (node.is_reader() || self.have.contains_key(ni)) && !node.purge {
                        match find_marked(graph, ni, Direction::Incoming, &pass, &hit) {
                            Some((found, _from)) => {
                                assert(purge_above(self@, graph@, ni));
                                return Err(PlanError::PurgeAboveNonPurge { node: found });
                            },
                            None => {},
                        }
                    }
                },
            }
            i += 1;
        }
        proof {
            new.lemma_members();
            assert forall|ni: NodeIndex| new@.contains(ni) implies graph@.has_node(ni)
                && !purge_above(self@, graph@, ni) by {
                let k = choose|k: int| 0 <= k < order.len() && order[k] == ni;
                assert(graph@.has_node(order[k]));
            }
        }
        Ok(())
    }

    /// What is wrong on one provenance path of the columns of `parent`, which
    /// is sharded by column `col`, if anything.
    pub fn check_path_sharding(
        &self,
        parent: NodeIndex,
        col: usize,
        path: &Vec<(NodeIndex, Vec<Option<usize>>)>,
    ) -> (r: Option<PlanError>)
        requires
            self.wf(),
        ensures
            r == path_sharding(self@, parent, col, path@),
    {
        let mut j: usize = 0;
        while j < path.len() && !self.have.contains_key(path[j].0)
            invariant
                j <= path.len(),
                self.wf(),
                first_with_state(self@, path@, 0) == first_with_state(self@, path@, j as int),
            decreases path.len() - j,
        {
            j += 1;
        }
        if j >= path.len() {
            return Some(PlanError::NoMaterializedAncestor { node: parent });
        }
        assert(first_with_state(self@, path@, 0) == Some(j as int));
        let ancestor = path[j].0;
        let cols = &path[j].1;
        let src = if col < cols.len() {
            cols[col]
        } else {
            None
        };
        match src {
            None => None,
            Some(source) => {
                let mut c: usize = 0;
                while c < cols.len()
                    invariant
                        c <= cols.len(),
                        src == Some(source),
                        src == column_source(cols@, col),
                        j < path@.len(),
                        first_with_state(self@, path@, 0) == Some(j as int),
                        ancestor == path@[j as int].0,
                        cols@ == path@[j as int].1@,
                        alias_in(cols@, col, src, 0) == alias_in(cols@, col, src, c as int),
                    decreases cols.len() - c,
                {
                    let same = match cols[c] {
                        Some(other) => other == source,
                        None => false,
                    };
                    if c != col && same {
                        return Some(
                            PlanError::AliasedSharding {
                                ancestor,
                                sharded: parent,
                                alias: c,
                                shard: col,
                            },
                        );
                    }
                    c += 1;
                }
                None
            },
        }
    }

    /// What is wrong with the sharding at node `node`, if it merges shards and anything is.
    pub fn check_merger(&self, graph: &DataflowGraph, node: NodeIndex) -> (r: Option<PlanError>)
        requires
            self.wf(),
            graph.wf(),
            graph@.has_node(node),
        ensures
            r == merger_sharding(self@, graph@, node),
    {
        let n = graph.node(node);
        if !n.is_shard_merger() {
            return None;
        }
        let parents = graph.parents(node);
        if parents.len() == 0 {
            return Some(PlanError::ShardMergerWithoutParent { node });
        }
        let parent = parents[0];
        assert(graph@.has_node(parents@[0]));
        match graph.node(parent).sharded_by {
            Sharding::ByColumn(col, _) => {
                let count = n.parent_columns.len();
                let mut columns: Vec<usize> = Vec::new();
                let mut k: usize = 0;
                while k < count
                    invariant
                        k <= count,
                        columns@ == all_columns(k as nat),
                    decreases count - k,
                {
                    columns.push(k);
                    assert(columns@ =~= all_columns((k + 1) as nat));
                    k += 1;
                }
                match graph.provenance_of(parent, &columns) {
                    None => Some(PlanError::ProvenanceUnavailable { node: parent }),
                    Some(paths) => {
                        let mut p: usize = 0;
                        while p < paths.len()
                            invariant
                                p <= paths.len(),
                                self.wf(),
                                merger_sharding(self@, graph@, node) == paths_sharding(
                                    self@,
                                    parent,
                                    col,
                                    paths@,
                                    0,
                                ),
                                paths_sharding(self@, parent, col, paths@, 0) == paths_sharding(
                                    self@,
                                    parent,
                                    col,
                                    paths@,
                                    p as int,
                                ),
                            decreases paths.len() - p,
                        {
                            match self.check_path_sharding(parent, col, &paths[p]) {
                                Some(e) => {
                                    return Some(e);
                                },
                                None => {},
                            }
                            p += 1;
                        }
                        None
                    },
                }
            },
            _ => None,
        }
    }

    /// Checks at each new node that merges shards that the column by which
    /// its parent is sharded has no alias at the nearest materialized node
    /// on any provenance path.
    pub fn check_sharding(&self, graph: &DataflowGraph, new: &NodeSet) -> (r: Result<(), PlanError>)
        requires
            self.wf(),
            graph.wf(),
        ensures
            match sharding_from(self@, graph@, new.order(), 0) {
                None => r is Ok,
                Some(e) => r == Err::<(), PlanError>(e),
            },
    {
        let ghost order = new.order();
        let mut i: usize = 0;
        while i < new.len()
            invariant
                i <= order.len(),
                order == new.order(),
                self.wf(),
                graph.wf(),
                sharding_from(self@, graph@, order, 0) == sharding_from(
                    self@,
                    graph@,
                    order,
                    i as int,
                ),
            decreases order.len() - i,
        {
            let ni = new.get(i);
            if ni >= graph.node_count() {
                return Err(PlanError::UnknownNode { node: ni });
            }
            match self.check_merger(graph, ni) {
                Some(e) => {
                    return Err(e);
                },
                None => {},
            }
            i += 1;
        }
        Ok(())
    }

    /// Checks the materializations against the graph, as far as the new nodes go.
    ///
    /// Returns an edge to reroute where a node that is not partial lies
    /// below a partial one. Otherwise fails where a partial node overlaps an
    /// index of a partial ancestor in part, where a node within the frontier
    /// lies below one beyond it, or where the column a subgraph is sharded
    /// by has an alias at its shard merger.
    pub fn validate(&self, graph: &DataflowGraph, new: &NodeSet) -> (r: Result<
        Option<InvalidEdge>,
        PlanError,
    >)
        requires
            self.wf(),
            graph.wf(),
            new.wf(),
        ensures
            match r {
                Ok(Some(e)) => invalid_edge(self@, graph@, e),
                Ok(None) => valid(self@, graph@, new.order()),
                Err(e) => !has_invalid_edge(self@, graph@) && validation_error(
                    self@,
                    graph@,
                    new.order(),
                    e,
                ),
            },
            has_invalid_edge(self@, graph@) ==> r is Ok && r->Ok_0 is Some,
            valid(self@, graph@, new.order()) ==> r == Ok::<Option<InvalidEdge>, PlanError>(None),
    {
        proof {
            new.lemma_members();
        }
        match self.check_full_below_partial(graph) {
            Some(e) => {
                return Ok(Some(e));
            },
            None => {},
        }
        match self.check_overlaps(graph) {
            Err(e) => {
                return Err(e);
            },
            Ok(()) => {},
        }
        match self.check_frontier(graph, new) {
            Err(e) => {
                return Err(e);
            },
            Ok(()) => {},
        }
        match self.check_sharding(graph, new) {
            Err(e) => {
                return Err(e);
            },
            Ok(()) => {},
        }
        Ok(None)
    }
}

} // verus!
