//! What it means for the materializations to be valid for a graph.

use crate::collections::table_get;
use crate::error::{InvalidEdge, PlanError};
use crate::frontier::holds_state;
use crate::graph::{GraphView, ReplayPath};
use crate::index::{IndexView, NodeIndex};
use crate::node::Sharding;
use crate::search::{flagged, reaches, reaches_marked};
use crate::state::State;
use crate::topology::Direction;
use vstd::prelude::*;

verus! {

/// For each node, whether it is partial.
pub open spec fn partial_nodes(s: State, g: GraphView) -> Seq<bool> {
    Seq::new(g.nodes.len(), |c: int| s.partial.contains(c as usize))
}

/// For each node, whether it is not partial.
pub open spec fn non_partial_nodes(s: State, g: GraphView) -> Seq<bool> {
    Seq::new(g.nodes.len(), |c: int| !s.partial.contains(c as usize))
}

/// Whether node `ni` is looked at for a partial node above it: it got an
/// index since the last commit, or it is a reader that came since then.
pub open spec fn checked_for_full(s: State, ni: NodeIndex) -> bool {
    s.added.contains_key(ni) || s.new_readers.contains(ni)
}

/// Whether node `ni` is not partial though a node above it is.
pub open spec fn full_below_partial(s: State, g: GraphView, ni: NodeIndex) -> bool {
    !s.partial.contains(ni) && reaches_marked(
        g,
        ni,
        Direction::Incoming,
        non_partial_nodes(s, g),
        partial_nodes(s, g),
    )
}

/// Whether some node that is looked at is not partial though a node above it is.
pub open spec fn has_invalid_edge(s: State, g: GraphView) -> bool {
    exists|ni: NodeIndex| checked_for_full(s, ni) && full_below_partial(s, g, ni)
}

/// Whether the edge leads from a partial node to one that is not partial,
/// and lies above a node that is looked at, with no partial node in between.
pub open spec fn invalid_edge(s: State, g: GraphView, e: InvalidEdge) -> bool {
    &&& s.partial.contains(e.parent)
    &&& !s.partial.contains(e.child)
    &&& g.parents(e.child).contains(e.parent)
    &&& exists|ni: NodeIndex|
        checked_for_full(s, ni) && full_below_partial(s, g, ni) && (e.child == ni || reaches(
            g,
            ni,
            Direction::Incoming,
            non_partial_nodes(s, g),
            e.child,
        ))
}

/// Whether some column of `a` is a column of `b`.
pub open spec fn share_column(a: Seq<usize>, b: Seq<usize>) -> bool {
    exists|k: int| 0 <= k < a.len() && b.contains(#[trigger] a[k])
}

/// Whether every column of `a` is a column of `b`.
pub open spec fn columns_within(a: Seq<usize>, b: Seq<usize>) -> bool {
    forall|k: int| 0 <= k < a.len() ==> b.contains(#[trigger] a[k])
}

/// Whether the two indexes, of whatever kind, share some of their columns, but not all.
pub open spec fn overlaps_in_part(p: IndexView, c: IndexView) -> bool {
    &&& share_column(p.columns, c.columns)
    &&& !(columns_within(p.columns, c.columns) && columns_within(c.columns, p.columns))
}

/// Whether some index at or after position `k` overlaps `c` in part.
pub open spec fn overlap_in(indexes: Seq<IndexView>, c: IndexView, k: int) -> bool
    decreases indexes.len() - k,
{
    if k < 0 || k >= indexes.len() {
        false
    } else {
        overlaps_in_part(indexes[k], c) || overlap_in(indexes, c, k + 1)
    }
}

/// Whether the partial node `a` stands in the way of a replay with index `c`:
/// it lacks `c`, and one of its indexes overlaps `c` in part.
pub open spec fn conflict_at(s: State, a: NodeIndex, c: IndexView) -> bool {
    !table_get(s.have, a).contains(c) && overlap_in(table_get(s.have, a), c, 0)
}

/// The first partial node that stands in the way on a replay path, looking
/// from step `i`, counted from the target, upwards. Every partial node on
/// the way is looked at, the target too; the look goes on past nodes that
/// are not partial and ends at a segment without an index.
pub open spec fn path_conflict(s: State, path: ReplayPath, i: int) -> Option<NodeIndex>
    decreases path.segments@.len() - i,
{
    let len = path.segments@.len();
    if i < 0 || i >= len {
        None
    } else {
        let seg = path.segments@[len - 1 - i];
        match seg.index {
            None => None,
            Some(c) => if s.partial.contains(seg.node) && conflict_at(s, seg.node, c@) {
                Some(seg.node)
            } else {
                path_conflict(s, path, i + 1)
            },
        }
    }
}

/// The first partial node that stands in the way on one of the paths from position `p` on.
pub open spec fn paths_conflict(s: State, paths: Seq<ReplayPath>, p: int) -> Option<NodeIndex>
    decreases paths.len() - p,
{
    if p < 0 || p >= paths.len() {
        None
    } else {
        match path_conflict(s, paths[p], 0) {
            Some(a) => Some(a),
            None => paths_conflict(s, paths, p + 1),
        }
    }
}

/// What is wrong with the added indexes of node `ni` from position `j` on,
/// if anything: the replay paths of one are not known, or a partial node
/// stands in the way of one.
pub open spec fn node_overlap(s: State, g: GraphView, ni: NodeIndex, j: int) -> Option<PlanError>
    decreases table_get(s.added, ni).len() - j,
{
    let indexes = table_get(s.added, ni);
    if j < 0 || j >= indexes.len() {
        None
    } else {
        match g.replay_paths_for(ni, indexes[j]) {
            None => Some(PlanError::PathsUnavailable { node: ni }),
            Some(paths) => match paths_conflict(s, paths, 0) {
                Some(a) => Some(PlanError::OverlappingPartialIndices { parent: a, child: ni }),
                None => node_overlap(s, g, ni, j + 1),
            },
        }
    }
}

/// Whether the added indexes of node `ni` are looked at for overlaps.
pub open spec fn checked_for_overlap(s: State, ni: NodeIndex) -> bool {
    s.added.contains_key(ni) && s.partial.contains(ni)
}

/// No partial node with added indexes has a partial node in the way of its replays.
pub open spec fn overlap_free(s: State, g: GraphView) -> bool {
    forall|ni: NodeIndex| checked_for_overlap(s, ni) ==> node_overlap(s, g, ni, 0) is None
}

/// For each node, whether it lies beyond the frontier.
pub open spec fn purged_nodes(g: GraphView) -> Seq<bool> {
    Seq::new(g.nodes.len(), |c: int| g.nodes[c].purge)
}

/// For each node, whether it is not materialized.
pub open spec fn unmaterialized_nodes(s: State, g: GraphView) -> Seq<bool> {
    Seq::new(g.nodes.len(), |c: int| !s.have.contains_key(c as usize))
}

/// Whether node `ni` keeps state within the frontier.
pub open spec fn within_frontier(s: State, g: GraphView, ni: NodeIndex) -> bool {
    holds_state(s, g.nodes[ni as int], ni) && !g.nodes[ni as int].purge
}

/// Whether node `ni` keeps state within the frontier though a node above
/// it, with only nodes without state in between, lies beyond.
pub open spec fn purge_above(s: State, g: GraphView, ni: NodeIndex) -> bool {
    within_frontier(s, g, ni) && reaches_marked(
        g,
        ni,
        Direction::Incoming,
        unmaterialized_nodes(s, g),
        purged_nodes(g),
    )
}

/// Every new node is a node of the graph, and none keeps state within the
/// frontier below a node beyond it.
pub open spec fn frontier_closed(s: State, g: GraphView, new: Set<NodeIndex>) -> bool {
    forall|ni: NodeIndex| new.contains(ni) ==> g.has_node(ni) && !purge_above(s, g, ni)
}

/// Whether the error says truly what is wrong with the frontier.
pub open spec fn frontier_error(s: State, g: GraphView, new: Set<NodeIndex>, e: PlanError) -> bool {
    match e {
        PlanError::UnknownNode { node } => new.contains(node) && !g.has_node(node),
        PlanError::PurgeAboveNonPurge { node } => flagged(purged_nodes(g), node) && exists|
            ni: NodeIndex,
        |
            new.contains(ni) && g.has_node(ni) && within_frontier(s, g, ni) && reaches(
                g,
                ni,
                Direction::Incoming,
                unmaterialized_nodes(s, g),
                node,
            ),
        _ => false,
    }
}

/// The first position at or after `j` of a materialized node on a provenance path.
pub open spec fn first_with_state(
    s: State,
    path: Seq<(NodeIndex, Vec<Option<usize>>)>,
    j: int,
) -> Option<int>
    decreases path.len() - j,
{
    if j < 0 || j >= path.len() {
        None
    } else if s.have.contains_key(path[j].0) {
        Some(j)
    } else {
        first_with_state(s, path, j + 1)
    }
}

/// What column `col` is at a node of a provenance path; nothing if the node lists no such column.
pub open spec fn column_source(cols: Seq<Option<usize>>, col: usize) -> Option<usize> {
    if col < cols.len() {
        cols[col as int]
    } else {
        None
    }
}

/// The first column at or after position `c`, other than `col`, that is `src` too.
pub open spec fn alias_in(cols: Seq<Option<usize>>, col: usize, src: Option<usize>, c: int)
    -> Option<int>
    decreases cols.len() - c,
{
    if c < 0 || c >= cols.len() {
        None
    } else if c != col && cols[c] == src {
        Some(c)
    } else {
        alias_in(cols, col, src, c + 1)
    }
}

/// What is wrong on one provenance path of the columns of `parent`, which is
/// sharded by column `col`, if anything: no node on it is materialized, or at
/// the first one that is, another column is the same as the sharding column.
pub open spec fn path_sharding(
    s: State,
    parent: NodeIndex,
    col: usize,
    path: Seq<(NodeIndex, Vec<Option<usize>>)>,
) -> Option<PlanError> {
    match first_with_state(s, path, 0) {
        None => Some(PlanError::NoMaterializedAncestor { node: parent }),
        Some(j) => {
            let cols = path[j].1@;
            let src = column_source(cols, col);
            if src is None {
                None
            } else {
                match alias_in(cols, col, src, 0) {
                    Some(c) => Some(
                        PlanError::AliasedSharding {
                            ancestor: path[j].0,
                            sharded: parent,
                            alias: c as usize,
                            shard: col,
                        },
                    ),
                    None => None,
                }
            }
        },
    }
}

/// What is wrong on the provenance paths from position `p` on, if anything.
pub open spec fn paths_sharding(
    s: State,
    parent: NodeIndex,
    col: usize,
    paths: Seq<Vec<(NodeIndex, Vec<Option<usize>>)>>,
    p: int,
) -> Option<PlanError>
    decreases paths.len() - p,
{
    if p < 0 || p >= paths.len() {
        None
    } else {
        match path_sharding(s, parent, col, paths[p]@) {
            Some(e) => Some(e),
            None => paths_sharding(s, parent, col, paths, p + 1),
        }
    }
}

/// The positions of the first `n` columns.
pub open spec fn all_columns(n: nat) -> Seq<usize> {
    Seq::new(n, |k: int| k as usize)
}

/// What is wrong with the sharding at node `node`, if it merges shards and anything is.
pub open spec fn merger_sharding(s: State, g: GraphView, node: NodeIndex) -> Option<PlanError> {
    let n = g.nodes[node as int];
    if !n.spec_is_shard_merger() {
        None
    } else if g.parents(node).len() == 0 {
        Some(PlanError::ShardMergerWithoutParent { node })
    } else {
        let parent = g.parents(node)[0];
        match g.nodes[parent as int].sharded_by {
            Sharding::ByColumn(col, _) => match g.provenance_of(
                parent,
                all_columns(n.parent_columns@.len()),
            ) {
                None => Some(PlanError::ProvenanceUnavailable { node: parent }),
                Some(paths) => paths_sharding(s, parent, col, paths, 0),
            },
            _ => None,
        }
    }
}

/// What is wrong with the sharding at the new nodes from position `i` on, if anything.
pub open spec fn sharding_from(s: State, g: GraphView, order: Seq<NodeIndex>, i: int) -> Option<
    PlanError,
>
    decreases order.len() - i,
{
    if i < 0 || i >= order.len() {
        None
    } else if !g.has_node(order[i]) {
        Some(PlanError::UnknownNode { node: order[i] })
    } else {
        match merger_sharding(s, g, order[i]) {
            Some(e) => Some(e),
            None => sharding_from(s, g, order, i + 1),
        }
    }
}

/// Whether on the provenance path, at the first node that is materialized,
/// the column by which the subgraph is sharded is the same as another column.
pub open spec fn aliased_on_path(
    s: State,
    col: usize,
    path: Seq<(NodeIndex, Vec<Option<usize>>)>,
) -> bool {
    match first_with_state(s, path, 0) {
        None => false,
        Some(j) => {
            let cols = path[j].1@;
            column_source(cols, col) is Some && exists|c: int|
                0 <= c < cols.len() && c != col && #[trigger] cols[c] == column_source(cols, col)
        },
    }
}

/// Whether node `m` merges shards and, on some provenance path of its
/// parent, the column by which that parent is sharded has an alias.
pub open spec fn aliased_merger(s: State, g: GraphView, m: NodeIndex) -> bool {
    let n = g.nodes[m as int];
    &&& n.spec_is_shard_merger()
    &&& g.parents(m).len() > 0
    &&& match g.nodes[g.parents(m)[0] as int].sharded_by {
        Sharding::ByColumn(col, _) => match g.provenance_of(
            g.parents(m)[0],
            all_columns(n.parent_columns@.len()),
        ) {
            Some(paths) => exists|p: int|
                0 <= p < paths.len() && aliased_on_path(s, col, (#[trigger] paths[p])@),
            None => false,
        },
        _ => false,
    }
}

/// Whether what the sharding check needs of node `m` is there: the node is
/// a node of the graph, and if it merges shards, it has a parent, and if
/// that parent is sharded by a column, its provenance is known and every
/// provenance path has a materialized node.
pub open spec fn sharding_known(s: State, g: GraphView, m: NodeIndex) -> bool {
    let n = g.nodes[m as int];
    &&& g.has_node(m)
    &&& n.spec_is_shard_merger() ==> {
        &&& g.parents(m).len() > 0
        &&& match g.nodes[g.parents(m)[0] as int].sharded_by {
            Sharding::ByColumn(col, _) => match g.provenance_of(
                g.parents(m)[0],
                all_columns(n.parent_columns@.len()),
            ) {
                Some(paths) => forall|p: int|
                    0 <= p < paths.len() ==> first_with_state(s, (#[trigger] paths[p])@, 0) is Some,
                None => false,
            },
            _ => true,
        }
    }
}

/// Whether the error is what validation finds wrong, given that no full
/// node lies below a partial one: the first failure of the overlap check at
/// some node, or else of the frontier check, or else of the sharding check.
pub open spec fn validation_error(s: State, g: GraphView, new: Seq<NodeIndex>, e: PlanError)
    -> bool {
    ||| exists|ni: NodeIndex|
        checked_for_overlap(s, ni) && node_overlap(s, g, ni, 0) == Some(e)
    ||| (overlap_free(s, g) && frontier_error(s, g, new.to_set(), e))
    ||| (overlap_free(s, g) && frontier_closed(s, g, new.to_set()) && sharding_from(s, g, new, 0)
        == Some(e))
}

/// Whether nothing is wrong with the materializations as far as the new nodes go.
pub open spec fn valid(s: State, g: GraphView, new: Seq<NodeIndex>) -> bool {
    &&& !has_invalid_edge(s, g)
    &&& overlap_free(s, g)
    &&& frontier_closed(s, g, new.to_set())
    &&& sharding_from(s, g, new, 0) is None
}

} // verus!
