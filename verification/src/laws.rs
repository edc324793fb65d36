//! What holds of the planner whatever the graph and the state.

use crate::collections::table_get;
use crate::committing::{
    addresses_of, commit_spec, indexes_to_build, make_from, make_one, plan_indexes, plan_path,
    plan_paths, reindex_from, reindex_one, settled, setup_spec, split_nodes, Planned, Progress,
};
use crate::error::PlanError;
use crate::frontier::holds_state;
use crate::graph::{GraphView, ReplayPath};
use crate::index::{IndexView, NodeIndex};
use crate::node::Sharding;
use crate::partiality::planned_nodes;
use crate::plan::{Message, Tag};
use crate::search::{flagged, is_trail, lemma_reaches_neighbor, reaches};
use crate::state::State;
use crate::topology::Direction;
use crate::validation::{
    alias_in, aliased_merger, aliased_on_path, all_columns, checked_for_full, checked_for_overlap,
    column_source, columns_within, conflict_at, first_with_state, frontier_closed,
    full_below_partial, has_invalid_edge, merger_sharding, node_overlap, non_partial_nodes,
    overlap_free, overlap_in, overlaps_in_part, partial_nodes, path_conflict, path_sharding,
    paths_conflict, paths_sharding, purge_above, purged_nodes, sharding_from, sharding_known,
    share_column, unmaterialized_nodes, valid,
};
use vstd::prelude::*;

verus! {

/// A path that is recorded keeps its tag: asking for the tag of a recorded
/// path changes nothing, and asking again gives the same tag.
pub proof fn lemma_tag_reuse(s: State, index: IndexView, path: ReplayPath)
    requires
        s.recorded_tag(index, path) is Some,
    ensures
        s.tag_for_path(index, path).0 == s,
        s.tag_for_path(index, path).1 == Ok::<Tag, PlanError>(Tag(s.recorded_tag(index, path)->0)),
        s.tag_for_path(index, path).0.tag_for_path(index, path).1 == s.tag_for_path(index, path).1,
{
}

/// The second state has the materializations, the partial nodes and what
/// was materialized before of the first, and has added no index.
pub open spec fn same_materializations(s: State, s2: State) -> bool {
    &&& s2.have == s.have
    &&& s2.partial == s.partial
    &&& s2.had == s.had
    &&& s2.config == s.config
}

proof fn lemma_plan_path(pl: Planned, g: GraphView, ni: NodeIndex, index: IndexView, path: ReplayPath)
    ensures
        plan_path(pl, g, ni, index, path) matches Ok(pl2) ==> same_materializations(
            pl.state,
            pl2.state,
        ),
{
}

proof fn lemma_plan_paths(
    pl: Planned,
    g: GraphView,
    ni: NodeIndex,
    index: IndexView,
    paths: Seq<ReplayPath>,
    p: int,
)
    ensures
        plan_paths(pl, g, ni, index, paths, p) matches Ok(pl2) ==> same_materializations(
            pl.state,
            pl2.state,
        ),
    decreases paths.len() - p,
{
    if 0 <= p < paths.len() {
        lemma_plan_path(pl, g, ni, index, paths[p]);
        match plan_path(pl, g, ni, index, paths[p]) {
            Err(e) => {},
            Ok(pl2) => {
                lemma_plan_paths(pl2, g, ni, index, paths, p + 1);
            },
        }
    }
}

proof fn lemma_plan_indexes(
    pl: Planned,
    g: GraphView,
    ni: NodeIndex,
    indexes: Seq<IndexView>,
    j: int,
)
    ensures
        plan_indexes(pl, g, ni, indexes, j) matches Ok(pl2) ==> same_materializations(
            pl.state,
            pl2.state,
        ),
    decreases indexes.len() - j,
{
    if 0 <= j < indexes.len() {
        match g.replay_paths_for(ni, indexes[j]) {
            None => {},
            Some(paths) => {
                lemma_plan_paths(pl, g, ni, indexes[j], paths, 0);
                match plan_paths(pl, g, ni, indexes[j], paths, 0) {
                    Err(e) => {},
                    Ok(pl2) => {
                        lemma_plan_indexes(pl2, g, ni, indexes, j + 1);
                    },
                }
            },
        }
    }
}

proof fn lemma_setup(c: Progress, g: GraphView, ni: NodeIndex, index_on: Seq<IndexView>)
    ensures
        setup_spec(c, g, ni, index_on) matches Ok(c2) ==> same_materializations(c.state, c2.state),
{
    match indexes_to_build(g, ni, index_on) {
        Err(e) => {},
        Ok(indexes) => {
            lemma_plan_indexes(
                Planned { state: c.state, pending: Seq::empty(), entries: Seq::empty() },
                g,
                ni,
                indexes,
                0,
            );
        },
    }
}

proof fn lemma_make_from(c: Progress, g: GraphView, make: Seq<NodeIndex>, i: int)
    ensures
        make_from(c, g, make, i) matches Ok(c2) ==> same_materializations(c.state, c2.state),
    decreases make.len() - i,
{
    if 0 <= i < make.len() {
        let ni = make[i];
        let index_on = table_get(c.state.added, ni);
        let taken = Progress { state: State { added: c.state.added.remove(ni), ..c.state }, ..c };
        lemma_setup(taken, g, ni, index_on);
        match make_one(c, g, ni) {
            Err(e) => {},
            Ok(c2) => {
                lemma_make_from(c2, g, make, i + 1);
            },
        }
    }
}

proof fn lemma_reindex_from(
    c: Progress,
    g: GraphView,
    new: Set<NodeIndex>,
    nodes: Seq<NodeIndex>,
    i: int,
)
    ensures
        reindex_from(c, g, new, nodes, i) matches Ok(c2) ==> same_materializations(
            c.state,
            c2.state,
        ),
    decreases nodes.len() - i,
{
    if 0 <= i < nodes.len() {
        let node = nodes[i];
        let index_on = table_get(c.state.added, node);
        let state = State { added: c.state.added.remove(node), ..c.state };
        lemma_setup(Progress { state, ..c }, g, node, index_on);
        match reindex_one(c, g, new, node) {
            Err(e) => {},
            Ok(c2) => {
                lemma_reindex_from(c2, g, new, nodes, i + 1);
            },
        }
    }
}

/// Committing changes no decision: afterwards the same nodes are
/// materialized with the same indexes, and the same nodes are partial;
/// nothing counts as added, and every materialized node counts as
/// materialized before. So a consistent state stays consistent.
pub proof fn lemma_commit_keeps_decisions(
    s: State,
    g: GraphView,
    new: Set<NodeIndex>,
    messages: Seq<Message>,
)
    ensures
        commit_spec(s, g, new, messages) matches Ok((s2, m2)) ==> {
            &&& s2.have == s.have
            &&& s2.partial == s.partial
            &&& s2.added == Map::<NodeIndex, Seq<IndexView>>::empty()
            &&& s2.added_weak == Map::<NodeIndex, Seq<IndexView>>::empty()
            &&& s2.new_readers == Set::<NodeIndex>::empty()
            &&& s2.had == s.had.union(s.have.dom())
            &&& s.consistent() ==> s2.consistent()
        },
{
    let nodes = planned_nodes(g, g.order, 0, Seq::empty());
    let (make, reindex) = split_nodes(s, new, nodes, 0, Seq::empty(), Seq::empty());
    let start = Progress { state: s, messages, waiting: addresses_of(g, make, 0, Seq::empty()) };
    lemma_reindex_from(start, g, new, reindex, 0);
    match reindex_from(start, g, new, reindex, 0) {
        Err(e) => {},
        Ok(c1) => {
            lemma_make_from(c1, g, make, 0);
        },
    }
}

proof fn lemma_split_nothing(
    s: State,
    nodes: Seq<NodeIndex>,
    j: int,
    make: Seq<NodeIndex>,
    reindex: Seq<NodeIndex>,
)
    requires
        forall|n: NodeIndex| !s.added.contains_key(n),
    ensures
        split_nodes(s, Set::empty(), nodes, j, make, reindex) == (make, reindex),
    decreases nodes.len() - j,
{
    if 0 <= j < nodes.len() {
        lemma_split_nothing(s, nodes, j + 1, make, reindex);
    }
}

/// Committing when no node is new and no index was added sends no request
/// and only settles the state. Where, besides, no weak index was added, no
/// reader is new, and every materialized node was materialized at the last
/// commit, the state stays as it is.
pub proof fn lemma_commit_nothing(s: State, g: GraphView, messages: Seq<Message>)
    requires
        forall|n: NodeIndex| !s.added.contains_key(n),
    ensures
        commit_spec(s, g, Set::empty(), messages) == Ok::<(State, Seq<Message>), PlanError>(
            (settled(s), messages),
        ),
        (forall|n: NodeIndex| !s.added_weak.contains_key(n)) && s.new_readers == Set::<
            NodeIndex,
        >::empty() && s.have.dom().subset_of(s.had) ==> settled(s) == s,
{
    let nodes = planned_nodes(g, g.order, 0, Seq::empty());
    lemma_split_nothing(s, nodes, 0, Seq::empty(), Seq::empty());
    if (forall|n: NodeIndex| !s.added_weak.contains_key(n)) && s.new_readers == Set::<
        NodeIndex,
    >::empty() && s.have.dom().subset_of(s.had) {
        assert(s.added =~= Map::empty());
        assert(s.added_weak =~= Map::empty());
        assert(s.had.union(s.have.dom()) =~= s.had);
    }
}

proof fn lemma_no_overlap(indexes: Seq<IndexView>, c: IndexView, k: int)
    requires
        0 <= k,
        !overlap_in(indexes, c, k),
    ensures
        forall|j: int| k <= j < indexes.len() ==> !overlaps_in_part(#[trigger] indexes[j], c),
    decreases indexes.len() - k,
{
    if k < indexes.len() {
        lemma_no_overlap(indexes, c, k + 1);
    }
}

/// Whether the columns of `c` are all columns of one index of the list, or
/// no index of the list has any of them.
pub open spec fn contained_or_disjoint(indexes: Seq<IndexView>, c: IndexView) -> bool {
    (exists|k: int|
        0 <= k < indexes.len() && columns_within(c.columns, (#[trigger] indexes[k]).columns)) || (
    forall|k: int|
        0 <= k < indexes.len() ==> !share_column((#[trigger] indexes[k]).columns, c.columns))
}

/// Where a partial node does not stand in the way of a replay with an
/// index, the columns of that index are all columns of one index of the
/// node, or no index of the node, of whatever kind, has any of them.
pub proof fn lemma_contained_or_disjoint(s: State, a: NodeIndex, c: IndexView)
    requires
        !conflict_at(s, a, c),
    ensures
        contained_or_disjoint(table_get(s.have, a), c),
{
    let indexes = table_get(s.have, a);
    if indexes.contains(c) {
        let k = choose|k: int| 0 <= k < indexes.len() && indexes[k] == c;
        assert forall|j: int| 0 <= j < c.columns.len() implies c.columns.contains(
            #[trigger] c.columns[j],
        ) by {}
        assert(columns_within(c.columns, indexes[k].columns));
    } else {
        lemma_no_overlap(indexes, c, 0);
        if exists|k: int|
            0 <= k < indexes.len() && share_column((#[trigger] indexes[k]).columns, c.columns) {
            let k = choose|k: int|
                0 <= k < indexes.len() && share_column((#[trigger] indexes[k]).columns, c.columns);
            assert(!overlaps_in_part(indexes[k], c));
            assert(columns_within(c.columns, indexes[k].columns));
        }
    }
}

/// Whether step `k` of the path, counted from the target, comes before
/// every segment without an index.
pub open spec fn indexed_up_to(path: ReplayPath, k: int) -> bool {
    let len = path.segments@.len();
    &&& 0 <= k < len
    &&& forall|j: int| 0 <= j <= k ==> (#[trigger] path.segments@[len - 1 - j]).index is Some
}

proof fn lemma_path_clear(s: State, path: ReplayPath, i: int, k: int)
    requires
        0 <= i <= k,
        indexed_up_to(path, k),
        path_conflict(s, path, i) is None,
        s.partial.contains(path.segments@[path.segments@.len() - 1 - k].node),
    ensures
        !conflict_at(
            s,
            path.segments@[path.segments@.len() - 1 - k].node,
            path.segments@[path.segments@.len() - 1 - k].index->0@,
        ),
    decreases k - i,
{
    let len = path.segments@.len();
    assert(path.segments@[len - 1 - i].index is Some);
    if i < k {
        lemma_path_clear(s, path, i + 1, k);
    }
}

proof fn lemma_paths_clear(s: State, paths: Seq<ReplayPath>, p: int, q: int)
    requires
        0 <= p <= q < paths.len(),
        paths_conflict(s, paths, p) is None,
    ensures
        path_conflict(s, paths[q], 0) is None,
    decreases q - p,
{
    if p < q {
        lemma_paths_clear(s, paths, p + 1, q);
    }
}

proof fn lemma_node_clear(s: State, g: GraphView, n: NodeIndex, j: int, i: int)
    requires
        0 <= j <= i < table_get(s.added, n).len(),
        node_overlap(s, g, n, j) is None,
    ensures
        g.replay_paths_for(n, table_get(s.added, n)[i]) is Some,
        paths_conflict(s, g.replay_paths_for(n, table_get(s.added, n)[i])->0, 0) is None,
    decreases i - j,
{
    if j < i {
        lemma_node_clear(s, g, n, j + 1, i);
    }
}

/// Where no partial node with added indexes has a partial node in the way
/// of its replays: for every partial node `n`, every index added to `n`,
/// every replay path of that index, and every partial node on that path
/// that comes before any segment without an index, the index that the path
/// uses at that node has all its columns among those of one index of the
/// node, or shares no column with any index of the node.
pub proof fn lemma_overlap_free(
    s: State,
    g: GraphView,
    n: NodeIndex,
    i: int,
    p: int,
    k: int,
)
    requires
        overlap_free(s, g),
        s.partial.contains(n),
        s.added.contains_key(n),
        0 <= i < s.added[n].len(),
        g.replay_paths_for(n, s.added[n][i]) is Some,
        0 <= p < g.replay_paths_for(n, s.added[n][i])->0.len(),
        indexed_up_to(g.replay_paths_for(n, s.added[n][i])->0[p], k),
        s.partial.contains(
            g.replay_paths_for(n, s.added[n][i])->0[p].segments@[g.replay_paths_for(
                n,
                s.added[n][i],
            )->0[p].segments@.len() - 1 - k].node,
        ),
    ensures
        ({
            let path = g.replay_paths_for(n, s.added[n][i])->0[p];
            let seg = path.segments@[path.segments@.len() - 1 - k];
            contained_or_disjoint(table_get(s.have, seg.node), seg.index->0@)
        }),
{
    assert(checked_for_overlap(s, n));
    lemma_node_clear(s, g, n, 0, i);
    let paths = g.replay_paths_for(n, s.added[n][i])->0;
    lemma_paths_clear(s, paths, 0, p);
    lemma_path_clear(s, paths[p], 0, k);
    let seg = paths[p].segments@[paths[p].segments@.len() - 1 - k];
    lemma_contained_or_disjoint(s, seg.node, seg.index->0@);
}

/// A way up from a node: each node on it is a parent of the one before.
pub open spec fn is_way_up(g: GraphView, n: NodeIndex, way: Seq<NodeIndex>) -> bool {
    &&& way.len() >= 1
    &&& way[0] == n
    &&& forall|i: int| 1 <= i < way.len() ==> g.parents(way[i - 1]).contains(#[trigger] way[i])
}

/// Where a node that is not partial has no partial node above it that is
/// reached past nodes that are not partial, no node above it is partial at
/// all: a full node does not lie below a partial one.
pub proof fn lemma_no_partial_ancestor(
    s: State,
    g: GraphView,
    n: NodeIndex,
    way: Seq<NodeIndex>,
    i: int,
)
    requires
        g.wf(),
        !s.partial.contains(n),
        !full_below_partial(s, g, n),
        is_way_up(g, n, way),
        0 <= i < way.len(),
    ensures
        !s.partial.contains(way[i]),
    decreases i,
{
    if i > 0 {
        assert forall|j: int| 0 <= j < i implies !s.partial.contains(#[trigger] way[j]) by {
            lemma_no_partial_ancestor(s, g, n, way, j);
        }
        assert forall|j: int| 1 <= j <= i implies (#[trigger] way[j]) < g.nodes.len() by {
            let ps = g.parents(way[j - 1]);
            assert(ps.contains(way[j]));
            let k = choose|k: int| 0 <= k < ps.len() && ps[k] == way[j];
            assert(g.predecessors[way[j - 1] as int][k] < g.nodes.len());
        }
        if s.partial.contains(way[i]) {
            let trail = way.take(i + 1);
            let pass = non_partial_nodes(s, g);
            assert(is_trail(g, n, Direction::Incoming, pass, trail)) by {
                assert forall|j: int| 1 <= j < trail.len() implies g.neighbors(
                    trail[j - 1],
                    Direction::Incoming,
                ).contains(#[trigger] trail[j]) by {
                    assert(trail[j] == way[j]);
                    assert(trail[j - 1] == way[j - 1]);
                }
                assert forall|j: int| 1 <= j < trail.len() - 1 implies flagged(
                    pass,
                    #[trigger] trail[j],
                ) by {
                    assert(trail[j] == way[j]);
                    assert(!s.partial.contains(way[j]));
                }
            }
            assert(trail.last() == way[i]);
            assert(reaches(g, n, Direction::Incoming, pass, way[i]));
            assert(flagged(partial_nodes(s, g), way[i]));
            assert(false);
        }
    }
}

/// Where the materializations are valid, no node that got an index, and no
/// reader that came, since the last commit is full below a partial node.
pub proof fn lemma_valid_no_full_below_partial(
    s: State,
    g: GraphView,
    new: Seq<NodeIndex>,
    n: NodeIndex,
    way: Seq<NodeIndex>,
    i: int,
)
    requires
        g.wf(),
        valid(s, g, new),
        checked_for_full(s, n),
        !s.partial.contains(n),
        is_way_up(g, n, way),
        0 <= i < way.len(),
    ensures
        !s.partial.contains(way[i]),
{
    assert(!full_below_partial(s, g, n));
    lemma_no_partial_ancestor(s, g, n, way, i);
}

/// Where the frontier is closed, no new node that keeps state within the
/// frontier has a parent beyond it.
pub proof fn lemma_no_purged_parent(
    s: State,
    g: GraphView,
    new: Set<NodeIndex>,
    c: NodeIndex,
    p: NodeIndex,
)
    requires
        g.wf(),
        frontier_closed(s, g, new),
        new.contains(c),
        holds_state(s, g.nodes[c as int], c),
        g.parents(c).contains(p),
    ensures
        !(g.nodes[p as int].purge && !g.nodes[c as int].purge),
{
    if g.nodes[p as int].purge && !g.nodes[c as int].purge {
        let ps = g.parents(c);
        let k = choose|k: int| 0 <= k < ps.len() && ps[k] == p;
        assert(g.predecessors[c as int][k] < g.nodes.len());
        lemma_reaches_neighbor(g, c, Direction::Incoming, unmaterialized_nodes(s, g), p);
        assert(flagged(purged_nodes(g), p));
        assert(purge_above(s, g, c));
    }
}

proof fn lemma_alias_none(cols: Seq<Option<usize>>, col: usize, src: Option<usize>, c: int)
    requires
        0 <= c,
        alias_in(cols, col, src, c) is None,
    ensures
        forall|j: int| c <= j < cols.len() && j != col ==> #[trigger] cols[j] != src,
    decreases cols.len() - c,
{
    if c < cols.len() {
        lemma_alias_none(cols, col, src, c + 1);
    }
}

/// Where nothing is wrong on a provenance path, some node on it is
/// materialized, and at the first such node the column by which the
/// subgraph is sharded, if it is a column there, is no other column too.
pub proof fn lemma_path_sharding(
    s: State,
    parent: NodeIndex,
    col: usize,
    path: Seq<(NodeIndex, Vec<Option<usize>>)>,
)
    requires
        path_sharding(s, parent, col, path) is None,
    ensures
        first_with_state(s, path, 0) is Some,
        ({
            let cols = path[first_with_state(s, path, 0)->0].1@;
            column_source(cols, col) is Some ==> forall|j: int|
                0 <= j < cols.len() && j != col ==> #[trigger] cols[j] != column_source(cols, col)
        }),
{
    let j = first_with_state(s, path, 0)->0;
    let cols = path[j].1@;
    let src = column_source(cols, col);
    if src is Some {
        lemma_alias_none(cols, col, src, 0);
    }
}

/// Where nothing is wrong with the sharding at the new nodes, nothing is
/// wrong at any one of them.
pub proof fn lemma_sharding_each(s: State, g: GraphView, order: Seq<NodeIndex>, i: int, k: int)
    requires
        0 <= i <= k < order.len(),
        sharding_from(s, g, order, i) is None,
    ensures
        g.has_node(order[k]),
        merger_sharding(s, g, order[k]) is None,
    decreases order.len() - i,
{
    if i < k {
        lemma_sharding_each(s, g, order, i + 1, k);
    }
}

/// In a graph without a cycle the topological walk leaves no node out.
pub proof fn lemma_walk_leaves_none_out(
    g: GraphView,
    order: Seq<NodeIndex>,
    rank: Seq<nat>,
    n: NodeIndex,
)
    requires
        g.parents_first(order),
        g.ranked(rank),
        g.has_node(n),
    ensures
        order.contains(n),
    decreases rank[n as int],
{
    if !order.contains(n) {
        let p = choose|p: NodeIndex| #[trigger] g.parents(n).contains(p) && !order.contains(p);
        assert(g.has_node(p) && rank[p as int] < rank[n as int]);
        lemma_walk_leaves_none_out(g, order, rank, p);
    }
}

proof fn lemma_alias_some(cols: Seq<Option<usize>>, col: usize, src: Option<usize>, c: int)
    requires
        0 <= c,
        alias_in(cols, col, src, c) is Some,
    ensures
        c <= alias_in(cols, col, src, c)->0 < cols.len(),
        alias_in(cols, col, src, c)->0 != col,
        cols[alias_in(cols, col, src, c)->0] == src,
    decreases cols.len() - c,
{
    if c < cols.len() && !(c != col && cols[c] == src) {
        lemma_alias_some(cols, col, src, c + 1);
    }
}

proof fn lemma_path_aliased(
    s: State,
    parent: NodeIndex,
    col: usize,
    path: Seq<(NodeIndex, Vec<Option<usize>>)>,
)
    requires
        first_with_state(s, path, 0) is Some,
    ensures
        path_sharding(s, parent, col, path) is Some <==> aliased_on_path(s, col, path),
        path_sharding(s, parent, col, path) matches Some(e) ==> e is AliasedSharding,
{
    let j = first_with_state(s, path, 0)->0;
    let cols = path[j].1@;
    let src = column_source(cols, col);
    if src is Some {
        if alias_in(cols, col, src, 0) is Some {
            lemma_alias_some(cols, col, src, 0);
            let c = alias_in(cols, col, src, 0)->0;
            assert(0 <= c < cols.len() && c != col && cols[c] == src);
        } else {
            lemma_alias_none(cols, col, src, 0);
        }
    }
}

proof fn lemma_paths_aliased(
    s: State,
    parent: NodeIndex,
    col: usize,
    paths: Seq<Vec<(NodeIndex, Vec<Option<usize>>)>>,
    p: int,
)
    requires
        0 <= p,
        forall|q: int| 0 <= q < paths.len() ==> first_with_state(s, (#[trigger] paths[q])@, 0) is Some,
    ensures
        paths_sharding(s, parent, col, paths, p) is Some <==> exists|q: int|
            p <= q < paths.len() && aliased_on_path(s, col, (#[trigger] paths[q])@),
        paths_sharding(s, parent, col, paths, p) matches Some(e) ==> e is AliasedSharding,
    decreases paths.len() - p,
{
    if p < paths.len() {
        assert(first_with_state(s, paths[p]@, 0) is Some);
        lemma_path_aliased(s, parent, col, paths[p]@);
        lemma_paths_aliased(s, parent, col, paths, p + 1);
        if exists|q: int| p <= q < paths.len() && aliased_on_path(s, col, (#[trigger] paths[q])@) {
            let q = choose|q: int|
                p <= q < paths.len() && aliased_on_path(s, col, (#[trigger] paths[q])@);
            if q != p {
                assert(p + 1 <= q < paths.len() && aliased_on_path(s, col, paths[q]@));
            }
        }
        if exists|q: int|
            p + 1 <= q < paths.len() && aliased_on_path(s, col, (#[trigger] paths[q])@) {
            let q = choose|q: int|
                p + 1 <= q < paths.len() && aliased_on_path(s, col, (#[trigger] paths[q])@);
            assert(p <= q < paths.len() && aliased_on_path(s, col, paths[q]@));
        }
    }
}

proof fn lemma_merger_aliased(s: State, g: GraphView, m: NodeIndex)
    requires
        sharding_known(s, g, m),
    ensures
        merger_sharding(s, g, m) is Some <==> aliased_merger(s, g, m),
        merger_sharding(s, g, m) matches Some(e) ==> e is AliasedSharding,
{
    let n = g.nodes[m as int];
    if n.spec_is_shard_merger() {
        let parent = g.parents(m)[0];
        match g.nodes[parent as int].sharded_by {
            Sharding::ByColumn(col, _) => {
                let paths = g.provenance_of(parent, all_columns(n.parent_columns@.len()))->0;
                lemma_paths_aliased(s, parent, col, paths, 0);
            },
            _ => {},
        }
    }
}

/// Where what the sharding check needs of the new nodes is there, the check
/// fails exactly when, at some new node that merges shards, the column by
/// which its parent is sharded has an alias on some provenance path; and
/// then it fails with an error that says so.
pub proof fn lemma_sharding_fails_iff_aliased(
    s: State,
    g: GraphView,
    order: Seq<NodeIndex>,
    i: int,
)
    requires
        0 <= i,
        forall|k: int| 0 <= k < order.len() ==> sharding_known(s, g, #[trigger] order[k]),
    ensures
        sharding_from(s, g, order, i) is Some <==> exists|k: int|
            i <= k < order.len() && aliased_merger(s, g, #[trigger] order[k]),
        sharding_from(s, g, order, i) matches Some(e) ==> e is AliasedSharding,
    decreases order.len() - i,
{
    if i < order.len() {
        assert(sharding_known(s, g, order[i]));
        lemma_merger_aliased(s, g, order[i]);
        lemma_sharding_fails_iff_aliased(s, g, order, i + 1);
        if exists|k: int| i <= k < order.len() && aliased_merger(s, g, #[trigger] order[k]) {
            let k = choose|k: int| i <= k < order.len() && aliased_merger(s, g, #[trigger] order[k]);
            if k != i {
                assert(i + 1 <= k < order.len() && aliased_merger(s, g, order[k]));
            }
        }
        if exists|k: int| i + 1 <= k < order.len() && aliased_merger(s, g, #[trigger] order[k]) {
            let k = choose|k: int|
                i + 1 <= k < order.len() && aliased_merger(s, g, #[trigger] order[k]);
            assert(i <= k < order.len() && aliased_merger(s, g, order[k]));
        }
    }
}

/// Where no full node lies below a partial one, no partial node is in the
/// way of a replay, the frontier is closed, and what the sharding check
/// needs is there, the materializations are valid exactly when no new node
/// that merges shards has an alias of the column by which its parent is
/// sharded.
pub proof fn lemma_valid_iff_not_aliased(s: State, g: GraphView, new: Seq<NodeIndex>)
    requires
        !has_invalid_edge(s, g),
        overlap_free(s, g),
        frontier_closed(s, g, new.to_set()),
        forall|k: int| 0 <= k < new.len() ==> sharding_known(s, g, #[trigger] new[k]),
    ensures
        valid(s, g, new) <==> !exists|k: int|
            0 <= k < new.len() && aliased_merger(s, g, #[trigger] new[k]),
        !valid(s, g, new) ==> sharding_from(s, g, new, 0) is Some && sharding_from(
            s,
            g,
            new,
            0,
        )->0 is AliasedSharding,
{
    lemma_sharding_fails_iff_aliased(s, g, new, 0);
}

} // verus!
