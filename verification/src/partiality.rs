//! Deciding, node by node from the bottom of the graph up, which
//! materializations can be partial.
//!
//! A node with obligations to index for replays can be partial if nothing
//! about it or below it stands against that, and if each of its indexes can
//! be traced along its replay paths to indexed state above. What is needed
//! above becomes an obligation of the nodes there, which come later in the
//! order.

use crate::collections::{table_get, table_has, table_insert, table_touch, IndexTable};
use crate::error::PlanError;
use crate::graph::{GraphView, ReplayPath};
use crate::index::{seq_extend, IndexView, NodeIndex};
use crate::node::Node;
use crate::search::reaches_marked;
use crate::state::State;
use crate::topology::Direction;
use vstd::prelude::*;

verus! {

/// The prefix of the name of a node that forces the nodes above it to be full.
pub open spec fn full_prefix() -> Seq<char> {
    "FULL_"@
}

/// Whether the node is a reader that is keyed.
pub open spec fn keyed_reader(n: Node) -> bool {
    n.spec_reader_index() is Some
}

/// Whether node `c`, found below a node, stands against that node being
/// partial: its name says so, or it keeps state and is not partial itself.
pub open spec fn blocks_partial(s: State, g: GraphView, c: NodeIndex) -> bool {
    let n = g.nodes[c as int];
    full_prefix().is_prefix_of(n.name@) || ((s.have.contains_key(c) || keyed_reader(n))
        && !s.partial.contains(c))
}

/// Whether the look below a node goes on past node `c`: it does where `c` keeps no state.
pub open spec fn passes_below(s: State, g: GraphView, c: NodeIndex) -> bool {
    !s.have.contains_key(c) && !keyed_reader(g.nodes[c as int])
}

/// For each node, whether it stands against a node above it being partial.
pub open spec fn blocking_nodes(s: State, g: GraphView) -> Seq<bool> {
    Seq::new(g.nodes.len(), |c: int| blocks_partial(s, g, c as usize))
}

/// For each node, whether the look below goes on past it.
pub open spec fn passing_nodes(s: State, g: GraphView) -> Seq<bool> {
    Seq::new(g.nodes.len(), |c: int| passes_below(s, g, c as usize))
}

/// Whether something below `ni`, with only nodes without state in between,
/// stands against `ni` being partial.
pub open spec fn blocked_below(s: State, g: GraphView, ni: NodeIndex) -> bool {
    reaches_marked(g, ni, Direction::Outgoing, passing_nodes(s, g), blocking_nodes(s, g))
}

/// Whether node `ni` may be partial, as far as the node itself, what the
/// state says of it, and what lies below it are concerned.
pub open spec fn eligible(s: State, g: GraphView, new: Set<NodeIndex>, ni: NodeIndex) -> bool {
    let n = g.nodes[ni as int];
    &&& s.config.partial_enabled
    &&& !(n.kind is Base)
    &&& !n.spec_requires_full_materialization()
    &&& !(!new.contains(ni) && table_get(s.added, ni).len() != table_get(s.have, ni).len()
        && !s.partial.contains(ni))
    &&& !blocked_below(s, g, ni)
}

/// The replay paths of the indexes from position `j` on, after `acc`; nothing
/// where the graph does not say what the paths of one of them are.
pub open spec fn gather_paths(
    g: GraphView,
    ni: NodeIndex,
    indexes: Seq<IndexView>,
    j: int,
    acc: Seq<ReplayPath>,
) -> Option<Seq<ReplayPath>>
    decreases indexes.len() - j,
{
    if j < 0 || j >= indexes.len() {
        Some(acc)
    } else {
        match g.replay_paths_for(ni, indexes[j]) {
            None => None,
            Some(paths) => gather_paths(g, ni, indexes, j + 1, acc + paths),
        }
    }
}

/// The paths from position `j` on that are broken, or those that are not, after `acc`.
pub open spec fn select_paths(paths: Seq<ReplayPath>, broken: bool, j: int, acc: Seq<ReplayPath>)
    -> Seq<ReplayPath>
    decreases paths.len() - j,
{
    if j < 0 || j >= paths.len() {
        acc
    } else if paths[j].broken == broken {
        select_paths(paths, broken, j + 1, acc.push(paths[j]))
    } else {
        select_paths(paths, broken, j + 1, acc)
    }
}

/// The broken paths, in their order, and after them the unbroken ones, in theirs.
pub open spec fn broken_first(paths: Seq<ReplayPath>) -> Seq<ReplayPath> {
    select_paths(paths, false, 0, select_paths(paths, true, 0, Seq::empty()))
}

/// What a walk along replay paths has come to.
pub ghost struct Walk {
    /// The declared materializations, to which a broken path may add a node.
    pub have: IndexTable,
    /// The indexes that nodes above have to get for the node to be partial.
    pub add: IndexTable,
    /// Whether the node can still be partial.
    pub able: bool,
    /// Whether the walk has ended for good.
    pub stopped: bool,
}

/// The walk after the segments of `path` from step `i` on, counted from the
/// target upwards, have been looked at.
pub open spec fn walk_path(w: Walk, path: ReplayPath, i: int) -> Walk
    decreases path.segments@.len() - i,
{
    let len = path.segments@.len();
    if i < 0 || i >= len {
        w
    } else {
        let seg = path.segments@[len - 1 - i];
        match seg.index {
            None => Walk { able: false, stopped: true, ..w },
            Some(index) => if w.have.contains_key(seg.node) {
                if w.have[seg.node].contains(index@) {
                    w
                } else {
                    Walk { add: table_insert(w.add, seg.node, index@), ..w }
                }
            } else if i == len - 1 && path.broken {
                Walk {
                    have: table_touch(w.have, seg.node),
                    add: table_insert(w.add, seg.node, index@),
                    ..w
                }
            } else {
                walk_path(w, path, i + 1)
            },
        }
    }
}

/// The number of steps to leave out at the start of a walk up `path` for
/// node `ni`: the target, where the target is `ni` itself.
pub open spec fn steps_to_skip(path: ReplayPath, ni: NodeIndex) -> int {
    if path.segments@.len() > 0 && path.segments@.last().node == ni {
        1
    } else {
        0
    }
}

/// The walk after the paths from position `p` on have been walked, unless it stopped before.
pub open spec fn walk_paths(w: Walk, ni: NodeIndex, paths: Seq<ReplayPath>, p: int) -> Walk
    decreases paths.len() - p,
{
    if p < 0 || p >= paths.len() || w.stopped {
        w
    } else {
        walk_paths(walk_path(w, paths[p], steps_to_skip(paths[p], ni)), ni, paths, p + 1)
    }
}

/// The obligations with those of `add` added: each node of `add` has an
/// entry, which holds what it held and then what `add` holds for the node.
pub open spec fn merge_tables(replay: IndexTable, add: IndexTable) -> IndexTable {
    Map::new(
        |n: NodeIndex| replay.contains_key(n) || add.contains_key(n),
        |n: NodeIndex|
            if add.contains_key(n) {
                seq_extend(table_get(replay, n), add[n])
            } else {
                replay[n]
            },
    )
}

/// The state after the indexes from position `j` on have been declared for
/// `ni`: each is had, and is recorded as added if it is new there, if the
/// node is partial, or if the state is being rebuilt.
pub open spec fn fulfil_from(
    s: State,
    ni: NodeIndex,
    indexes: Seq<IndexView>,
    recovery: bool,
    j: int,
) -> State
    decreases indexes.len() - j,
{
    if j < 0 || j >= indexes.len() {
        s
    } else {
        let ix = indexes[j];
        let fresh = !table_has(s.have, ni, ix);
        let added = if fresh || s.partial.contains(ni) || recovery {
            table_insert(s.added, ni, ix)
        } else {
            s.added
        };
        fulfil_from(
            State { have: table_insert(s.have, ni, ix), added, ..s },
            ni,
            indexes,
            recovery,
            j + 1,
        )
    }
}

/// The state after the indexes have been declared for `ni`, which is
/// materialized from then on.
pub open spec fn fulfil(s: State, ni: NodeIndex, indexes: Seq<IndexView>, recovery: bool) -> State {
    fulfil_from(State { have: table_touch(s.have, ni), ..s }, ni, indexes, recovery, 0)
}

/// The state and the obligations after node `ni` has been decided.
pub open spec fn analyze_node(
    s: State,
    replay: IndexTable,
    g: GraphView,
    new: Set<NodeIndex>,
    recovery: bool,
    ni: NodeIndex,
) -> Result<(State, IndexTable), PlanError> {
    if !replay.contains_key(ni) {
        Ok((s, replay))
    } else {
        let indexes = replay[ni];
        let rest = replay.remove(ni);
        match gather_paths(g, ni, indexes, 0, Seq::empty()) {
            None => Err(PlanError::PathsUnavailable { node: ni }),
            Some(paths) => {
                let start = Walk {
                    have: s.have,
                    add: Map::empty(),
                    able: eligible(s, g, new, ni),
                    stopped: false,
                };
                let w = walk_paths(start, ni, broken_first(paths), 0);
                let n = g.nodes[ni as int];
                if w.able {
                    Ok(
                        (
                            fulfil(
                                State { have: w.have, partial: s.partial.insert(ni), ..s },
                                ni,
                                indexes,
                                recovery,
                            ),
                            merge_tables(rest, w.add),
                        ),
                    )
                } else if !(n.kind is Base) && !s.config.allow_full_materialization {
                    Err(PlanError::FullMaterializationDisabled { node: ni })
                } else if n.purge {
                    Err(PlanError::FullBeyondFrontier { node: ni })
                } else {
                    Ok((fulfil(State { have: w.have, ..s }, ni, indexes, recovery), rest))
                }
            },
        }
    }
}

/// Whether a node of the topological walk is looked at: it is a node of the
/// graph, and neither the source nor dropped.
pub open spec fn is_planned(g: GraphView, n: NodeIndex) -> bool {
    g.has_node(n) && !(g.nodes[n as int].kind is Source) && !(g.nodes[n as int].kind is Dropped)
}

/// The nodes of `order` from position `j` on that are looked at, after `acc`.
pub open spec fn planned_nodes(g: GraphView, order: Seq<NodeIndex>, j: int, acc: Seq<NodeIndex>)
    -> Seq<NodeIndex>
    decreases order.len() - j,
{
    if j < 0 || j >= order.len() {
        acc
    } else if is_planned(g, order[j]) {
        planned_nodes(g, order, j + 1, acc.push(order[j]))
    } else {
        planned_nodes(g, order, j + 1, acc)
    }
}

/// The state and the obligations after the first `k` nodes of `nodes` have
/// been decided, the last of them first.
pub open spec fn analyze_down(
    s: State,
    replay: IndexTable,
    g: GraphView,
    new: Set<NodeIndex>,
    recovery: bool,
    nodes: Seq<NodeIndex>,
    k: int,
) -> Result<(State, IndexTable), PlanError>
    decreases k,
{
    if k <= 0 || k > nodes.len() {
        Ok((s, replay))
    } else {
        match analyze_node(s, replay, g, new, recovery, nodes[k - 1]) {
            Err(e) => Err(e),
            Ok((s2, r2)) => analyze_down(s2, r2, g, new, recovery, nodes, k - 1),
        }
    }
}

/// The state and the obligations after every node has been decided, in
/// reverse topological order.
pub open spec fn analyze_all(
    s: State,
    replay: IndexTable,
    g: GraphView,
    new: Set<NodeIndex>,
    recovery: bool,
) -> Result<(State, IndexTable), PlanError> {
    let nodes = planned_nodes(g, g.order, 0, Seq::empty());
    analyze_down(s, replay, g, new, recovery, nodes, nodes.len() as int)
}

} // verus!
