//! What committing the materializations makes of the state and which
//! requests it sends, step by step.

use crate::collections::table_get;
use crate::error::PlanError;
use crate::graph::{GraphView, ReplayPath};
use crate::index::{seq_insert, IndexView, LookupIndexView, NodeIndex};
use crate::node::{DomainIndex, LocalNodeIndex};
use crate::partiality::{keyed_reader, planned_nodes};
use crate::paths::{no_paths, path_key_of, paths_insert, PathKeyView};
use crate::plan::{DomainRequestView, Message, Tag};
use crate::search::reaches_marked;
use crate::state::{path_nodes, State};
use crate::topology::Direction;
use vstd::prelude::*;

verus! {

/// A node as a domain knows it: the domain and the node's index within it.
pub type Address = (DomainIndex, LocalNodeIndex);

/// A replay that has to be started: from which node of which domain, into
/// which domain, and under which tag.
#[derive(Clone, Copy, Debug, PartialEq, Eq, Structural)]
pub struct PendingReplay {
    pub tag: Tag,
    pub source: LocalNodeIndex,
    pub source_domain: DomainIndex,
    pub target_domain: DomainIndex,
}

/// How far a commit has come.
pub ghost struct Progress {
    pub state: State,
    /// The requests sent so far.
    pub messages: Seq<Message>,
    /// The new nodes that no request has waited for yet.
    pub waiting: Seq<Address>,
}

/// What has been planned for the indexes of one node.
pub ghost struct Planned {
    pub state: State,
    pub pending: Seq<PendingReplay>,
    /// The replay paths to record, each with the number of its tag.
    pub entries: Seq<(u32, PathKeyView)>,
}

/// Whether the second list of requests is the first with requests added at its end.
pub open spec fn continues(m: Seq<Message>, m2: Seq<Message>) -> bool {
    &&& m.len() <= m2.len()
    &&& forall|j: int| 0 <= j < m.len() ==> #[trigger] m2[j] == m[j]
}

/// Whether the second state is the first but for the recorded replay paths
/// and the number of the last tag.
pub open spec fn same_but_paths(s: State, s2: State) -> bool {
    s2 == (State { paths: s2.paths, tag_generator: s2.tag_generator, ..s })
}

/// Whether the second state is what a commit that is broken off can leave
/// of the first: every decision stands, and so do the weak indexes, the new
/// readers and the duplicates; of the added indexes some nodes have been
/// taken; replay paths may have been recorded and tags given out.
pub open spec fn broken_off(s: State, s2: State) -> bool {
    &&& s2.have == s.have
    &&& s2.partial == s.partial
    &&& s2.had == s.had
    &&& s2.added_weak == s.added_weak
    &&& s2.new_readers == s.new_readers
    &&& s2.redundant_partial == s.redundant_partial
    &&& s2.config == s.config
    &&& forall|n: NodeIndex| #[trigger]
        s2.added.contains_key(n) ==> s.added.contains_key(n) && s2.added[n] == s.added[n]
}

/// The plan with one replay path of the index added: the path gets its tag
/// and is to be recorded and replayed from its source.
pub open spec fn plan_path(
    pl: Planned,
    g: GraphView,
    ni: NodeIndex,
    index: IndexView,
    path: ReplayPath,
) -> Result<Planned, PlanError> {
    let source = path.segments@[0].node;
    if !g.has_node(source) {
        Err(PlanError::UnknownNode { node: source })
    } else {
        let (s2, t) = pl.state.tag_for_path(index, path);
        match t {
            Err(e) => Err(e),
            Ok(tag) => Ok(
                Planned {
                    state: s2,
                    pending: pl.pending.push(
                        PendingReplay {
                            tag,
                            source: g.nodes[source as int].local_addr,
                            source_domain: g.nodes[source as int].domain,
                            target_domain: g.nodes[ni as int].domain,
                        },
                    ),
                    entries: pl.entries.push((tag.0, path_key_of(index, path_nodes(path)))),
                },
            ),
        }
    }
}

/// The plan with the replay paths from position `p` on added.
pub open spec fn plan_paths(
    pl: Planned,
    g: GraphView,
    ni: NodeIndex,
    index: IndexView,
    paths: Seq<ReplayPath>,
    p: int,
) -> Result<Planned, PlanError>
    decreases paths.len() - p,
{
    if p < 0 || p >= paths.len() {
        Ok(pl)
    } else {
        match plan_path(pl, g, ni, index, paths[p]) {
            Err(e) => Err(e),
            Ok(pl2) => plan_paths(pl2, g, ni, index, paths, p + 1),
        }
    }
}

/// The plan with the replay paths of the indexes from position `j` on added.
pub open spec fn plan_indexes(
    pl: Planned,
    g: GraphView,
    ni: NodeIndex,
    indexes: Seq<IndexView>,
    j: int,
) -> Result<Planned, PlanError>
    decreases indexes.len() - j,
{
    if j < 0 || j >= indexes.len() {
        Ok(pl)
    } else {
        match g.replay_paths_for(ni, indexes[j]) {
            None => Err(PlanError::PathsUnavailable { node: ni }),
            Some(paths) => match plan_paths(pl, g, ni, indexes[j], paths, 0) {
                Err(e) => Err(e),
                Ok(pl2) => plan_indexes(pl2, g, ni, indexes, j + 1),
            },
        }
    }
}

/// The recorded paths with the entries from position `k` on put in.
pub open spec fn record_entries(
    m: Map<u32, PathKeyView>,
    entries: Seq<(u32, PathKeyView)>,
    k: int,
) -> Map<u32, PathKeyView>
    decreases entries.len() - k,
{
    if k < 0 || k >= entries.len() {
        m
    } else {
        record_entries(paths_insert(m, entries[k].0, entries[k].1), entries, k + 1)
    }
}

/// The recorded paths of the node; none for a node without any.
pub open spec fn paths_get(paths: Map<NodeIndex, Map<u32, PathKeyView>>, ni: NodeIndex) -> Map<
    u32,
    PathKeyView,
> {
    if paths.contains_key(ni) {
        paths[ni]
    } else {
        no_paths()
    }
}

/// The first position at or after `from` of the address, or the length where it is absent.
pub open spec fn address_position(s: Seq<Address>, a: Address, from: int) -> int
    decreases s.len() - from,
{
    if from < 0 || from >= s.len() {
        s.len() as int
    } else if s[from] == a {
        from
    } else {
        address_position(s, a, from + 1)
    }
}

/// The addresses without the first occurrence of `a`.
pub open spec fn address_removed(s: Seq<Address>, a: Address) -> Seq<Address> {
    let p = address_position(s, a, 0);
    if p < s.len() {
        s.remove(p)
    } else {
        s
    }
}

/// The requests and the nodes still waited for after one replay has been
/// started: its source is waited for first, unless that was done before.
pub open spec fn start_replay(messages: Seq<Message>, waiting: Seq<Address>, p: PendingReplay) -> (
    Seq<Message>,
    Seq<Address>,
) {
    let source = (p.source_domain, p.source);
    let start = (
        p.source_domain,
        DomainRequestView::StartReplay {
            tag: p.tag,
            from: p.source,
            replicas: None,
            targeting_domain: p.target_domain,
        },
    );
    if address_position(waiting, source, 0) < waiting.len() {
        (
            messages.push((p.source_domain, DomainRequestView::IsReady { node: p.source })).push(
                start,
            ),
            address_removed(waiting, source),
        )
    } else {
        (messages.push(start), waiting)
    }
}

/// The requests and the nodes still waited for after the replays from position `k` on have been started.
pub open spec fn start_replays(
    messages: Seq<Message>,
    waiting: Seq<Address>,
    pending: Seq<PendingReplay>,
    k: int,
) -> (Seq<Message>, Seq<Address>)
    decreases pending.len() - k,
{
    if k < 0 || k >= pending.len() {
        (messages, waiting)
    } else {
        let (m2, w2) = start_replay(messages, waiting, pending[k]);
        start_replays(m2, w2, pending, k + 1)
    }
}

/// The indexes for which state is built at a node: those given, or, where
/// none is given, the index of the reader that the node must then be.
pub open spec fn indexes_to_build(g: GraphView, ni: NodeIndex, index_on: Seq<IndexView>) -> Result<
    Seq<IndexView>,
    PlanError,
> {
    let n = g.nodes[ni as int];
    if index_on.len() > 0 {
        Ok(index_on)
    } else if !n.spec_is_reader() {
        Err(PlanError::IndexlessNonReader { node: ni })
    } else {
        match n.spec_reader_index() {
            None => Err(PlanError::ReaderNotMaterialized { node: ni }),
            Some(index) => Ok(seq![index@]),
        }
    }
}

/// The commit after the state of node `ni` has been built for the given
/// indexes: every replay path gets its tag and is recorded; each replay is
/// started at its source; and the target's domain is asked to wait for them.
pub open spec fn setup_spec(c: Progress, g: GraphView, ni: NodeIndex, index_on: Seq<IndexView>)
    -> Result<Progress, PlanError> {
    match indexes_to_build(g, ni, index_on) {
        Err(e) => Err(e),
        Ok(indexes) => match plan_indexes(
            Planned { state: c.state, pending: Seq::empty(), entries: Seq::empty() },
            g,
            ni,
            indexes,
            0,
        ) {
            Err(e) => Err(e),
            Ok(pl) => {
                let state = State {
                    paths: pl.state.paths.insert(
                        ni,
                        record_entries(paths_get(pl.state.paths, ni), pl.entries, 0),
                    ),
                    ..pl.state
                };
                if pl.pending.len() == 0 {
                    Ok(Progress { state, ..c })
                } else {
                    let (messages, waiting) = start_replays(c.messages, c.waiting, pl.pending, 0);
                    let n = g.nodes[ni as int];
                    Ok(
                        Progress {
                            state,
                            messages: messages.push(
                                (n.domain, DomainRequestView::QueryReplayDone { node: n.local_addr }),
                            ),
                            waiting,
                        },
                    )
                }
            },
        },
    }
}

/// The commit after a new node has been brought up, and the indexes still
/// to be announced for it: a base table is empty and needs no replay; a node
/// without state needs none either; for any other the state is built.
pub open spec fn ready_one_spec(c: Progress, g: GraphView, ni: NodeIndex, index_on: Seq<IndexView>)
    -> Result<(Progress, Seq<IndexView>), PlanError> {
    let n = g.nodes[ni as int];
    if n.kind is Base {
        Ok((c, index_on))
    } else if index_on.len() == 0 && !keyed_reader(n) {
        Ok((c, index_on))
    } else {
        match setup_spec(c, g, ni, index_on) {
            Err(e) => Err(e),
            Ok(c2) => Ok((c2, Seq::empty())),
        }
    }
}

/// The indexes as strict lookup indexes.
pub open spec fn strict_views(indexes: Seq<IndexView>) -> Seq<LookupIndexView> {
    Seq::new(indexes.len(), |k: int| LookupIndexView::Strict(indexes[k]))
}

/// The commit after one new node has been made: its added indexes are
/// taken, the node is brought up, and its domain is told that it is ready.
pub open spec fn make_one(c: Progress, g: GraphView, ni: NodeIndex) -> Result<Progress, PlanError> {
    if c.state.added.contains_key(ni) && c.state.added[ni].len() == 0 {
        Err(PlanError::EmptyIndexSet { node: ni })
    } else {
        let index_on = table_get(c.state.added, ni);
        let taken = Progress { state: State { added: c.state.added.remove(ni), ..c.state }, ..c };
        match ready_one_spec(taken, g, ni, index_on) {
            Err(e) => Err(e),
            Ok((c2, left)) => {
                let n = g.nodes[ni as int];
                Ok(
                    Progress {
                        messages: c2.messages.push(
                            (
                                n.domain,
                                DomainRequestView::Ready {
                                    node: n.local_addr,
                                    purge: n.purge,
                                    index: strict_views(left),
                                },
                            ),
                        ),
                        ..c2
                    },
                )
            },
        }
    }
}

/// The commit after the new nodes from position `i` on have been made.
pub open spec fn make_from(c: Progress, g: GraphView, make: Seq<NodeIndex>, i: int) -> Result<
    Progress,
    PlanError,
>
    decreases make.len() - i,
{
    if i < 0 || i >= make.len() {
        Ok(c)
    } else {
        match make_one(c, g, make[i]) {
            Err(e) => Err(e),
            Ok(c2) => make_from(c2, g, make, i + 1),
        }
    }
}

/// For each node, whether it is not new.
pub open spec fn old_nodes(g: GraphView, new: Set<NodeIndex>) -> Seq<bool> {
    Seq::new(g.nodes.len(), |c: int| !new.contains(c as usize))
}

/// Whether the node is not new and had state before: not all of its indexes were added.
pub open spec fn had_state_before(s: State, new: Set<NodeIndex>, c: NodeIndex) -> bool {
    !new.contains(c) && table_get(s.added, c).len() != table_get(s.have, c).len()
}

/// For each node, whether it is not new and had state before.
pub open spec fn old_nodes_with_state(s: State, g: GraphView, new: Set<NodeIndex>) -> Seq<bool> {
    Seq::new(g.nodes.len(), |c: int| had_state_before(s, new, c as usize))
}

/// Whether an old node that had state before lies below `node`, with only old nodes in between.
pub open spec fn old_state_below(s: State, g: GraphView, new: Set<NodeIndex>, node: NodeIndex)
    -> bool {
    reaches_marked(
        g,
        node,
        Direction::Outgoing,
        old_nodes(g, new),
        old_nodes_with_state(s, g, new),
    )
}

/// The commit after the added indexes of one old node have been taken and
/// their state built. A node that had no state and becomes partial must
/// have no old node with state below it.
pub open spec fn reindex_one(c: Progress, g: GraphView, new: Set<NodeIndex>, node: NodeIndex)
    -> Result<Progress, PlanError> {
    let index_on = table_get(c.state.added, node);
    let state = State { added: c.state.added.remove(node), ..c.state };
    if !state.had.contains(node) && index_on.len() > 0 && state.partial.contains(node)
        && old_state_below(state, g, new, node) {
        Err(PlanError::OldNodeMadePartial { node })
    } else {
        setup_spec(Progress { state, ..c }, g, node, index_on)
    }
}

/// The commit after the old nodes from position `i` on have been given their added indexes.
pub open spec fn reindex_from(
    c: Progress,
    g: GraphView,
    new: Set<NodeIndex>,
    nodes: Seq<NodeIndex>,
    i: int,
) -> Result<Progress, PlanError>
    decreases nodes.len() - i,
{
    if i < 0 || i >= nodes.len() {
        Ok(c)
    } else {
        match reindex_one(c, g, new, nodes[i]) {
            Err(e) => Err(e),
            Ok(c2) => reindex_from(c2, g, new, nodes, i + 1),
        }
    }
}

/// Of the nodes from position `j` on, in topological order, those that are
/// new after `make`, and those that are old and got indexes after `reindex`.
pub open spec fn split_nodes(
    s: State,
    new: Set<NodeIndex>,
    nodes: Seq<NodeIndex>,
    j: int,
    make: Seq<NodeIndex>,
    reindex: Seq<NodeIndex>,
) -> (Seq<NodeIndex>, Seq<NodeIndex>)
    decreases nodes.len() - j,
{
    if j < 0 || j >= nodes.len() {
        (make, reindex)
    } else if new.contains(nodes[j]) {
        split_nodes(s, new, nodes, j + 1, make.push(nodes[j]), reindex)
    } else if s.added.contains_key(nodes[j]) {
        split_nodes(s, new, nodes, j + 1, make, reindex.push(nodes[j]))
    } else {
        split_nodes(s, new, nodes, j + 1, make, reindex)
    }
}

/// The addresses of the nodes from position `j` on, each once, after `acc`.
pub open spec fn addresses_of(g: GraphView, nodes: Seq<NodeIndex>, j: int, acc: Seq<Address>)
    -> Seq<Address>
    decreases nodes.len() - j,
{
    if j < 0 || j >= nodes.len() {
        acc
    } else {
        let n = g.nodes[nodes[j] as int];
        addresses_of(g, nodes, j + 1, seq_insert(acc, (n.domain, n.local_addr)))
    }
}

/// The requests after each of the nodes from position `k` on has been waited for.
pub open spec fn wait_for(messages: Seq<Message>, waiting: Seq<Address>, k: int) -> Seq<Message>
    decreases waiting.len() - k,
{
    if k < 0 || k >= waiting.len() {
        messages
    } else {
        wait_for(
            messages.push((waiting[k].0, DomainRequestView::IsReady { node: waiting[k].1 })),
            waiting,
            k + 1,
        )
    }
}

/// The state when a commit ends: nothing counts as added any more, no
/// reader as new, and every materialized node as materialized before.
pub open spec fn settled(s: State) -> State {
    State {
        added: Map::empty(),
        added_weak: Map::empty(),
        new_readers: Set::empty(),
        had: s.had.union(s.have.dom()),
        ..s
    }
}

/// The state and the requests after the materializations have been
/// committed: old nodes get their added indexes, in topological order; then
/// the new nodes are made, in topological order; then every new node that
/// was not waited for is; and the state settles.
pub open spec fn commit_spec(s: State, g: GraphView, new: Set<NodeIndex>, messages: Seq<Message>)
    -> Result<(State, Seq<Message>), PlanError> {
    let nodes = planned_nodes(g, g.order, 0, Seq::empty());
    let (make, reindex) = split_nodes(s, new, nodes, 0, Seq::empty(), Seq::empty());
    let start = Progress { state: s, messages, waiting: addresses_of(g, make, 0, Seq::empty()) };
    match reindex_from(start, g, new, reindex, 0) {
        Err(e) => Err(e),
        Ok(c1) => match make_from(c1, g, make, 0) {
            Err(e) => Err(e),
            Ok(c2) => Ok((settled(c2.state), wait_for(c2.messages, c2.waiting, 0))),
        },
    }
}

} // verus!
