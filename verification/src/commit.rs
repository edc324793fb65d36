//! Committing the materializations: building the state of the nodes that got
//! indexes and telling the domains.

use crate::collections::{table_get, NodeSet};
use crate::committing::{
    address_position, address_removed, addresses_of, broken_off, commit_spec, continues,
    had_state_before, indexes_to_build, make_from, make_one, old_nodes, old_nodes_with_state,
    paths_get, plan_indexes, plan_path, plan_paths, ready_one_spec, record_entries, reindex_from,
    reindex_one, same_but_paths, settled, setup_spec, split_nodes, start_replay, start_replays,
    strict_views, wait_for, Address, PendingReplay, Planned, Progress,
};
use crate::error::PlanError;
use crate::graph::DataflowGraph;
use crate::index::{copy_columns, seq_insert, IndexSet, IndexView, LookupIndex, NodeIndex};
use crate::partiality::is_planned;
use crate::paths::{
    key_view, lemma_paths_insert, one_tag_per_path, path_key, path_map_insert, path_map_new,
    paths_insert, recorded_paths, PathKey, PathKeyView,
};
use crate::plan::{lookup_views, DomainMigrationPlan, DomainRequest, Message};
use crate::search::find_marked;
use crate::state::{path_nodes, paths_view, Materializations, State};
use crate::topology::Direction;
use vstd::prelude::*;

verus! {

/// What a list of paths to record stands for in contracts.
pub open spec fn entries_view(v: Seq<(u32, PathKey)>) -> Seq<(u32, PathKeyView)> {
    Seq::new(v.len(), |k: int| (v[k].0, key_view(v[k].1)))
}

/// Recording paths keeps the tags of distinct paths distinct.
pub proof fn lemma_record_entries(
    m: Map<u32, PathKeyView>,
    entries: Seq<(u32, PathKeyView)>,
    k: int,
)
    requires
        one_tag_per_path(m),
    ensures
        one_tag_per_path(record_entries(m, entries, k)),
    decreases entries.len() - k,
{
    if 0 <= k < entries.len() {
        lemma_paths_insert(m, entries[k].0, entries[k].1);
        lemma_record_entries(paths_insert(m, entries[k].0, entries[k].1), entries, k + 1);
    }
}

/// Adds the address at the end unless the list holds it.
pub fn insert_address(list: &mut Vec<Address>, a: Address)
    ensures
        final(list)@ == seq_insert(old(list)@, a),
{
    let mut k: usize = 0;
    while k < list.len()
        invariant
            k <= list.len(),
            *list == *old(list),
            forall|j: int| 0 <= j < k ==> list@[j] != a,
        decreases list.len() - k,
    {
        if list[k].0 == a.0 && list[k].1 == a.1 {
            assert(list@[k as int] == a);
            return ;
        }
        k += 1;
    }
    list.push(a);
}

/// Takes the first occurrence of the address out of the list; says whether there was one.
pub fn remove_address(list: &mut Vec<Address>, a: Address) -> (r: bool)
    ensures
        r == (address_position(old(list)@, a, 0) < old(list)@.len()),
        final(list)@ == address_removed(old(list)@, a),
{
    let mut k: usize = 0;
    while k < list.len() && !(list[k].0 == a.0 && list[k].1 == a.1)
        invariant
            k <= list.len(),
            *list == *old(list),
            address_position(list@, a, 0) == address_position(list@, a, k as int),
        decreases list.len() - k,
    {
        k += 1;
    }
    if k < list.len() {
        assert(list@[k as int] == a);
        list.remove(k);
        true
    } else {
        false
    }
}

/// Starts the replays: each at its source, which is waited for first unless
/// that was done before.
pub fn start_pending(
    dmp: &mut DomainMigrationPlan,
    waiting: &mut Vec<Address>,
    pending: &Vec<PendingReplay>,
)
    ensures
        (final(dmp).messages(), final(waiting)@) == start_replays(
            old(dmp).messages(),
            old(waiting)@,
            pending@,
            0,
        ),
        final(dmp).recovery() == old(dmp).recovery(),
        continues(old(dmp).messages(), final(dmp).messages()),
{
    let ghost goal = start_replays(dmp.messages(), waiting@, pending@, 0);
    let mut k: usize = 0;
    while k < pending.len()
        invariant
            k <= pending.len(),
            dmp.recovery() == old(dmp).recovery(),
            continues(old(dmp).messages(), dmp.messages()),
            goal == start_replays(old(dmp).messages(), old(waiting)@, pending@, 0),
            goal == start_replays(dmp.messages(), waiting@, pending@, k as int),
        decreases pending.len() - k,
    {
        let p = pending[k];
        let ghost m0 = dmp.messages();
        let ghost w0 = waiting@;
        if remove_address(waiting, (p.source_domain, p.source)) {
            dmp.add_message(p.source_domain, DomainRequest::IsReady { node: p.source });
        }
        dmp.add_message(
            p.source_domain,
            DomainRequest::StartReplay {
                tag: p.tag,
                from: p.source,
                replicas: None,
                targeting_domain: p.target_domain,
            },
        );
        assert((dmp.messages(), waiting@) == start_replay(m0, w0, p));
        k += 1;
    }
}

/// A copy of the key of a path.
pub fn copy_key(key: &PathKey) -> (r: PathKey)
    ensures
        key_view(r) == key_view(*key),
{
    (key.0, copy_columns(&key.1), copy_columns(&key.2))
}

impl Materializations {
    /// Plans the replay paths of each of the indexes of node `ni`: each path
    /// gets its tag, is listed to be recorded, and is listed to be replayed
    /// from its source.
    pub fn plan_replays(
        &mut self,
        graph: &DataflowGraph,
        ni: NodeIndex,
        indexes: &IndexSet,
        pending: &mut Vec<PendingReplay>,
        entries: &mut Vec<(u32, PathKey)>,
    ) -> (r: Result<(), PlanError>)
        requires
            old(self).wf(),
            graph.wf(),
            graph@.has_node(ni),
        ensures
            final(self).wf(),
            final(self)@ == (State {
                tag_generator: final(self)@.tag_generator,
                ..old(self)@
            }),
            match plan_indexes(
                Planned {
                    state: old(self)@,
                    pending: old(pending)@,
                    entries: entries_view(old(entries)@),
                },
                graph@,
                ni,
                indexes@,
                0,
            ) {
                Ok(pl) => r is Ok && final(self)@ == pl.state && final(pending)@ == pl.pending
                    && entries_view(final(entries)@) == pl.entries,
                Err(e) => r == Err::<(), PlanError>(e),
            },
    {
        let ghost goal = plan_indexes(
            Planned { state: self@, pending: pending@, entries: entries_view(entries@) },
            graph@,
            ni,
            indexes@,
            0,
        );
        let target_domain = graph.node(ni).domain;
        let mut j: usize = 0;
        while j < indexes.len()
            invariant
                j <= indexes@.len(),
                self.wf(),
                self@ == (State { tag_generator: self@.tag_generator, ..old(self)@ }),
                graph.wf(),
                graph@.has_node(ni),
                target_domain == graph@.nodes[ni as int].domain,
                goal == plan_indexes(
                    Planned {
                        state: old(self)@,
                        pending: old(pending)@,
                        entries: entries_view(old(entries)@),
                    },
                    graph@,
                    ni,
                    indexes@,
                    0,
                ),
                goal == plan_indexes(
                    Planned { state: self@, pending: pending@, entries: entries_view(entries@) },
                    graph@,
                    ni,
                    indexes@,
                    j as int,
                ),
            decreases indexes@.len() - j,
        {
            let index = indexes.get(j);
            let paths = match graph.replay_paths_for_nonstop(ni, index) {
                None => {
                    return Err(PlanError::PathsUnavailable { node: ni });
                },
                Some(paths) => paths,
            };
            let ghost before = Planned {
                state: self@,
                pending: pending@,
                entries: entries_view(entries@),
            };
            let mut p: usize = 0;
            while p < paths.len()
                invariant
                    p <= paths.len(),
                    j < indexes@.len(),
                    self.wf(),
                    self@ == (State { tag_generator: self@.tag_generator, ..old(self)@ }),
                    graph.wf(),
                    graph@.has_node(ni),
                    index@ == indexes@[j as int],
                    target_domain == graph@.nodes[ni as int].domain,
                    forall|q: int|
                        0 <= q < paths@.len() ==> (#[trigger] paths@[q]).segments@.len() > 0,
                    graph@.replay_paths_for(ni, indexes@[j as int]) == Some(paths@),
                    goal == plan_indexes(
                        Planned {
                            state: old(self)@,
                            pending: old(pending)@,
                            entries: entries_view(old(entries)@),
                        },
                        graph@,
                        ni,
                        indexes@,
                        0,
                    ),
                    goal == plan_indexes(before, graph@, ni, indexes@, j as int),
                    plan_paths(before, graph@, ni, index@, paths@, 0) == plan_paths(
                        Planned {
                            state: self@,
                            pending: pending@,
                            entries: entries_view(entries@),
                        },
                        graph@,
                        ni,
                        index@,
                        paths@,
                        p as int,
                    ),
                decreases paths.len() - p,
            {
                let path = &paths[p];
                assert(paths@[p as int].segments@.len() > 0);
                let source = path.segments[0].node;
                let ghost cur = Planned {
                    state: self@,
                    pending: pending@,
                    entries: entries_view(entries@),
                };
                let source_node = match graph.get(source) {
                    None => {
                        assert(plan_path(cur, graph@, ni, index@, *path) is Err);
                        return Err(PlanError::UnknownNode { node: source });
                    },
                    Some(node) => node,
                };
                let tag = match self.tag_for_path(index, path) {
                    Err(e) => {
                        assert(plan_path(cur, graph@, ni, index@, *path) is Err);
                        return Err(e);
                    },
                    Ok(tag) => tag,
                };
                pending.push(
                    PendingReplay {
                        tag,
                        source: source_node.local_addr,
                        source_domain: source_node.domain,
                        target_domain,
                    },
                );
                let mut nodes: Vec<NodeIndex> = Vec::new();
                let mut q: usize = 0;
                while q < path.segments.len()
                    invariant
                        q <= path.segments.len(),
                        nodes@ == path_nodes(*path).take(q as int),
                    decreases path.segments.len() - q,
                {
                    nodes.push(path.segments[q].node);
                    assert(nodes@ =~= path_nodes(*path).take(q + 1));
                    q += 1;
                }
                assert(path_nodes(*path).take(path.segments.len() as int) =~= path_nodes(*path));
                let ghost ev = entries_view(entries@);
                entries.push((tag.0, path_key(index, &nodes)));
                assert(entries_view(entries@) =~= ev.push(
                    (tag.0, crate::paths::path_key_of(index@, path_nodes(*path))),
                ));
                assert(plan_path(cur, graph@, ni, index@, *path) == Ok::<Planned, PlanError>(
                    Planned { state: self@, pending: pending@, entries: entries_view(entries@) },
                ));
                p += 1;
            }
            j += 1;
        }
        Ok(())
    }

    /// Records the replay paths of node `ni`, each under its tag, in order.
    pub fn record_paths(&mut self, ni: NodeIndex, entries: &Vec<(u32, PathKey)>)
        requires
            old(self).wf(),
        ensures
            final(self).wf(),
            final(self)@ == (State {
                paths: old(self)@.paths.insert(
                    ni,
                    record_entries(paths_get(old(self)@.paths, ni), entries_view(entries@), 0),
                ),
                ..old(self)@
            }),
    {
        let ghost s0 = self@;
        let ghost ev = entries_view(entries@);
        let mut for_node = match self.paths.remove(ni) {
            Some(m) => m,
            None => path_map_new(),
        };
        let ghost m0 = recorded_paths(for_node);
        assert(m0 == paths_get(s0.paths, ni));
        assert(one_tag_per_path(m0)) by {
            if s0.paths.contains_key(ni) {
                assert(one_tag_per_path(s0.paths[ni]));
            }
        }
        let ghost rest = self.paths@;
        let mut k: usize = 0;
        while k < entries.len()
            invariant
                k <= entries.len(),
                ev == entries_view(entries@),
                record_entries(m0, ev, 0) == record_entries(recorded_paths(for_node), ev, k as int),
            decreases entries.len() - k,
        {
            path_map_insert(&mut for_node, entries[k].0, copy_key(&entries[k].1));
            k += 1;
        }
        proof {
            lemma_record_entries(m0, ev, 0);
        }
        self.paths.insert(ni, for_node);
        proof {
            assert(paths_view(self.paths@) =~= s0.paths.insert(ni, record_entries(m0, ev, 0)));
            assert forall|n: NodeIndex| self@.paths.contains_key(n) implies one_tag_per_path(
                #[trigger] self@.paths[n],
            ) by {
                if n != ni {
                    assert(s0.paths.contains_key(n));
                    assert(self@.paths[n] == s0.paths[n]);
                }
            }
        }
    }

    /// Builds the state of node `ni` for the given indexes, or, where none
    /// is given, for the index of the reader that the node must then be.
    /// Every replay path gets its tag and is recorded; each replay is
    /// started at its source; and the target's domain is asked to wait for
    /// them. Where this fails, nothing has changed: no tag is spent, no path
    /// recorded and no request added.
    pub fn setup(
        &mut self,
        ni: NodeIndex,
        index_on: &mut IndexSet,
        waiting: &mut Vec<Address>,
        graph: &DataflowGraph,
        dmp: &mut DomainMigrationPlan,
    ) -> (r: Result<(), PlanError>)
        requires
            old(self).wf(),
            graph.wf(),
            graph@.has_node(ni),
            old(index_on).wf(),
        ensures
            final(self).wf(),
            final(index_on).wf(),
            final(dmp).recovery() == old(dmp).recovery(),
            same_but_paths(old(self)@, final(self)@),
            continues(old(dmp).messages(), final(dmp).messages()),
            match setup_spec(
                Progress {
                    state: old(self)@,
                    messages: old(dmp).messages(),
                    waiting: old(waiting)@,
                },
                graph@,
                ni,
                old(index_on)@,
            ) {
                Ok(c) => r is Ok && final(self)@ == c.state && final(dmp).messages() == c.messages
                    && final(waiting)@ == c.waiting && final(index_on)@.len() == 0,
                Err(e) => {
                    &&& r == Err::<(), PlanError>(e)
                    &&& final(self)@ == old(self)@
                    &&& final(dmp).messages() == old(dmp).messages()
                    &&& final(waiting)@ == old(waiting)@
                    &&& final(index_on)@ == old(index_on)@
                },
            },
    {
        let node = graph.node(ni);
        let ghost s0 = self@;
        let saved = self.tag_generator;
        let mut indexes = index_on.duplicate();
        if indexes.is_empty() {
            if !node.is_reader() {
                return Err(PlanError::IndexlessNonReader { node: ni });
            }
            match node.reader_index() {
                None => {
                    return Err(PlanError::ReaderNotMaterialized { node: ni });
                },
                Some(index) => {
                    indexes.insert(index.duplicate());
                    assert(indexes@ =~= seq![index@]);
                },
            }
        }
        assert(indexes_to_build(graph@, ni, old(index_on)@) == Ok::<Seq<IndexView>, PlanError>(
            indexes@,
        ));
        let mut pending: Vec<PendingReplay> = Vec::new();
        let mut entries: Vec<(u32, PathKey)> = Vec::new();
        assert(entries_view(entries@) =~= Seq::empty());
        match self.plan_replays(graph, ni, &indexes, &mut pending, &mut entries) {
            Err(e) => {
                self.tag_generator = saved;
                assert(self@ == s0);
                return Err(e);
            },
            Ok(()) => {},
        }
        index_on.clear();
        self.record_paths(ni, &entries);
        if pending.len() > 0 {
            start_pending(dmp, waiting, &pending);
            dmp.add_message(node.domain, DomainRequest::QueryReplayDone { node: node.local_addr });
        }
        Ok(())
    }

    /// Brings up the new node `ni`: a base table and a node without state
    /// need nothing; for any other the state is built by replay, after
    /// which there is no index left to announce. Where this fails, nothing
    /// has changed.
    pub fn ready_one(
        &mut self,
        ni: NodeIndex,
        index_on: &mut IndexSet,
        waiting: &mut Vec<Address>,
        graph: &DataflowGraph,
        dmp: &mut DomainMigrationPlan,
    ) -> (r: Result<(), PlanError>)
        requires
            old(self).wf(),
            graph.wf(),
            graph@.has_node(ni),
            old(index_on).wf(),
        ensures
            final(self).wf(),
            final(index_on).wf(),
            final(dmp).recovery() == old(dmp).recovery(),
            same_but_paths(old(self)@, final(self)@),
            continues(old(dmp).messages(), final(dmp).messages()),
            match ready_one_spec(
                Progress {
                    state: old(self)@,
                    messages: old(dmp).messages(),
                    waiting: old(waiting)@,
                },
                graph@,
                ni,
                old(index_on)@,
            ) {
                Ok((c, left)) => r is Ok && final(self)@ == c.state && final(dmp).messages()
                    == c.messages && final(waiting)@ == c.waiting && final(index_on)@ == left,
                Err(e) => {
                    &&& r == Err::<(), PlanError>(e)
                    &&& final(self)@ == old(self)@
                    &&& final(dmp).messages() == old(dmp).messages()
                    &&& final(waiting)@ == old(waiting)@
                    &&& final(index_on)@ == old(index_on)@
                },
            },
    {
        let node = graph.node(ni);
        if node.is_base() {
            return Ok(());
        }
        if index_on.is_empty() && !node.is_materialized_reader() {
            return Ok(());
        }
        match self.setup(ni, index_on, waiting, graph, dmp) {
            Err(e) => Err(e),
            Ok(()) => {
                assert(index_on@ =~= Seq::empty());
                Ok(())
            },
        }
    }

    /// For each node, whether it is not new, and whether it is not new and had state before.
    pub fn old_flags(&self, graph: &DataflowGraph, new: &NodeSet) -> (r: (Vec<bool>, Vec<bool>))
        requires
            self.wf(),
            graph.wf(),
        ensures
            r.0@ == old_nodes(graph@, new@),
            r.1@ == old_nodes_with_state(self@, graph@, new@),
    {
        let n = graph.node_count();
        let mut pass: Vec<bool> = Vec::new();
        let mut hit: Vec<bool> = Vec::new();
        let mut c: usize = 0;
        while c < n
            invariant
                c <= n,
                n == graph@.nodes.len(),
                self.wf(),
                pass@.len() == c,
                hit@.len() == c,
                forall|k: int| 0 <= k < c ==> pass@[k] == !new@.contains(k as usize),
                forall|k: int| 0 <= k < c ==> hit@[k] == had_state_before(self@, new@, k as usize),
            decreases n - c,
        {
            let is_old = !new.contains(c);
            pass.push(is_old);
            hit.push(is_old && self.added.count(c) != self.have.count(c));
            c += 1;
        }
        assert(pass@ =~= old_nodes(graph@, new@));
        assert(hit@ =~= old_nodes_with_state(self@, graph@, new@));
        (pass, hit)
    }

    /// Takes the added indexes of the old node `node` and builds their
    /// state. Where this fails, nothing has changed.
    pub fn reindex(
        &mut self,
        node: NodeIndex,
        new: &NodeSet,
        waiting: &mut Vec<Address>,
        graph: &DataflowGraph,
        dmp: &mut DomainMigrationPlan,
    ) -> (r: Result<(), PlanError>)
        requires
            old(self).wf(),
            graph.wf(),
            graph@.has_node(node),
        ensures
            final(self).wf(),
            final(dmp).recovery() == old(dmp).recovery(),
            broken_off(old(self)@, final(self)@),
            continues(old(dmp).messages(), final(dmp).messages()),
            match reindex_one(
                Progress {
                    state: old(self)@,
                    messages: old(dmp).messages(),
                    waiting: old(waiting)@,
                },
                graph@,
                new@,
                node,
            ) {
                Ok(c) => r is Ok && final(self)@ == c.state && final(dmp).messages() == c.messages
                    && final(waiting)@ == c.waiting,
                Err(e) => {
                    &&& r == Err::<(), PlanError>(e)
                    &&& final(self)@ == old(self)@
                    &&& final(dmp).messages() == old(dmp).messages()
                    &&& final(waiting)@ == old(waiting)@
                },
            },
    {
        let ghost s0 = self@;
        let present = self.added.contains_key(node);
        let mut index_on = match self.added.remove(node) {
            Some(set) => set,
            None => IndexSet::new(),
        };
        proof {
            assert(index_on@ == table_get(s0.added, node));
            assert(self.added.table() =~= s0.added.remove(node));
            assert(self@ == (State { added: s0.added.remove(node), ..s0 }));
        }
        let mut blocked = false;
        if !self.had.contains(node) && !index_on.is_empty() && self.partial.contains(node) {
            let (pass, hit) = self.old_flags(graph, new);
            blocked = find_marked(graph, node, Direction::Outgoing, &pass, &hit).is_some();
        }
        let r = if blocked {
            Err(PlanError::OldNodeMadePartial { node })
        } else {
            self.setup(node, &mut index_on, waiting, graph, dmp)
        };
        match r {
            Err(e) => {
                let ghost mid = self.added.table();
                let ghost left = index_on@;
                proof {
                    assert(self@ == (State { added: s0.added.remove(node), ..s0 }));
                    assert(mid == s0.added.remove(node));
                    assert(left == table_get(s0.added, node));
                    assert(present == s0.added.contains_key(node));
                }
                if present {
                    self.added.insert(node, index_on);
                    assert(self.added.table() =~= mid.insert(node, left));
                }
                proof {
                    assert(self.added.table() =~= s0.added);
                    assert(self@ == s0);
                }
                Err(e)
            },
            Ok(()) => Ok(()),
        }
    }

    /// Makes the new node `ni`: takes its added indexes, brings the node up,
    /// and tells its domain that it is ready. Where this fails, nothing has
    /// changed.
    pub fn make(
        &mut self,
        ni: NodeIndex,
        waiting: &mut Vec<Address>,
        graph: &DataflowGraph,
        dmp: &mut DomainMigrationPlan,
    ) -> (r: Result<(), PlanError>)
        requires
            old(self).wf(),
            graph.wf(),
            graph@.has_node(ni),
        ensures
            final(self).wf(),
            final(dmp).recovery() == old(dmp).recovery(),
            broken_off(old(self)@, final(self)@),
            continues(old(dmp).messages(), final(dmp).messages()),
            match make_one(
                Progress {
                    state: old(self)@,
                    messages: old(dmp).messages(),
                    waiting: old(waiting)@,
                },
                graph@,
                ni,
            ) {
                Ok(c) => r is Ok && final(self)@ == c.state && final(dmp).messages() == c.messages
                    && final(waiting)@ == c.waiting,
                Err(e) => {
                    &&& r == Err::<(), PlanError>(e)
                    &&& final(self)@ == old(self)@
                    &&& final(dmp).messages() == old(dmp).messages()
                    &&& final(waiting)@ == old(waiting)@
                },
            },
    {
        let ghost s0 = self@;
        let present = self.added.contains_key(ni);
        if present && self.added.count(ni) == 0 {
            return Err(PlanError::EmptyIndexSet { node: ni });
        }
        let mut index_on = match self.added.remove(ni) {
            Some(set) => set,
            None => IndexSet::new(),
        };
        proof {
            assert(index_on@ == table_get(s0.added, ni));
            assert(self.added.table() =~= s0.added.remove(ni));
            assert(self@ == (State { added: s0.added.remove(ni), ..s0 }));
        }
        match self.ready_one(ni, &mut index_on, waiting, graph, dmp) {
            Err(e) => {
                let ghost mid = self.added.table();
                let ghost left = index_on@;
                proof {
                    assert(self@ == (State { added: s0.added.remove(ni), ..s0 }));
                    assert(mid == s0.added.remove(ni));
                    assert(left == table_get(s0.added, ni));
                    assert(present == s0.added.contains_key(ni));
                }
                if present {
                    self.added.insert(ni, index_on);
                    assert(self.added.table() =~= mid.insert(ni, left));
                }
                proof {
                    assert(self.added.table() =~= s0.added);
                    assert(self@ == s0);
                }
                return Err(e);
            },
            Ok(()) => {},
        }
        let node = graph.node(ni);
        let mut index: Vec<LookupIndex> = Vec::new();
        let mut k: usize = 0;
        while k < index_on.len()
            invariant
                k <= index_on@.len(),
                index@.len() == k,
                lookup_views(index@) == strict_views(index_on@).take(k as int),
            decreases index_on@.len() - k,
        {
            let ghost before = index@;
            index.push(LookupIndex::Strict(index_on.get(k).duplicate()));
            proof {
                assert forall|j: int| 0 <= j < k + 1 implies lookup_views(index@)[j]
                    == strict_views(index_on@)[j] by {
                    if j < k {
                        assert(lookup_views(before)[j] == strict_views(index_on@).take(
                            k as int,
                        )[j]);
                        assert(index@[j] == before[j]);
                    }
                }
                assert(lookup_views(index@) =~= strict_views(index_on@).take(k + 1));
            }
            k += 1;
        }
        assert(strict_views(index_on@).take(index_on@.len() as int) =~= strict_views(index_on@));
        dmp.add_message(
            node.domain,
            DomainRequest::Ready { node: node.local_addr, purge: node.purge, index },
        );
        Ok(())
    }

    /// Settles the state at the end of a commit: nothing counts as added any
    /// more, no reader as new, and every materialized node as materialized before.
    pub fn settle(&mut self)
        requires
            old(self).wf(),
        ensures
            final(self).wf(),
            final(self)@ == settled(old(self)@),
    {
        let ghost s0 = self@;
        self.added.clear();
        self.added_weak.clear();
        self.new_readers.clear();
        let ghost keys = self.have.order();
        let ghost had0 = self.had@;
        proof {
            assert(self.added.table() =~= Map::empty());
            assert(self.added_weak.table() =~= Map::empty());
            assert(keys.take(0).to_set() =~= Set::empty());
            assert(had0.union(keys.take(0).to_set()) =~= had0);
        }
        let mut i: usize = 0;
        while i < self.have.len()
            invariant
                i <= keys.len(),
                keys == self.have.order(),
                self.wf(),
                self@ == (State {
                    added: Map::empty(),
                    added_weak: Map::empty(),
                    new_readers: Set::empty(),
                    had: had0.union(keys.take(i as int).to_set()),
                    ..s0
                }),
            decreases keys.len() - i,
        {
            let n = self.have.key_at(i);
            let ghost prev = self@;
            self.had.insert(n);
            proof {
                assert(self@ == (State { had: prev.had.insert(n), ..prev }));
                crate::collections::lemma_take_next(keys, i as int);
                assert(keys.take(i + 1) =~= keys.take(i as int).push(n));
                assert(had0.union(keys.take(i as int).to_set()).insert(n) =~= had0.union(
                    keys.take(i + 1).to_set(),
                ));
            }
            i += 1;
        }
        proof {
            assert(keys.take(keys.len() as int) =~= keys);
            assert(keys.to_set() =~= s0.have.dom());
        }
    }

    /// Commits to all that was decided since the last commit.
    ///
    /// Old nodes that got indexes have their state built, in topological
    /// order; then the new nodes are brought up, in topological order, and
    /// their domains told that they are ready; then every new node that no
    /// request has waited for yet is waited for; and the state settles. The
    /// requests are added to the plan in the order in which they are to be
    /// applied. Where a step fails, what the steps before it did stands: the
    /// decisions are untouched, the added indexes of the nodes dealt with
    /// are taken, and the requests sent so far are in the plan.
    pub fn commit(&mut self, graph: &DataflowGraph, new: &NodeSet, dmp: &mut DomainMigrationPlan)
        -> (r: Result<(), PlanError>)
        requires
            old(self).wf(),
            graph.wf(),
            new.wf(),
        ensures
            final(self).wf(),
            final(dmp).recovery() == old(dmp).recovery(),
            continues(old(dmp).messages(), final(dmp).messages()),
            match commit_spec(old(self)@, graph@, new@, old(dmp).messages()) {
                Ok((s, messages)) => r is Ok && final(self)@ == s && final(dmp).messages()
                    == messages,
                Err(e) => r == Err::<(), PlanError>(e) && broken_off(old(self)@, final(self)@),
            },
    {
        let ghost s0 = self@;
        let ghost goal = commit_spec(s0, graph@, new@, dmp.messages());
        let nodes = Self::planned(graph);
        let mut make: Vec<NodeIndex> = Vec::new();
        let mut reindex: Vec<NodeIndex> = Vec::new();
        let mut j: usize = 0;
        while j < nodes.len()
            invariant
                j <= nodes.len(),
                self.wf(),
                self@ == s0,
                forall|k: int| 0 <= k < nodes@.len() ==> is_planned(graph@, #[trigger] nodes@[k]),
                forall|k: int| 0 <= k < make@.len() ==> is_planned(graph@, #[trigger] make@[k]),
                forall|k: int|
                    0 <= k < reindex@.len() ==> is_planned(graph@, #[trigger] reindex@[k]),
                split_nodes(s0, new@, nodes@, 0, Seq::empty(), Seq::empty()) == split_nodes(
                    s0,
                    new@,
                    nodes@,
                    j as int,
                    make@,
                    reindex@,
                ),
            decreases nodes.len() - j,
        {
            let n = nodes[j];
            assert(is_planned(graph@, nodes@[j as int]));
            if new.contains(n) {
                make.push(n);
            } else if self.added.contains_key(n) {
                reindex.push(n);
            }
            j += 1;
        }
        let mut waiting: Vec<Address> = Vec::new();
        let mut j: usize = 0;
        while j < make.len()
            invariant
                j <= make.len(),
                graph.wf(),
                forall|k: int| 0 <= k < make@.len() ==> is_planned(graph@, #[trigger] make@[k]),
                addresses_of(graph@, make@, 0, Seq::empty()) == addresses_of(
                    graph@,
                    make@,
                    j as int,
                    waiting@,
                ),
            decreases make.len() - j,
        {
            assert(is_planned(graph@, make@[j as int]));
            let node = graph.node(make[j]);
            insert_address(&mut waiting, (node.domain, node.local_addr));
            j += 1;
        }
        let ghost start = Progress { state: s0, messages: dmp.messages(), waiting: waiting@ };
        let mut i: usize = 0;
        while i < reindex.len()
            invariant
                i <= reindex.len(),
                self.wf(),
                graph.wf(),
                dmp.recovery() == old(dmp).recovery(),
                forall|k: int|
                    0 <= k < reindex@.len() ==> is_planned(graph@, #[trigger] reindex@[k]),
                goal == commit_spec(old(self)@, graph@, new@, old(dmp).messages()),
                broken_off(old(self)@, self@),
                continues(old(dmp).messages(), dmp.messages()),
                reindex_from(start, graph@, new@, reindex@, 0) == reindex_from(
                    Progress { state: self@, messages: dmp.messages(), waiting: waiting@ },
                    graph@,
                    new@,
                    reindex@,
                    i as int,
                ),
                goal == match reindex_from(start, graph@, new@, reindex@, 0) {
                    Err(e) => Err::<(State, Seq<Message>), PlanError>(e),
                    Ok(c1) => match make_from(c1, graph@, make@, 0) {
                        Err(e) => Err::<(State, Seq<Message>), PlanError>(e),
                        Ok(c2) => Ok::<(State, Seq<Message>), PlanError>(
                            (settled(c2.state), wait_for(c2.messages, c2.waiting, 0)),
                        ),
                    },
                },
            decreases reindex.len() - i,
        {
            assert(is_planned(graph@, reindex@[i as int]));
            match self.reindex(reindex[i], new, &mut waiting, graph, dmp) {
                Err(e) => {
                    return Err(e);
                },
                Ok(()) => {},
            }
            i += 1;
        }
        let ghost c1 = Progress { state: self@, messages: dmp.messages(), waiting: waiting@ };
        let mut i: usize = 0;
        while i < make.len()
            invariant
                i <= make.len(),
                self.wf(),
                graph.wf(),
                dmp.recovery() == old(dmp).recovery(),
                forall|k: int| 0 <= k < make@.len() ==> is_planned(graph@, #[trigger] make@[k]),
                goal == commit_spec(old(self)@, graph@, new@, old(dmp).messages()),
                broken_off(old(self)@, self@),
                continues(old(dmp).messages(), dmp.messages()),
                make_from(c1, graph@, make@, 0) == make_from(
                    Progress { state: self@, messages: dmp.messages(), waiting: waiting@ },
                    graph@,
                    make@,
                    i as int,
                ),
                goal == match make_from(c1, graph@, make@, 0) {
                    Err(e) => Err::<(State, Seq<Message>), PlanError>(e),
                    Ok(c2) => Ok::<(State, Seq<Message>), PlanError>(
                        (settled(c2.state), wait_for(c2.messages, c2.waiting, 0)),
                    ),
                },
            decreases make.len() - i,
        {
            assert(is_planned(graph@, make@[i as int]));
            match self.make(make[i], &mut waiting, graph, dmp) {
                Err(e) => {
                    return Err(e);
                },
                Ok(()) => {},
            }
            i += 1;
        }
        let ghost c2 = Progress { state: self@, messages: dmp.messages(), waiting: waiting@ };
        let mut k: usize = 0;
        while k < waiting.len()
            invariant
                k <= waiting.len(),
                self.wf(),
                self@ == c2.state,
                dmp.recovery() == old(dmp).recovery(),
                goal == commit_spec(old(self)@, graph@, new@, old(dmp).messages()),
                continues(old(dmp).messages(), dmp.messages()),
                wait_for(c2.messages, c2.waiting, 0) == wait_for(
                    dmp.messages(),
                    waiting@,
                    k as int,
                ),
                waiting@ == c2.waiting,
                goal == Ok::<(State, Seq<Message>), PlanError>(
                    (settled(c2.state), wait_for(c2.messages, c2.waiting, 0)),
                ),
            decreases waiting.len() - k,
        {
            let (domain, node) = waiting[k];
            dmp.add_message(domain, DomainRequest::IsReady { node });
            k += 1;
        }
        self.settle();
        Ok(())
    }
}

} // verus!
