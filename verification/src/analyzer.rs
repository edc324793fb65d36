//! The pass over the graph that decides partiality, node by node.

use crate::collections::{
    lemma_take_next, table_get, table_insert, table_touch, IndexTable, NodeMap, NodeSet,
};
use crate::error::PlanError;
use crate::graph::{DataflowGraph, ReplayPath};
use crate::growth::{
    grown, lemma_fulfil, lemma_grown_partial, lemma_grown_refl, lemma_grown_trans, lemma_set_have,
    lemma_walk_paths,
};
use crate::index::{seq_extend, IndexSet, IndexView, NodeIndex};
use crate::partiality::{
    analyze_all, analyze_down, analyze_node, blocking_nodes, blocks_partial, broken_first,
    eligible, fulfil, fulfil_from, gather_paths, is_planned, merge_tables, passes_below,
    passing_nodes, planned_nodes, select_paths, steps_to_skip, walk_path, walk_paths, Walk,
};
use crate::search::find_marked;
use crate::state::{Materializations, State};
use crate::topology::Direction;
use vstd::prelude::*;

verus! {

/// What a list of borrowed replay paths stands for in contracts.
pub open spec fn paths_of(v: Seq<&ReplayPath>) -> Seq<ReplayPath> {
    Seq::new(v.len(), |k: int| *v[k])
}

/// The replay paths of each of the indexes of node `ni`, in the order of the
/// indexes; nothing where the graph does not know those of one index.
pub fn gather<'a>(graph: &'a DataflowGraph, ni: NodeIndex, indexes: &IndexSet) -> (r: Option<
    Vec<&'a ReplayPath>,
>)
    requires
        graph.wf(),
    ensures
        match gather_paths(graph@, ni, indexes@, 0, Seq::empty()) {
            Some(paths) => r is Some && paths_of(r->0@) == paths,
            None => r is None,
        },
        r matches Some(v) ==> forall|p: int|
            0 <= p < v@.len() ==> (#[trigger] v@[p]).segments@.len() > 0,
{
    let mut out: Vec<&'a ReplayPath> = Vec::new();
    assert(paths_of(out@) =~= Seq::empty());
    let mut j: usize = 0;
    while j < indexes.len()
        invariant
            j <= indexes@.len(),
            graph.wf(),
            gather_paths(graph@, ni, indexes@, 0, Seq::empty()) == gather_paths(
                graph@,
                ni,
                indexes@,
                j as int,
                paths_of(out@),
            ),
            forall|p: int| 0 <= p < out@.len() ==> (#[trigger] out@[p]).segments@.len() > 0,
        decreases indexes@.len() - j,
    {
        match graph.replay_paths_for_nonstop(ni, indexes.get(j)) {
            None => {
                return None;
            },
            Some(paths) => {
                let ghost acc = paths_of(out@);
                let mut k: usize = 0;
                while k < paths.len()
                    invariant
                        k <= paths.len(),
                        out@.len() == acc.len() + k,
                        paths_of(out@) == acc + paths@.take(k as int),
                        forall|p: int|
                            0 <= p < paths@.len() ==> (#[trigger] paths@[p]).segments@.len() > 0,
                        forall|p: int|
                            0 <= p < out@.len() ==> (#[trigger] out@[p]).segments@.len() > 0,
                    decreases paths.len() - k,
                {
                    let ghost before = out@;
                    out.push(&paths[k]);
                    proof {
                        assert forall|p: int| 0 <= p < out@.len() implies paths_of(out@)[p] == (acc
                            + paths@.take(k + 1))[p] by {
                            if p < before.len() {
                                assert(paths_of(before)[p] == (acc + paths@.take(k as int))[p]);
                                assert(out@[p] == before[p]);
                            }
                        }
                        assert(paths_of(out@) =~= acc + paths@.take(k + 1));
                        assert forall|p: int| 0 <= p < out@.len() implies (
                        #[trigger] out@[p]).segments@.len() > 0 by {
                            if p < before.len() {
                                assert(out@[p] == before[p]);
                            }
                        }
                    }
                    k += 1;
                }
                assert(paths@.take(paths.len() as int) =~= paths@);
            },
        }
        j += 1;
    }
    Some(out)
}

/// The paths with the broken ones moved to the front; otherwise the order stays.
pub fn sort_broken_first<'a>(paths: &Vec<&'a ReplayPath>) -> (r: Vec<&'a ReplayPath>)
    ensures
        paths_of(r@) == broken_first(paths_of(paths@)),
        forall|p: int| 0 <= p < r@.len() ==> exists|q: int|
            0 <= q < paths@.len() && paths@[q] == #[trigger] r@[p],
{
    let mut out: Vec<&'a ReplayPath> = Vec::new();
    let ghost all = paths_of(paths@);
    assert(paths_of(out@) =~= Seq::empty());
    let mut j: usize = 0;
    while j < paths.len()
        invariant
            j <= paths.len(),
            all == paths_of(paths@),
            select_paths(all, true, 0, Seq::empty()) == select_paths(
                all,
                true,
                j as int,
                paths_of(out@),
            ),
            forall|p: int| 0 <= p < out@.len() ==> exists|q: int|
                0 <= q < paths@.len() && paths@[q] == #[trigger] out@[p],
        decreases paths.len() - j,
    {
        assert(all[j as int] == *paths@[j as int]);
        if paths[j].broken {
            let ghost before = out@;
            out.push(paths[j]);
            proof {
                assert(paths_of(out@) =~= paths_of(before).push(all[j as int]));
                assert forall|p: int| 0 <= p < out@.len() implies exists|q: int|
                    0 <= q < paths@.len() && paths@[q] == #[trigger] out@[p] by {
                    if p < before.len() {
                        assert(out@[p] == before[p]);
                    } else {
                        assert(paths@[j as int] == out@[p]);
                    }
                }
            }
        }
        j += 1;
    }
    let ghost first = paths_of(out@);
    let mut j: usize = 0;
    while j < paths.len()
        invariant
            j <= paths.len(),
            all == paths_of(paths@),
            select_paths(all, false, 0, first) == select_paths(
                all,
                false,
                j as int,
                paths_of(out@),
            ),
            forall|p: int| 0 <= p < out@.len() ==> exists|q: int|
                0 <= q < paths@.len() && paths@[q] == #[trigger] out@[p],
        decreases paths.len() - j,
    {
        assert(all[j as int] == *paths@[j as int]);
        if !paths[j].broken {
            let ghost before = out@;
            out.push(paths[j]);
            proof {
                assert(paths_of(out@) =~= paths_of(before).push(all[j as int]));
                assert forall|p: int| 0 <= p < out@.len() implies exists|q: int|
                    0 <= q < paths@.len() && paths@[q] == #[trigger] out@[p] by {
                    if p < before.len() {
                        assert(out@[p] == before[p]);
                    } else {
                        assert(paths@[j as int] == out@[p]);
                    }
                }
            }
        }
        j += 1;
    }
    out
}

/// Walks up one replay path from step `skip`: ends the walk for good at a
/// segment without an index; records the index that a materialized node on
/// the way lacks; and materializes the node at the far end of a broken path.
/// Returns whether the node can still be partial and whether the walk has ended for good.
pub fn walk_one(
    have: &mut NodeMap<IndexSet>,
    add: &mut NodeMap<IndexSet>,
    path: &ReplayPath,
    skip: usize,
    able: bool,
) -> (r: (bool, bool))
    requires
        old(have).table_ok(),
        old(add).table_ok(),
    ensures
        final(have).table_ok(),
        final(add).table_ok(),
        (Walk {
            have: final(have).table(),
            add: final(add).table(),
            able: r.0,
            stopped: r.1,
        }) == walk_path(
            Walk { have: old(have).table(), add: old(add).table(), able, stopped: false },
            *path,
            skip as int,
        ),
{
    let len = path.segments.len();
    let ghost start = Walk { have: have.table(), add: add.table(), able, stopped: false };
    let mut i: usize = skip;
    while i < len
        invariant
            len == path.segments@.len(),
            *have == *old(have),
            *add == *old(add),
            have.table_ok(),
            add.table_ok(),
            start == (Walk { have: have.table(), add: add.table(), able, stopped: false }),
            walk_path(start, *path, skip as int) == walk_path(start, *path, i as int),
        decreases len - i,
    {
        let seg = &path.segments[len - 1 - i];
        match &seg.index {
            None => {
                return (false, true);
            },
            Some(index) => {
                if have.contains_key(seg.node) {
                    if !have.has_index(seg.node, index) {
                        add.insert_index(seg.node, index.duplicate());
                    }
                    return (able, false);
                }
                if i == len - 1 && path.broken {
                    have.touch(seg.node);
                    add.insert_index(seg.node, index.duplicate());
                    return (able, false);
                }
            },
        }
        i += 1;
    }
    (able, false)
}

/// Walks up the replay paths in order, each from the target or, where the
/// target is `ni` itself, from the segment above it, until one of them ends
/// the walk for good.
pub fn walk_all(
    have: &mut NodeMap<IndexSet>,
    add: &mut NodeMap<IndexSet>,
    ni: NodeIndex,
    paths: &Vec<&ReplayPath>,
    able: bool,
) -> (r: (bool, bool))
    requires
        old(have).table_ok(),
        old(add).table_ok(),
    ensures
        final(have).table_ok(),
        final(add).table_ok(),
        (Walk {
            have: final(have).table(),
            add: final(add).table(),
            able: r.0,
            stopped: r.1,
        }) == walk_paths(
            Walk { have: old(have).table(), add: old(add).table(), able, stopped: false },
            ni,
            paths_of(paths@),
            0,
        ),
{
    let ghost all = paths_of(paths@);
    let ghost goal = walk_paths(
        Walk { have: have.table(), add: add.table(), able, stopped: false },
        ni,
        all,
        0,
    );
    let mut still: bool = able;
    let mut p: usize = 0;
    while p < paths.len()
        invariant
            p <= paths.len(),
            have.table_ok(),
            add.table_ok(),
            all == paths_of(paths@),
            goal == walk_paths(
                Walk { have: old(have).table(), add: old(add).table(), able, stopped: false },
                ni,
                all,
                0,
            ),
            goal == walk_paths(
                Walk { have: have.table(), add: add.table(), able: still, stopped: false },
                ni,
                all,
                p as int,
            ),
        decreases paths.len() - p,
    {
        let path = paths[p];
        assert(all[p as int] == *path);
        let n = path.segments.len();
        let skip: usize = if n > 0 && path.segments[n - 1].node == ni {
            1
        } else {
            0
        };
        assert(skip == steps_to_skip(*path, ni));
        let ghost before = Walk {
            have: have.table(),
            add: add.table(),
            able: still,
            stopped: false,
        };
        let (next, stopped) = walk_one(have, add, path, skip, still);
        still = next;
        let ghost after = Walk { have: have.table(), add: add.table(), able: still, stopped };
        assert(after == walk_path(before, all[p as int], steps_to_skip(all[p as int], ni)));
        assert(goal == walk_paths(after, ni, all, p + 1));
        if stopped {
            assert(walk_paths(after, ni, all, p + 1) == after);
            return (still, true);
        }
        p += 1;
    }
    (still, false)
}

/// The obligations with those of `add` for the given nodes added.
pub open spec fn merge_keys(replay: IndexTable, add: IndexTable, keys: Seq<NodeIndex>)
    -> IndexTable {
    Map::new(
        |n: NodeIndex| replay.contains_key(n) || keys.contains(n),
        |n: NodeIndex|
            if keys.contains(n) {
                seq_extend(table_get(replay, n), add[n])
            } else {
                replay[n]
            },
    )
}

/// The table with each of the indexes added to those of `n`, in order.
pub open spec fn table_extend(t: IndexTable, n: NodeIndex, more: Seq<IndexView>) -> IndexTable
    decreases more.len(),
{
    if more.len() == 0 {
        t
    } else {
        table_insert(table_extend(t, n, more.drop_last()), n, more.last())
    }
}

/// Extending the indexes of an entry one by one extends its list.
pub proof fn lemma_extend_entry(t: IndexTable, k: NodeIndex, more: Seq<IndexView>)
    ensures
        table_extend(table_touch(t, k), k, more) == t.insert(
            k,
            seq_extend(table_get(t, k), more),
        ),
    decreases more.len(),
{
    if more.len() == 0 {
        assert(table_touch(t, k) =~= t.insert(k, seq_extend(table_get(t, k), more)));
    } else {
        lemma_extend_entry(t, k, more.drop_last());
        let inner = seq_extend(table_get(t, k), more.drop_last());
        assert(table_insert(t.insert(k, inner), k, more.last()) =~= t.insert(
            k,
            seq_extend(table_get(t, k), more),
        ));
    }
}

/// Adds to the obligations those that `add` holds, node by node.
pub fn merge(replay: &mut NodeMap<IndexSet>, add: &NodeMap<IndexSet>)
    requires
        old(replay).table_ok(),
        add.table_ok(),
    ensures
        final(replay).table_ok(),
        final(replay).table() == merge_tables(old(replay).table(), add.table()),
{
    let ghost r0 = replay.table();
    let ghost keys = add.order();
    let ghost a = add.table();
    assert(replay.table() =~= merge_keys(r0, a, keys.take(0)));
    let mut i: usize = 0;
    while i < add.len()
        invariant
            i <= keys.len(),
            keys == add.order(),
            a == add.table(),
            add.table_ok(),
            replay.table_ok(),
            replay.table() == merge_keys(r0, a, keys.take(i as int)),
        decreases keys.len() - i,
    {
        let key = add.key_at(i);
        let set = add.value_at(i);
        let ghost before = replay.table();
        proof {
            lemma_take_next(keys, i as int);
            assert(!keys.take(i as int).contains(key));
            assert(table_get(before, key) == table_get(r0, key));
            assert(set@ == a[key]);
        }
        replay.touch(key);
        let mut j: usize = 0;
        while j < set.len()
            invariant
                j <= set@.len(),
                replay.table_ok(),
                replay.table() == table_extend(table_touch(before, key), key, set@.take(j as int)),
            decreases set@.len() - j,
        {
            replay.insert_index(key, set.get(j).duplicate());
            proof {
                assert(set@.take(j + 1).drop_last() =~= set@.take(j as int));
            }
            j += 1;
        }
        proof {
            assert(set@.take(set@.len() as int) =~= set@);
            lemma_extend_entry(before, key, set@);
            assert(replay.table() =~= merge_keys(r0, a, keys.take(i + 1)));
        }
        i += 1;
    }
    proof {
        assert(keys.take(keys.len() as int) =~= keys);
        assert forall|n: NodeIndex| keys.contains(n) <==> a.contains_key(n) by {
            assert(keys.to_set().contains(n) <==> add@.dom().contains(n));
        }
        assert(merge_keys(r0, a, keys) =~= merge_tables(r0, a));
    }
}

impl Materializations {
    /// For each node, whether the look below goes on past it, and whether it
    /// stands against a node above it being partial.
    pub fn below_flags(&self, graph: &DataflowGraph) -> (r: (Vec<bool>, Vec<bool>))
        requires
            self.wf(),
            graph.wf(),
        ensures
            r.0@ == passing_nodes(self@, graph@),
            r.1@ == blocking_nodes(self@, graph@),
    {
        let n = graph.node_count();
        let mut pass: Vec<bool> = Vec::new();
        let mut hit: Vec<bool> = Vec::new();
        let mut c: usize = 0;
        while c < n
            invariant
                c <= n,
                n == graph@.nodes.len(),
                self.wf(),
                graph.wf(),
                pass@.len() == c,
                hit@.len() == c,
                forall|k: int| 0 <= k < c ==> pass@[k] == passes_below(self@, graph@, k as usize),
                forall|k: int| 0 <= k < c ==> hit@[k] == blocks_partial(self@, graph@, k as usize),
            decreases n - c,
        {
            let node = graph.node(c);
            let stored = self.have.contains_key(c);
            let keyed = node.is_materialized_reader();
            let partial = self.partial.contains(c);
            pass.push(!stored && !keyed);
            hit.push(node.name_starts_with("FULL_") || ((stored || keyed) && !partial));
            c += 1;
        }
        assert(pass@ =~= passing_nodes(self@, graph@));
        assert(hit@ =~= blocking_nodes(self@, graph@));
        (pass, hit)
    }

    /// Whether node `ni` may be partial, as far as the node itself, what is
    /// recorded of it, and what lies below it are concerned.
    pub fn is_eligible(&self, graph: &DataflowGraph, new: &NodeSet, ni: NodeIndex) -> (r: bool)
        requires
            self.wf(),
            graph.wf(),
            graph@.has_node(ni),
        ensures
            r == eligible(self@, graph@, new@, ni),
    {
        let node = graph.node(ni);
        if !self.config.partial_enabled {
            return false;
        }
        if node.is_base() {
            return false;
        }
        if node.requires_full_materialization() {
            return false;
        }
        if !new.contains(ni) && self.added.count(ni) != self.have.count(ni)
            && !self.partial.contains(ni) {
            return false;
        }
        let (pass, hit) = self.below_flags(graph);
        find_marked(graph, ni, Direction::Outgoing, &pass, &hit).is_none()
    }

    /// Declares the indexes for node `ni`: each is had from now on, and is
    /// recorded as added if it is new there, if the node is partial, or if
    /// the state is being rebuilt.
    pub fn fulfil_indexes(&mut self, ni: NodeIndex, indexes: &IndexSet, recovery: bool)
        requires
            old(self).wf(),
        ensures
            final(self).wf(),
            final(self)@ == fulfil(old(self)@, ni, indexes@, recovery),
            grown(old(self)@, final(self)@),
    {
        proof {
            lemma_fulfil(self@, ni, indexes@, recovery);
        }
        let ghost s0 = self@;
        self.have.touch(ni);
        assert(self@ == (State { have: table_touch(s0.have, ni), ..s0 }));
        let ghost goal = fulfil(s0, ni, indexes@, recovery);
        let partial = self.partial.contains(ni);
        let mut j: usize = 0;
        while j < indexes.len()
            invariant
                j <= indexes@.len(),
                self.wf(),
                partial == self@.partial.contains(ni),
                goal == fulfil(old(self)@, ni, indexes@, recovery),
                goal == fulfil_from(self@, ni, indexes@, recovery, j as int),
            decreases indexes@.len() - j,
        {
            let ghost s1 = self@;
            let fresh = self.have.insert_index(ni, indexes.get(j).duplicate());
            assert(self@ == (State { have: table_insert(s1.have, ni, indexes@[j as int]), ..s1 }));
            let ghost s2 = self@;
            if fresh || partial || recovery {
                self.added.insert_index(ni, indexes.get(j).duplicate());
                assert(self@ == (State {
                    added: table_insert(s1.added, ni, indexes@[j as int]),
                    ..s2
                }));
            }
            j += 1;
        }
    }

    /// Decides node `ni`, if indexes for replays are asked of it.
    ///
    /// The node becomes partial if it is eligible and no replay path asks
    /// for a full replay; what its paths need from nodes above is then added
    /// to the obligations. Otherwise it stays full, which is an error where
    /// full materialization is switched off and the node is no base table,
    /// and where the node lies beyond the frontier. Either way the indexes
    /// asked of the node are declared.
    pub fn analyze_one(
        &mut self,
        graph: &DataflowGraph,
        new: &NodeSet,
        recovery: bool,
        replay: &mut NodeMap<IndexSet>,
        ni: NodeIndex,
    ) -> (r: Result<(), PlanError>)
        requires
            old(self).wf(),
            graph.wf(),
            graph@.has_node(ni),
            old(replay).table_ok(),
        ensures
            final(self).wf(),
            final(replay).table_ok(),
            grown(old(self)@, final(self)@),
            match analyze_node(old(self)@, old(replay).table(), graph@, new@, recovery, ni) {
                Ok((s, t)) => r is Ok && final(self)@ == s && final(replay).table() == t,
                Err(e) => r == Err::<(), PlanError>(e),
            },
    {
        let ghost s0 = self@;
        let ghost r0 = replay.table();
        proof {
            lemma_grown_refl(s0);
        }
        let indexes = match replay.remove(ni) {
            None => {
                assert(!r0.contains_key(ni));
                assert(replay.table() =~= r0);
                return Ok(());
            },
            Some(set) => set,
        };
        proof {
            assert(r0.contains_key(ni));
            assert(indexes@ == r0[ni]);
            assert(replay.table() =~= r0.remove(ni));
        }
        let able = self.is_eligible(graph, new, ni);
        let paths = match gather(graph, ni, &indexes) {
            None => {
                return Err(PlanError::PathsUnavailable { node: ni });
            },
            Some(paths) => paths,
        };
        let sorted = sort_broken_first(&paths);
        let mut add: NodeMap<IndexSet> = NodeMap::new();
        assert(add.table() =~= Map::empty());
        let (able, _stopped) = walk_all(&mut self.have, &mut add, ni, &sorted, able);
        let ghost w = walk_paths(
            Walk { have: s0.have, add: Map::empty(), able: eligible(s0, graph@, new@, ni), stopped: false },
            ni,
            broken_first(paths_of(paths@)),
            0,
        );
        assert(self@ == (State { have: w.have, ..s0 }));
        proof {
            lemma_walk_paths(
                Walk {
                    have: s0.have,
                    add: Map::empty(),
                    able: eligible(s0, graph@, new@, ni),
                    stopped: false,
                },
                ni,
                broken_first(paths_of(paths@)),
                0,
            );
            lemma_set_have(s0, w.have);
        }
        let node = graph.node(ni);
        if able {
            let ghost walked = self@;
            self.partial.insert(ni);
            merge(replay, &add);
            assert(self@ == (State { have: w.have, partial: s0.partial.insert(ni), ..s0 }));
            proof {
                lemma_grown_partial(walked, ni);
                lemma_grown_trans(s0, walked, self@);
            }
        } else if !node.is_base() && !self.config.allow_full_materialization {
            return Err(PlanError::FullMaterializationDisabled { node: ni });
        } else if node.purge {
            return Err(PlanError::FullBeyondFrontier { node: ni });
        }
        let ghost decided = self@;
        self.fulfil_indexes(ni, &indexes, recovery);
        proof {
            lemma_grown_trans(s0, decided, self@);
        }
        Ok(())
    }

    /// The nodes of the graph that planning looks at, in topological order.
    pub fn planned(graph: &DataflowGraph) -> (r: Vec<NodeIndex>)
        requires
            graph.wf(),
        ensures
            r@ == planned_nodes(graph@, graph@.order, 0, Seq::empty()),
            forall|k: int| 0 <= k < r@.len() ==> is_planned(graph@, #[trigger] r@[k]),
    {
        let order = graph.topological_order();
        let mut nodes: Vec<NodeIndex> = Vec::new();
        let mut j: usize = 0;
        while j < order.len()
            invariant
                j <= order.len(),
                graph.wf(),
                order@ == graph@.order,
                planned_nodes(graph@, order@, 0, Seq::empty()) == planned_nodes(
                    graph@,
                    order@,
                    j as int,
                    nodes@,
                ),
                forall|k: int| 0 <= k < nodes@.len() ==> is_planned(graph@, #[trigger] nodes@[k]),
            decreases order.len() - j,
        {
            let n = order[j];
            let keep = match graph.get(n) {
                None => false,
                Some(node) => !node.is_source() && !node.is_dropped(),
            };
            if keep {
                nodes.push(n);
            }
            j += 1;
        }
        nodes
    }

    /// Decides every node of which indexes for replays are asked, in reverse
    /// topological order, so that what a node asks of the nodes above it is
    /// there when their turn comes.
    pub fn analyze(
        &mut self,
        graph: &DataflowGraph,
        new: &NodeSet,
        recovery: bool,
        replay: &mut NodeMap<IndexSet>,
    ) -> (r: Result<(), PlanError>)
        requires
            old(self).wf(),
            graph.wf(),
            old(replay).table_ok(),
        ensures
            final(self).wf(),
            final(replay).table_ok(),
            grown(old(self)@, final(self)@),
            match analyze_all(old(self)@, old(replay).table(), graph@, new@, recovery) {
                Ok((s, t)) => r is Ok && final(self)@ == s && final(replay).table() == t,
                Err(e) => r == Err::<(), PlanError>(e),
            },
    {
        let nodes = Self::planned(graph);
        let ghost goal = analyze_all(self@, replay.table(), graph@, new@, recovery);
        proof {
            lemma_grown_refl(self@);
        }
        let mut k: usize = nodes.len();
        while k > 0
            invariant
                k <= nodes@.len(),
                self.wf(),
                graph.wf(),
                replay.table_ok(),
                forall|i: int| 0 <= i < nodes@.len() ==> is_planned(graph@, #[trigger] nodes@[i]),
                grown(old(self)@, self@),
                goal == analyze_down(
                    self@,
                    replay.table(),
                    graph@,
                    new@,
                    recovery,
                    nodes@,
                    k as int,
                ),
                goal == analyze_all(old(self)@, old(replay).table(), graph@, new@, recovery),
            decreases k,
        {
            let ni = nodes[k - 1];
            assert(is_planned(graph@, nodes@[k - 1]));
            let ghost prev = self@;
            let step = self.analyze_one(graph, new, recovery, replay, ni);
            proof {
                lemma_grown_trans(old(self)@, prev, self@);
            }
            match step {
                Err(e) => {
                    return Err(e);
                },
                Ok(()) => {},
            }
            k -= 1;
        }
        Ok(())
    }
}

} // verus!
