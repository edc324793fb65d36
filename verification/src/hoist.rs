//! Hoisting lookup obligations to the nodes that will hold the state.
//!
//! A lookup into a node that keeps no state, and to which lookups can be
//! answered by its parent, is passed on to that parent, with the columns of
//! each index rewritten to the parent's. Where the way up ends, the indexes
//! are recorded as added, and an index for replays is asked of the same node.

use crate::collections::{table_insert, IndexTable, NodeMap};
use crate::error::PlanError;
use crate::graph::{DataflowGraph, GraphView};
use crate::growth::{grown, lemma_deposit_from, lemma_grown_refl, lemma_grown_trans};
use crate::index::{seq_insert, Index, IndexSet, IndexView, LookupIndex, LookupIndexView, NodeIndex};
use crate::node::Node;
use crate::obligations::{lookup_list_insert, lookups_view, LookupObligation, Lookups};
use crate::plan::lookup_views;
use crate::state::{Materializations, State};
use vstd::prelude::*;

verus! {

/// The column that the first source from `parent`, at or after position `j`, names.
pub open spec fn source_in(
    sources: Seq<(NodeIndex, Option<usize>)>,
    parent: NodeIndex,
    j: int,
) -> Option<usize>
    decreases sources.len() - j,
{
    if j < 0 || j >= sources.len() {
        None
    } else if sources[j].0 == parent {
        sources[j].1
    } else {
        source_in(sources, parent, j + 1)
    }
}

/// The column of `parent` that column `col` of the node comes from, if it comes from one.
pub open spec fn remap_column(node: Node, parent: NodeIndex, col: usize) -> Option<usize> {
    if col < node.parent_columns@.len() {
        source_in(node.parent_columns@[col as int]@, parent, 0)
    } else {
        None
    }
}

/// The columns from position `j` on, each rewritten to the parent's, after `acc`.
pub open spec fn remap_columns(
    node: Node,
    nid: NodeIndex,
    parent: NodeIndex,
    columns: Seq<usize>,
    j: int,
    acc: Seq<usize>,
) -> Result<Seq<usize>, PlanError>
    decreases columns.len() - j,
{
    if j < 0 || j >= columns.len() {
        Ok(acc)
    } else {
        match remap_column(node, parent, columns[j]) {
            None => Err(
                PlanError::UnresolvedObligation { node: nid, ancestor: parent, column: columns[j] },
            ),
            Some(c) => remap_columns(node, nid, parent, columns, j + 1, acc.push(c)),
        }
    }
}

/// The lookup index with its columns rewritten to the parent's and its strictness kept.
pub open spec fn remap_index(
    node: Node,
    nid: NodeIndex,
    parent: NodeIndex,
    li: LookupIndexView,
) -> Result<LookupIndexView, PlanError> {
    match remap_columns(node, nid, parent, li.index().columns, 0, Seq::empty()) {
        Err(e) => Err(e),
        Ok(columns) => Ok(
            li.with_index(IndexView { index_type: li.index().index_type, columns }),
        ),
    }
}

/// The lookup indexes from position `j` on, each rewritten, added to `acc` without duplicates.
pub open spec fn remap_all(
    node: Node,
    nid: NodeIndex,
    parent: NodeIndex,
    lis: Seq<LookupIndexView>,
    j: int,
    acc: Seq<LookupIndexView>,
) -> Result<Seq<LookupIndexView>, PlanError>
    decreases lis.len() - j,
{
    if j < 0 || j >= lis.len() {
        Ok(acc)
    } else {
        match remap_index(node, nid, parent, lis[j]) {
            Err(e) => Err(e),
            Ok(li) => remap_all(node, nid, parent, lis, j + 1, seq_insert(acc, li)),
        }
    }
}

/// Whether lookups into node `mi` are passed on to its parent.
pub open spec fn passes_lookups(have: IndexTable, g: GraphView, mi: NodeIndex) -> bool {
    &&& !have.contains_key(mi)
    &&& g.nodes[mi as int].kind is Internal
    &&& g.nodes[mi as int].spec_can_query_through()
}

/// Where lookups into `mi` end up, and as which indexes, within `fuel` steps up.
pub open spec fn hoist_walk(
    have: IndexTable,
    g: GraphView,
    mi: NodeIndex,
    lis: Seq<LookupIndexView>,
    fuel: nat,
) -> Result<(NodeIndex, Seq<LookupIndexView>), PlanError>
    decreases fuel,
{
    if !g.has_node(mi) {
        Err(PlanError::UnknownNode { node: mi })
    } else if !passes_lookups(have, g, mi) {
        Ok((mi, lis))
    } else if g.parents(mi).len() != 1 {
        Err(PlanError::QueryThroughFanIn { node: mi })
    } else if fuel == 0 {
        Err(PlanError::CyclicGraph { node: mi })
    } else {
        let parent = g.parents(mi)[0];
        match remap_all(g.nodes[mi as int], mi, parent, lis, 0, Seq::empty()) {
            Err(e) => Err(e),
            Ok(hoisted) => hoist_walk(have, g, parent, hoisted, (fuel - 1) as nat),
        }
    }
}

/// The state and the replay obligations after one lookup index has been
/// recorded at `mi`: a weak index is recorded as weak; the index is added
/// and had; and an index for replays is asked of `mi`.
pub open spec fn deposit_one(s: State, replay: IndexTable, mi: NodeIndex, li: LookupIndexView) -> (
    State,
    IndexTable,
) {
    let ix = li.index();
    let added_weak = if li.is_weak() {
        table_insert(s.added_weak, mi, ix)
    } else {
        s.added_weak
    };
    (
        State {
            added_weak,
            added: table_insert(s.added, mi, ix),
            have: table_insert(s.have, mi, ix),
            ..s
        },
        table_insert(replay, mi, ix),
    )
}

/// The state and the replay obligations after the lookup indexes from position
/// `j` on have been recorded at `mi`.
pub open spec fn deposit_from(
    s: State,
    replay: IndexTable,
    mi: NodeIndex,
    lis: Seq<LookupIndexView>,
    j: int,
) -> (State, IndexTable)
    decreases lis.len() - j,
{
    if j < 0 || j >= lis.len() {
        (s, replay)
    } else {
        let (s2, r2) = deposit_one(s, replay, mi, lis[j]);
        deposit_from(s2, r2, mi, lis, j + 1)
    }
}

/// The state and the replay obligations after the lookup obligations from
/// position `i` on have been hoisted and recorded.
pub open spec fn hoist_from(s: State, replay: IndexTable, g: GraphView, lookups: Lookups, i: int)
    -> Result<(State, IndexTable), PlanError>
    decreases lookups.len() - i,
{
    if i < 0 || i >= lookups.len() {
        Ok((s, replay))
    } else {
        match hoist_walk(s.have, g, lookups[i].0, lookups[i].1, g.nodes.len()) {
            Err(e) => Err(e),
            Ok((mi, lis)) => {
                let (s2, r2) = deposit_from(s, replay, mi, lis, 0);
                hoist_from(s2, r2, g, lookups, i + 1)
            },
        }
    }
}

/// The column of `parent` that the first source from `parent` names.
pub fn find_source(sources: &Vec<(NodeIndex, Option<usize>)>, parent: NodeIndex) -> (r: Option<
    usize,
>)
    ensures
        r == source_in(sources@, parent, 0),
{
    let mut j: usize = 0;
    while j < sources.len()
        invariant
            j <= sources.len(),
            source_in(sources@, parent, 0) == source_in(sources@, parent, j as int),
        decreases sources.len() - j,
    {
        if sources[j].0 == parent {
            return sources[j].1;
        }
        j += 1;
    }
    None
}

/// The lookup index with its columns rewritten to those of `parent`.
pub fn remap_lookup_index(node: &Node, nid: NodeIndex, parent: NodeIndex, li: &LookupIndex) -> (r:
    Result<LookupIndex, PlanError>)
    ensures
        match remap_index(*node, nid, parent, li@) {
            Ok(v) => r is Ok && r->Ok_0@ == v,
            Err(e) => r == Err::<LookupIndex, PlanError>(e),
        },
{
    let index = li.index();
    let mut columns: Vec<usize> = Vec::new();
    let mut j: usize = 0;
    while j < index.columns.len()
        invariant
            j <= index.columns.len(),
            index@ == li@.index(),
            remap_columns(*node, nid, parent, index.columns@, 0, Seq::empty()) == remap_columns(
                *node,
                nid,
                parent,
                index.columns@,
                j as int,
                columns@,
            ),
        decreases index.columns.len() - j,
    {
        let col = index.columns[j];
        let really = if col < node.parent_columns.len() {
            find_source(&node.parent_columns[col], parent)
        } else {
            None
        };
        match really {
            None => {
                assert(remap_column(*node, parent, col) is None);
                assert(remap_columns(*node, nid, parent, index.columns@, j as int, columns@)
                    == Err::<Seq<usize>, PlanError>(
                    PlanError::UnresolvedObligation { node: nid, ancestor: parent, column: col },
                ));
                return Err(
                    PlanError::UnresolvedObligation { node: nid, ancestor: parent, column: col },
                );
            },
            Some(c) => {
                assert(remap_column(*node, parent, col) == Some(c));
                columns.push(c);
            },
        }
        j += 1;
    }
    let hoisted = Index::new(index.index_type, columns);
    Ok(
        match li {
            LookupIndex::Strict(_) => LookupIndex::Strict(hoisted),
            LookupIndex::Weak(_) => LookupIndex::Weak(hoisted),
        },
    )
}

/// The lookup indexes, each rewritten to the columns of `parent`, without duplicates.
pub fn remap_lookup_indices(
    node: &Node,
    nid: NodeIndex,
    parent: NodeIndex,
    lis: &Vec<LookupIndex>,
) -> (r: Result<Vec<LookupIndex>, PlanError>)
    ensures
        match remap_all(*node, nid, parent, lookup_views(lis@), 0, Seq::empty()) {
            Ok(v) => r is Ok && lookup_views(r->Ok_0@) == v,
            Err(e) => r == Err::<Vec<LookupIndex>, PlanError>(e),
        },
{
    let mut out: Vec<LookupIndex> = Vec::new();
    let ghost views = lookup_views(lis@);
    assert(lookup_views(out@) =~= Seq::empty());
    let mut j: usize = 0;
    while j < lis.len()
        invariant
            j <= lis.len(),
            views == lookup_views(lis@),
            remap_all(*node, nid, parent, views, 0, Seq::empty()) == remap_all(
                *node,
                nid,
                parent,
                views,
                j as int,
                lookup_views(out@),
            ),
        decreases lis.len() - j,
    {
        assert(views[j as int] == lis@[j as int]@);
        match remap_lookup_index(node, nid, parent, &lis[j]) {
            Err(e) => {
                return Err(e);
            },
            Ok(li) => {
                lookup_list_insert(&mut out, li);
            },
        }
        j += 1;
    }
    Ok(out)
}

/// A copy of the list of lookup indexes.
pub fn copy_lookups(lis: &Vec<LookupIndex>) -> (r: Vec<LookupIndex>)
    ensures
        lookup_views(r@) == lookup_views(lis@),
{
    let mut out: Vec<LookupIndex> = Vec::new();
    let mut j: usize = 0;
    while j < lis.len()
        invariant
            j <= lis.len(),
            out@.len() == j,
            lookup_views(out@) == lookup_views(lis@).take(j as int),
        decreases lis.len() - j,
    {
        let ghost before = out@;
        out.push(lis[j].duplicate());
        proof {
            assert forall|k: int| 0 <= k < j + 1 implies lookup_views(out@)[k] == lookup_views(
                lis@,
            )[k] by {
                if k < j {
                    assert(lookup_views(before)[k] == lookup_views(lis@).take(j as int)[k]);
                    assert(out@[k] == before[k]);
                }
            }
            assert(lookup_views(out@) =~= lookup_views(lis@).take(j + 1));
        }
        j += 1;
    }
    assert(lookup_views(lis@).take(lis.len() as int) =~= lookup_views(lis@));
    out
}

impl Materializations {
    /// Finds the node at which lookups into `target` are answered: the
    /// nearest node at or above it that is materialized already or that does
    /// not pass lookups on, with the indexes rewritten at each step up.
    pub fn hoist_target(&self, graph: &DataflowGraph, target: NodeIndex, indexes: &Vec<LookupIndex>)
        -> (r: Result<(NodeIndex, Vec<LookupIndex>), PlanError>)
        requires
            self.wf(),
            graph.wf(),
        ensures
            match hoist_walk(
                self@.have,
                graph@,
                target,
                lookup_views(indexes@),
                graph@.nodes.len(),
            ) {
                Ok((mi, lis)) => r is Ok && r->Ok_0.0 == mi && lookup_views(r->Ok_0.1@) == lis,
                Err(e) => r == Err::<(NodeIndex, Vec<LookupIndex>), PlanError>(e),
            },
    {
        let mut mi = target;
        let mut lis = copy_lookups(indexes);
        let mut fuel: usize = graph.node_count();
        let ghost goal = hoist_walk(
            self@.have,
            graph@,
            target,
            lookup_views(indexes@),
            graph@.nodes.len(),
        );
        loop
            invariant
                self.wf(),
                graph.wf(),
                goal == hoist_walk(self@.have, graph@, mi, lookup_views(lis@), fuel as nat),
                goal == hoist_walk(
                    self@.have,
                    graph@,
                    target,
                    lookup_views(indexes@),
                    graph@.nodes.len(),
                ),
            decreases fuel,
        {
            let node = match graph.get(mi) {
                None => {
                    return Err(PlanError::UnknownNode { node: mi });
                },
                Some(node) => node,
            };
            if self.have.contains_key(mi) || !node.is_internal() || !node.can_query_through() {
                return Ok((mi, lis));
            }
            let parents = graph.parents(mi);
            if parents.len() != 1 {
                return Err(PlanError::QueryThroughFanIn { node: mi });
            }
            if fuel == 0 {
                return Err(PlanError::CyclicGraph { node: mi });
            }
            let parent = parents[0];
            match remap_lookup_indices(node, mi, parent, &lis) {
                Err(e) => {
                    return Err(e);
                },
                Ok(hoisted) => {
                    mi = parent;
                    lis = hoisted;
                    fuel = fuel - 1;
                },
            }
        }
    }

    /// Records the lookup indexes at `mi`: each weak one as weak, and each
    /// one as added and had, with an index for replays asked of `mi` as well.
    pub fn deposit(&mut self, replay: &mut NodeMap<IndexSet>, mi: NodeIndex, lis: &Vec<LookupIndex>)
        requires
            old(self).wf(),
            old(replay).table_ok(),
        ensures
            final(self).wf(),
            final(replay).table_ok(),
            (final(self)@, final(replay).table()) == deposit_from(
                old(self)@,
                old(replay).table(),
                mi,
                lookup_views(lis@),
                0,
            ),
            grown(old(self)@, final(self)@),
    {
        proof {
            lemma_deposit_from(self@, replay.table(), mi, lookup_views(lis@), 0);
        }
        let ghost views = lookup_views(lis@);
        let ghost goal = deposit_from(self@, replay.table(), mi, views, 0);
        let mut j: usize = 0;
        while j < lis.len()
            invariant
                j <= lis.len(),
                self.wf(),
                replay.table_ok(),
                views == lookup_views(lis@),
                goal == deposit_from(old(self)@, old(replay).table(), mi, views, 0),
                goal == deposit_from(self@, replay.table(), mi, views, j as int),
            decreases lis.len() - j,
        {
            let li = &lis[j];
            assert(views[j as int] == li@);
            let ghost s0 = self@;
            let ghost r0 = replay.table();
            let ghost ix = li@.index();
            if li.is_weak() {
                self.added_weak.insert_index(mi, li.index().duplicate());
            }
            let ghost s1 = self@;
            assert(s1 == (State {
                added_weak: if li@.is_weak() {
                    table_insert(s0.added_weak, mi, ix)
                } else {
                    s0.added_weak
                },
                ..s0
            }));
            self.added.insert_index(mi, li.index().duplicate());
            let ghost s2 = self@;
            assert(s2 == (State { added: table_insert(s0.added, mi, ix), ..s1 }));
            self.have.insert_index(mi, li.index().duplicate());
            replay.insert_index(mi, li.index().duplicate());
            assert(self@ == (State { have: table_insert(s0.have, mi, ix), ..s2 }));
            assert((self@, replay.table()) == deposit_one(s0, r0, mi, li@));
            j += 1;
        }
    }

    /// Hoists each lookup obligation to the node that will answer it and records it there.
    pub fn hoist_obligations(
        &mut self,
        graph: &DataflowGraph,
        lookups: &Vec<LookupObligation>,
        replay: &mut NodeMap<IndexSet>,
    ) -> (r: Result<(), PlanError>)
        requires
            old(self).wf(),
            graph.wf(),
            old(replay).table_ok(),
        ensures
            final(self).wf(),
            final(replay).table_ok(),
            grown(old(self)@, final(self)@),
            match hoist_from(old(self)@, old(replay).table(), graph@, lookups_view(lookups@), 0) {
                Ok((s, t)) => r is Ok && final(self)@ == s && final(replay).table() == t,
                Err(e) => r == Err::<(), PlanError>(e),
            },
    {
        let ghost l = lookups_view(lookups@);
        let ghost goal = hoist_from(self@, replay.table(), graph@, l, 0);
        proof {
            lemma_grown_refl(self@);
        }
        let mut i: usize = 0;
        while i < lookups.len()
            invariant
                i <= lookups.len(),
                self.wf(),
                graph.wf(),
                replay.table_ok(),
                l == lookups_view(lookups@),
                grown(old(self)@, self@),
                goal == hoist_from(old(self)@, old(replay).table(), graph@, l, 0),
                goal == hoist_from(self@, replay.table(), graph@, l, i as int),
            decreases lookups.len() - i,
        {
            assert(l[i as int] == (lookups@[i as int].target, lookup_views(
                lookups@[i as int].indexes@,
            )));
            match self.hoist_target(graph, lookups[i].target, &lookups[i].indexes) {
                Err(e) => {
                    return Err(e);
                },
                Ok((mi, lis)) => {
                    let ghost prev = self@;
                    self.deposit(replay, mi, &lis);
                    proof {
                        lemma_grown_trans(old(self)@, prev, self@);
                    }
                },
            }
            i += 1;
        }
        Ok(())
    }
}

} // verus!
