//! Collecting the indexing obligations of new nodes.
//!
//! A reader that is keyed asks for an index above it from which it can be
//! filled: an obligation for replays. Any other node says which lookups it
//! will make, into itself or into an ancestor: obligations for lookups. A
//! base table that asks for nothing is given a placeholder, since a base
//! table is always materialized.

use crate::collections::{table_insert, IndexTable, NodeMap, NodeSet};
use crate::error::PlanError;
use crate::graph::{DataflowGraph, GraphView};
use crate::growth::{grown, lemma_grown_new_readers, lemma_grown_refl};
use crate::node::Node;
use crate::index::{
    seq_insert, Index, IndexSet, IndexType, IndexView, LookupIndex, LookupIndexView, NodeIndex,
};
use crate::plan::lookup_views;
use crate::state::{Materializations, State};
use vstd::prelude::*;

verus! {

/// The lookup obligations of one node: the node that is to be materialized
/// and the indexes asked of it.
#[derive(Clone, Debug)]
pub struct LookupObligation {
    pub target: NodeIndex,
    pub indexes: Vec<LookupIndex>,
}

/// Lookup obligations in contracts: for each target, in the order in which
/// the targets came up, the indexes asked of it.
pub type Lookups = Seq<(NodeIndex, Seq<LookupIndexView>)>;

/// What a list of lookup obligations stands for in contracts.
pub open spec fn lookups_view(v: Seq<LookupObligation>) -> Lookups {
    Seq::new(v.len(), |k: int| (v[k].target, lookup_views(v[k].indexes@)))
}

/// The first position at or after `from` whose target is `t`, or the length where there is none.
pub open spec fn target_position(l: Lookups, t: NodeIndex, from: int) -> int
    decreases l.len() - from,
{
    if from < 0 || from >= l.len() {
        l.len() as int
    } else if l[from].0 == t {
        from
    } else {
        target_position(l, t, from + 1)
    }
}

/// The obligations with index `li` asked of target `t` as well.
pub open spec fn lookups_insert(l: Lookups, t: NodeIndex, li: LookupIndexView) -> Lookups {
    let p = target_position(l, t, 0);
    if p < l.len() {
        l.update(p, (t, seq_insert(l[p].1, li)))
    } else {
        l.push((t, seq![li]))
    }
}

/// The index that stands in for the state of a base table that nothing asks about.
pub open spec fn base_placeholder() -> LookupIndexView {
    LookupIndexView::Strict(IndexView { index_type: IndexType::HashMap, columns: seq![0usize] })
}

/// An obligation to index a node.
#[derive(Clone, Debug)]
pub enum IndexObligation {
    /// The node is looked into with the index, so it must keep state with
    /// that index, or a node above it that answers its lookups must.
    Lookup(LookupIndex),
    /// The node is filled by replays keyed on the index, so state above it
    /// must be indexed accordingly, however far above that state lies.
    Replay(Index),
}

/// What an [`IndexObligation`] stands for in contracts.
pub ghost enum IndexObligationView {
    Lookup(LookupIndexView),
    Replay(IndexView),
}

impl View for IndexObligation {
    type V = IndexObligationView;

    open spec fn view(&self) -> IndexObligationView {
        match self {
            IndexObligation::Lookup(li) => IndexObligationView::Lookup(li@),
            IndexObligation::Replay(ix) => IndexObligationView::Replay(ix@),
        }
    }
}

/// What a list of obligations, each with the node it is an obligation of,
/// stands for in contracts.
pub open spec fn obligation_views(v: Seq<(NodeIndex, IndexObligation)>) -> Seq<
    (NodeIndex, IndexObligationView),
> {
    Seq::new(v.len(), |k: int| (v[k].0, v[k].1@))
}

/// The obligations that node `n`, which has index `ni`, gives rise to.
///
/// A reader asks for replays on the index it is keyed on, and for nothing
/// if it is not keyed. Any other node asks for the lookups it suggests; a
/// base table that suggests none asks for the placeholder.
pub open spec fn node_obligations(n: Node, ni: NodeIndex) -> Seq<(NodeIndex, IndexObligationView)> {
    if n.spec_is_reader() {
        match n.spec_reader_index() {
            Some(index) => seq![(ni, IndexObligationView::Replay(index@))],
            None => Seq::empty(),
        }
    } else if n.suggested_indexes@.len() == 0 && n.kind is Base {
        seq![(ni, IndexObligationView::Lookup(base_placeholder()))]
    } else {
        Seq::new(
            n.suggested_indexes@.len(),
            |k: int| (
                n.suggested_indexes@[k].0,
                IndexObligationView::Lookup(n.suggested_indexes@[k].1@),
            ),
        )
    }
}

/// What has been collected: the readers seen, and the obligations of both kinds.
pub ghost struct Collected {
    pub new_readers: Set<NodeIndex>,
    pub lookups: Lookups,
    pub replay: IndexTable,
}

/// What has been collected after one more obligation of node `target`.
pub open spec fn record_obligation(c: Collected, target: NodeIndex, ob: IndexObligationView)
    -> Collected {
    match ob {
        IndexObligationView::Lookup(li) => Collected {
            lookups: lookups_insert(c.lookups, target, li),
            ..c
        },
        IndexObligationView::Replay(ix) => Collected {
            replay: table_insert(c.replay, target, ix),
            ..c
        },
    }
}

/// What has been collected after the obligations from position `j` on.
pub open spec fn record_from(c: Collected, obs: Seq<(NodeIndex, IndexObligationView)>, j: int)
    -> Collected
    decreases obs.len() - j,
{
    if j < 0 || j >= obs.len() {
        c
    } else {
        record_from(record_obligation(c, obs[j].0, obs[j].1), obs, j + 1)
    }
}

/// What is collected from one new node: its obligations, and the node
/// itself as a new reader if it is a reader that is keyed.
pub open spec fn collect_node(c: Collected, g: GraphView, ni: NodeIndex) -> Result<
    Collected,
    PlanError,
> {
    if !g.has_node(ni) {
        Err(PlanError::UnknownNode { node: ni })
    } else {
        let n = g.nodes[ni as int];
        let new_readers = if n.spec_reader_index() is Some {
            c.new_readers.insert(ni)
        } else {
            c.new_readers
        };
        Ok(record_from(Collected { new_readers, ..c }, node_obligations(n, ni), 0))
    }
}

/// What is collected from the new nodes from position `i` on.
pub open spec fn collect_from(c: Collected, g: GraphView, new: Seq<NodeIndex>, i: int) -> Result<
    Collected,
    PlanError,
>
    decreases new.len() - i,
{
    if i < 0 || i >= new.len() {
        Ok(c)
    } else {
        match collect_node(c, g, new[i]) {
            Err(e) => Err(e),
            Ok(c2) => collect_from(c2, g, new, i + 1),
        }
    }
}

/// Adds `li` at the end of the list unless the list holds it.
pub fn lookup_list_insert(list: &mut Vec<LookupIndex>, li: LookupIndex)
    ensures
        lookup_views(final(list)@) == seq_insert(lookup_views(old(list)@), li@),
{
    let mut k: usize = 0;
    while k < list.len()
        invariant
            k <= list.len(),
            *list == *old(list),
            forall|j: int| 0 <= j < k ==> lookup_views(list@)[j] != li@,
        decreases list.len() - k,
    {
        if list[k].same(&li) {
            assert(lookup_views(list@)[k as int] == li@);
            return ;
        }
        k += 1;
    }
    let ghost before = list@;
    list.push(li);
    assert(lookup_views(list@) =~= lookup_views(before).push(li@));
}

/// Asks index `li` of target `t` as well.
pub fn lookup_obligations_insert(lookups: &mut Vec<LookupObligation>, t: NodeIndex, li: LookupIndex)
    ensures
        lookups_view(final(lookups)@) == lookups_insert(lookups_view(old(lookups)@), t, li@),
{
    let ghost l = lookups_view(lookups@);
    let mut p: usize = 0;
    while p < lookups.len() && lookups[p].target != t
        invariant
            p <= lookups.len(),
            *lookups == *old(lookups),
            l == lookups_view(lookups@),
            target_position(l, t, 0) == target_position(l, t, p as int),
        decreases lookups.len() - p,
    {
        assert(l[p as int].0 == lookups@[p as int].target);
        p += 1;
    }
    if p < lookups.len() {
        let ghost before = lookups@;
        assert(l[p as int].0 == t);
        assert(target_position(l, t, 0) == p);
        let entry = &mut lookups[p];
        lookup_list_insert(&mut entry.indexes, li);
        proof {
            assert(lookups@.len() == before.len());
            assert(lookups@[p as int].target == t);
            assert forall|k: int| 0 <= k < lookups@.len() implies lookups_view(lookups@)[k]
                == l.update(p as int, (t, seq_insert(l[p as int].1, li@)))[k] by {
                if k != p {
                    assert(lookups@[k] == before[k]);
                }
            }
        }
        assert(lookups_view(lookups@) =~= l.update(p as int, (t, seq_insert(l[p as int].1, li@))));
    } else {
        assert(target_position(l, t, 0) == l.len());
        let ghost liv = li@;
        let mut indexes: Vec<LookupIndex> = Vec::new();
        indexes.push(li);
        assert(lookup_views(indexes@) =~= seq![liv]);
        lookups.push(LookupObligation { target: t, indexes });
        assert(lookups_view(lookups@) =~= l.push((t, seq![liv])));
    }
}

impl Node {
    /// The obligations that the node, which has index `ni`, gives rise to.
    pub fn obligations(&self, ni: NodeIndex) -> (r: Vec<(NodeIndex, IndexObligation)>)
        ensures
            obligation_views(r@) == node_obligations(*self, ni),
    {
        let mut out: Vec<(NodeIndex, IndexObligation)> = Vec::new();
        if self.is_reader() {
            match self.reader_index() {
                Some(index) => {
                    out.push((ni, IndexObligation::Replay(index.duplicate())));
                },
                None => {},
            }
            assert(obligation_views(out@) =~= node_obligations(*self, ni));
        } else if self.suggested_indexes.len() == 0 && self.is_base() {
            let mut columns: Vec<usize> = Vec::new();
            columns.push(0);
            assert(columns@ =~= seq![0usize]);
            out.push((ni, IndexObligation::Lookup(LookupIndex::Strict(Index::hash_map(columns)))));
            assert(obligation_views(out@) =~= node_obligations(*self, ni));
        } else {
            let mut j: usize = 0;
            while j < self.suggested_indexes.len()
                invariant
                    j <= self.suggested_indexes.len(),
                    out@.len() == j,
                    forall|k: int|
                        0 <= k < j ==> (#[trigger] out@[k]).0 == self.suggested_indexes@[k].0
                            && out@[k].1@ == IndexObligationView::Lookup(
                            self.suggested_indexes@[k].1@,
                        ),
                decreases self.suggested_indexes.len() - j,
            {
                let ghost before = out@;
                let target = self.suggested_indexes[j].0;
                let li = self.suggested_indexes[j].1.duplicate();
                out.push((target, IndexObligation::Lookup(li)));
                assert forall|k: int| 0 <= k < j + 1 implies (#[trigger] out@[k]).0
                    == self.suggested_indexes@[k].0 && out@[k].1@ == IndexObligationView::Lookup(
                    self.suggested_indexes@[k].1@,
                ) by {
                    if k < j {
                        assert(out@[k] == before[k]);
                    }
                }
                j += 1;
            }
            assert(obligation_views(out@) =~= node_obligations(*self, ni));
        }
        out
    }
}

impl Materializations {
    /// Collects the obligations of the new nodes: the lookups that each
    /// suggests, the placeholder for a base table that suggests none, and for
    /// each keyed reader, which is also recorded as new, an index for replays.
    pub fn collect_obligations(
        &mut self,
        graph: &DataflowGraph,
        new: &NodeSet,
        lookups: &mut Vec<LookupObligation>,
        replay: &mut NodeMap<IndexSet>,
    ) -> (r: Result<(), PlanError>)
        requires
            old(self).wf(),
            graph.wf(),
            old(replay).table_ok(),
        ensures
            final(self).wf(),
            final(replay).table_ok(),
            grown(old(self)@, final(self)@),
            match collect_from(
                Collected {
                    new_readers: old(self)@.new_readers,
                    lookups: lookups_view(old(lookups)@),
                    replay: old(replay).table(),
                },
                graph@,
                new.order(),
                0,
            ) {
                Ok(c) => r is Ok && final(self)@ == (State {
                    new_readers: c.new_readers,
                    ..old(self)@
                }) && lookups_view(final(lookups)@) == c.lookups && final(replay).table()
                    == c.replay,
                Err(e) => r == Err::<(), PlanError>(e),
            },
    {
        let ghost start = Collected {
            new_readers: self@.new_readers,
            lookups: lookups_view(lookups@),
            replay: replay.table(),
        };
        proof {
            lemma_grown_refl(self@);
        }
        let mut i: usize = 0;
        while i < new.len()
            invariant
                i <= new.order().len(),
                self.wf(),
                graph.wf(),
                replay.table_ok(),
                self@ == (State { new_readers: self@.new_readers, ..old(self)@ }),
                old(self)@.new_readers.subset_of(self@.new_readers),
                grown(old(self)@, self@),
                start == (Collected {
                    new_readers: old(self)@.new_readers,
                    lookups: lookups_view(old(lookups)@),
                    replay: old(replay).table(),
                }),
                collect_from(start, graph@, new.order(), 0) == collect_from(
                    Collected {
                        new_readers: self@.new_readers,
                        lookups: lookups_view(lookups@),
                        replay: replay.table(),
                    },
                    graph@,
                    new.order(),
                    i as int,
                ),
            decreases new.order().len() - i,
        {
            let ni = new.get(i);
            let ghost cur = Collected {
                new_readers: self@.new_readers,
                lookups: lookups_view(lookups@),
                replay: replay.table(),
            };
            let n = match graph.get(ni) {
                None => {
                    assert(collect_from(cur, graph@, new.order(), i as int) == Err::<
                        Collected,
                        PlanError,
                    >(PlanError::UnknownNode { node: ni }));
                    return Err(PlanError::UnknownNode { node: ni });
                },
                Some(n) => n,
            };
            if n.is_materialized_reader() {
                let ghost prev = self@;
                self.new_readers.insert(ni);
                assert(self@ == (State { new_readers: prev.new_readers.insert(ni), ..prev }));
                proof {
                    lemma_grown_new_readers(old(self)@, self@.new_readers);
                }
            }
            let obligations = n.obligations(ni);
            let ghost obs = node_obligations(*n, ni);
            let ghost seen = Collected { new_readers: self@.new_readers, ..cur };
            let mut j: usize = 0;
            while j < obligations.len()
                invariant
                    j <= obligations.len(),
                    replay.table_ok(),
                    obs == obligation_views(obligations@),
                    record_from(seen, obs, 0) == record_from(
                        Collected {
                            new_readers: seen.new_readers,
                            lookups: lookups_view(lookups@),
                            replay: replay.table(),
                        },
                        obs,
                        j as int,
                    ),
                decreases obligations.len() - j,
            {
                let target = obligations[j].0;
                assert(obs[j as int] == (obligations@[j as int].0, obligations@[j as int].1@));
                match &obligations[j].1 {
                    IndexObligation::Replay(index) => {
                        replay.insert_index(target, index.duplicate());
                    },
                    IndexObligation::Lookup(li) => {
                        lookup_obligations_insert(lookups, target, li.duplicate());
                    },
                }
                j += 1;
            }
            proof {
                let next = Collected {
                    new_readers: self@.new_readers,
                    lookups: lookups_view(lookups@),
                    replay: replay.table(),
                };
                assert(collect_node(cur, graph@, ni) == Ok::<Collected, PlanError>(next));
            }
            i += 1;
        }
        Ok(())
    }
}

} // verus!
