//! Extending the materializations by what a set of new nodes needs.

use crate::collections::{IndexTable, NodeMap, NodeSet};
use crate::error::PlanError;
use crate::frontier::draw_frontier;
use crate::graph::{DataflowGraph, GraphView};
use crate::growth::{grown, lemma_grown_trans};
use crate::hoist::hoist_from;
use crate::index::{IndexSet, NodeIndex};
use crate::obligations::{collect_from, lookups_view, Collected, LookupObligation};
use crate::partiality::analyze_all;
use crate::plan::DomainMigrationPlan;
use crate::state::{Materializations, State};
use vstd::prelude::*;

verus! {

/// Whether the table has no entry.
pub open spec fn table_is_empty(t: IndexTable) -> bool {
    forall|n: NodeIndex| !t.contains_key(n)
}

/// The state and the graph after the materializations have been extended by
/// what the new nodes need: obligations are collected, those for lookups
/// hoisted and recorded, partiality decided from the bottom up, and the
/// frontier drawn.
pub open spec fn extend_spec(s: State, g: GraphView, new: Seq<NodeIndex>, recovery: bool) -> Result<
    (State, GraphView),
    PlanError,
> {
    let start = Collected { new_readers: s.new_readers, lookups: Seq::empty(), replay: Map::empty() };
    match collect_from(start, g, new, 0) {
        Err(e) => Err(e),
        Ok(c) => match hoist_from(
            State { new_readers: c.new_readers, ..s },
            c.replay,
            g,
            c.lookups,
            0,
        ) {
            Err(e) => Err(e),
            Ok((s2, r2)) => match analyze_all(s2, r2, g, new.to_set(), recovery) {
                Err(e) => Err(e),
                Ok((s3, r3)) => if !table_is_empty(r3) {
                    Err(PlanError::PendingObligations)
                } else {
                    match draw_frontier(s3, g, new) {
                        Err(e) => Err(e),
                        Ok(g2) => Ok((s3, g2)),
                    }
                },
            },
        },
    }
}

impl Materializations {
    /// Extends the materializations by what the new nodes need, and marks
    /// the new nodes that lie beyond the materialization frontier.
    ///
    /// On success the state and the graph are exactly what [`extend_spec`]
    /// says; on failure the error is the one it says. Either way nothing of
    /// the state is taken back, and nothing of the graph changes but the
    /// purge flags of its nodes.
    pub fn extend(&mut self, graph: &mut DataflowGraph, new: &NodeSet, dmp: &DomainMigrationPlan)
        -> (r: Result<(), PlanError>)
        requires
            old(self).wf(),
            old(graph).wf(),
            new.wf(),
        ensures
            final(self).wf(),
            final(graph).wf(),
            grown(old(self)@, final(self)@),
            old(graph)@.differs_in_purge_only(final(graph)@),
            match extend_spec(old(self)@, old(graph)@, new.order(), dmp.recovery()) {
                Ok((s, g)) => r is Ok && final(self)@ == s && final(graph)@ == g,
                Err(e) => r == Err::<(), PlanError>(e),
            },
    {
        let recovery = dmp.is_recovery();
        let mut lookups: Vec<LookupObligation> = Vec::new();
        let mut replay: NodeMap<IndexSet> = NodeMap::new();
        proof {
            assert(lookups_view(lookups@) =~= Seq::empty());
            assert(replay.table() =~= Map::empty());
            new.lemma_members();
        }
        let ghost s0 = self@;
        let collected = self.collect_obligations(graph, new, &mut lookups, &mut replay);
        match collected {
            Err(e) => {
                return Err(e);
            },
            Ok(()) => {},
        }
        let ghost s1 = self@;
        let hoisted = self.hoist_obligations(graph, &lookups, &mut replay);
        proof {
            lemma_grown_trans(s0, s1, self@);
        }
        match hoisted {
            Err(e) => {
                return Err(e);
            },
            Ok(()) => {},
        }
        let ghost s2 = self@;
        let analyzed = self.analyze(graph, new, recovery, &mut replay);
        proof {
            lemma_grown_trans(s0, s2, self@);
        }
        match analyzed {
            Err(e) => {
                return Err(e);
            },
            Ok(()) => {},
        }
        if replay.len() > 0 {
            proof {
                let k = replay.order()[0];
                assert(replay.order().to_set().contains(k));
                assert(replay.table().contains_key(k));
            }
            return Err(PlanError::PendingObligations);
        }
        proof {
            assert forall|n: NodeIndex| !replay.table().contains_key(n) by {
                if replay.table().contains_key(n) {
                    assert(replay.order().to_set().contains(n));
                }
            }
        }
        self.mark_frontier(graph, new)
    }
}

} // verus!
