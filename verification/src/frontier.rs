//! Marking the new nodes whose state lies beyond the materialization frontier.

use crate::collections::NodeSet;
use crate::config::FrontierStrategy;
use crate::error::PlanError;
use crate::graph::{DataflowGraph, GraphView};
use crate::index::NodeIndex;
use crate::node::Node;
use crate::state::{Materializations, State};
use vstd::prelude::*;

verus! {

/// The prefix of the name of a node that is placed beyond the frontier whatever the strategy.
pub open spec fn shallow_prefix() -> Seq<char> {
    "SHALLOW_"@
}

/// Whether the node keeps state: it is materialized or it is a reader.
pub open spec fn holds_state(s: State, n: Node, ni: NodeIndex) -> bool {
    s.have.contains_key(ni) || n.spec_is_reader()
}

/// The purge flag that the node gets: a full materialization keeps its flag;
/// a node named as shallow is flagged; of the others only a partial node is
/// flagged, as the strategy says.
pub open spec fn label(s: State, n: Node, ni: NodeIndex) -> bool {
    if holds_state(s, n, ni) && !s.partial.contains(ni) {
        n.purge
    } else if shallow_prefix().is_prefix_of(n.name@) {
        true
    } else if !s.partial.contains(ni) {
        n.purge
    } else {
        match s.config.frontier_strategy {
            FrontierStrategy::Never => n.purge,
            FrontierStrategy::AllPartial => true,
            FrontierStrategy::Readers => n.purge || n.spec_is_reader(),
        }
    }
}

/// The graph after the new nodes from position `i` on have got their flags.
pub open spec fn label_from(s: State, g: GraphView, new: Seq<NodeIndex>, i: int) -> Result<
    GraphView,
    PlanError,
>
    decreases new.len() - i,
{
    if i < 0 || i >= new.len() {
        Ok(g)
    } else if !g.has_node(new[i]) {
        Err(PlanError::UnknownNode { node: new[i] })
    } else {
        label_from(s, g.with_purge(new[i], label(s, g.nodes[new[i] as int], new[i])), new, i + 1)
    }
}

/// The graph after the flag of a node without state has been passed to its
/// parents from position `j` on: to each that is new and materialized, which
/// must be partial.
pub open spec fn push_up_from(
    s: State,
    g: GraphView,
    new: Set<NodeIndex>,
    parents: Seq<NodeIndex>,
    j: int,
) -> Result<GraphView, PlanError>
    decreases parents.len() - j,
{
    if j < 0 || j >= parents.len() {
        Ok(g)
    } else {
        let pi = parents[j];
        if !new.contains(pi) || !s.have.contains_key(pi) {
            push_up_from(s, g, new, parents, j + 1)
        } else if !s.partial.contains(pi) {
            Err(PlanError::FullBeyondFrontier { node: pi })
        } else {
            push_up_from(s, g.with_purge(pi, true), new, parents, j + 1)
        }
    }
}

/// The graph after the flags of the new nodes from position `i` on that
/// keep no state have been passed to their parents.
pub open spec fn move_labels_from(
    s: State,
    g: GraphView,
    order: Seq<NodeIndex>,
    new: Set<NodeIndex>,
    i: int,
) -> Result<GraphView, PlanError>
    decreases order.len() - i,
{
    if i < 0 || i >= order.len() {
        Ok(g)
    } else if !g.has_node(order[i]) {
        Err(PlanError::UnknownNode { node: order[i] })
    } else {
        let ni = order[i];
        let n = g.nodes[ni as int];
        if n.purge && !holds_state(s, n, ni) {
            match push_up_from(s, g, new, g.parents(ni), 0) {
                Err(e) => Err(e),
                Ok(g2) => move_labels_from(s, g2, order, new, i + 1),
            }
        } else {
            move_labels_from(s, g, order, new, i + 1)
        }
    }
}

/// The graph after the frontier has been drawn through the new nodes.
pub open spec fn draw_frontier(s: State, g: GraphView, new: Seq<NodeIndex>) -> Result<
    GraphView,
    PlanError,
> {
    match label_from(s, g, new, 0) {
        Err(e) => Err(e),
        Ok(g1) => move_labels_from(s, g1, new, new.to_set(), 0),
    }
}

impl Materializations {
    /// The purge flag that the node gets.
    pub fn label_of(&self, node: &Node, ni: NodeIndex) -> (r: bool)
        requires
            self.wf(),
        ensures
            r == label(self@, *node, ni),
    {
        let partial = self.partial.contains(ni);
        if (self.have.contains_key(ni) || node.is_reader()) && !partial {
            return node.purge;
        }
        if node.name_starts_with("SHALLOW_") {
            return true;
        }
        if !partial {
            return node.purge;
        }
        match self.config.frontier_strategy {
            FrontierStrategy::Never => node.purge,
            FrontierStrategy::AllPartial => true,
            FrontierStrategy::Readers => node.purge || node.is_reader(),
        }
    }

    /// Marks the new nodes that lie beyond the materialization frontier, and
    /// passes the mark of a node that keeps no state to its new parents that do.
    pub fn mark_frontier(&self, graph: &mut DataflowGraph, new: &NodeSet) -> (r: Result<
        (),
        PlanError,
    >)
        requires
            self.wf(),
            old(graph).wf(),
            new.wf(),
        ensures
            final(graph).wf(),
            old(graph)@.differs_in_purge_only(final(graph)@),
            match draw_frontier(self@, old(graph)@, new.order()) {
                Ok(g) => r is Ok && final(graph)@ == g,
                Err(e) => r == Err::<(), PlanError>(e),
            },
    {
        let ghost goal = draw_frontier(self@, graph@, new.order());
        let mut i: usize = 0;
        while i < new.len()
            invariant
                i <= new.order().len(),
                self.wf(),
                graph.wf(),
                goal == draw_frontier(self@, old(graph)@, new.order()),
                old(graph)@.differs_in_purge_only(graph@),
                label_from(self@, old(graph)@, new.order(), 0) == label_from(
                    self@,
                    graph@,
                    new.order(),
                    i as int,
                ),
            decreases new.order().len() - i,
        {
            let ni = new.get(i);
            let flag = match graph.get(ni) {
                None => {
                    return Err(PlanError::UnknownNode { node: ni });
                },
                Some(node) => self.label_of(node, ni),
            };
            graph.set_purge(ni, flag);
            i += 1;
        }
        let ghost g1 = graph@;
        let mut i: usize = 0;
        while i < new.len()
            invariant
                i <= new.order().len(),
                self.wf(),
                graph.wf(),
                new.wf(),
                old(graph)@.differs_in_purge_only(graph@),
                goal == draw_frontier(self@, old(graph)@, new.order()),
                goal == move_labels_from(self@, g1, new.order(), new.order().to_set(), 0),
                goal == move_labels_from(
                    self@,
                    graph@,
                    new.order(),
                    new.order().to_set(),
                    i as int,
                ),
            decreases new.order().len() - i,
        {
            let ni = new.get(i);
            let moves = match graph.get(ni) {
                None => {
                    return Err(PlanError::UnknownNode { node: ni });
                },
                Some(node) => node.purge && !(self.have.contains_key(ni) || node.is_reader()),
            };
            if moves {
                let parents = graph.parents(ni);
                proof {
                    assert(goal == match push_up_from(
                        self@,
                        graph@,
                        new.order().to_set(),
                        parents@,
                        0,
                    ) {
                        Err(e) => Err::<GraphView, PlanError>(e),
                        Ok(g3) => move_labels_from(
                            self@,
                            g3,
                            new.order(),
                            new.order().to_set(),
                            i + 1,
                        ),
                    });
                }
                let mut j: usize = 0;
                while j < parents.len()
                    invariant
                        j <= parents.len(),
                        self.wf(),
                        graph.wf(),
                        new.wf(),
                        forall|k: int|
                            0 <= k < parents@.len() ==> graph@.has_node(#[trigger] parents@[k]),
                        i < new.order().len(),
                        old(graph)@.differs_in_purge_only(graph@),
                        goal == draw_frontier(self@, old(graph)@, new.order()),
                        goal == match push_up_from(
                            self@,
                            graph@,
                            new.order().to_set(),
                            parents@,
                            j as int,
                        ) {
                            Err(e) => Err::<GraphView, PlanError>(e),
                            Ok(g3) => move_labels_from(
                                self@,
                                g3,
                                new.order(),
                                new.order().to_set(),
                                i + 1,
                            ),
                        },
                    decreases parents.len() - j,
                {
                    let pi = parents[j];
                    assert(graph@.has_node(parents@[j as int]));
                    if new.contains(pi) && self.have.contains_key(pi) {
                        if !self.partial.contains(pi) {
                            return Err(PlanError::FullBeyondFrontier { node: pi });
                        }
                        graph.set_purge(pi, true);
                    }
                    j += 1;
                }
            }
            i += 1;
        }
        Ok(())
    }
}

} // verus!
