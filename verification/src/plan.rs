//! What the planner tells the domains: the requests of a migration, in order.

use crate::index::{LookupIndex, LookupIndexView};
use crate::node::{DomainIndex, LocalNodeIndex};
use vstd::prelude::*;

verus! {

/// Identifier of a replay path.
#[derive(Clone, Copy, Debug, PartialEq, Eq, Hash, Structural)]
pub struct Tag(pub u32);

/// How a node is materialized.
#[derive(Clone, Copy, Debug, PartialEq, Eq, Structural)]
pub enum MaterializationStatus {
    /// The node keeps no state.
    Not,
    /// The node keeps state that is filled on demand.
    Partial { beyond_materialization_frontier: bool },
    /// The node keeps all of its state.
    Full,
}

/// A request to a domain.
#[derive(Clone, Debug)]
pub enum DomainRequest {
    /// Start delivering updates to the node, which keeps the given indexes.
    Ready { node: LocalNodeIndex, purge: bool, index: Vec<LookupIndex> },
    /// Wait until the node is ready.
    IsReady { node: LocalNodeIndex },
    /// Start the replay with the given tag from the given node.
    StartReplay {
        tag: Tag,
        from: LocalNodeIndex,
        replicas: Option<Vec<usize>>,
        targeting_domain: DomainIndex,
    },
    /// Wait until the replays into the node are done.
    QueryReplayDone { node: LocalNodeIndex },
}

/// What a [`DomainRequest`] stands for in contracts.
pub ghost enum DomainRequestView {
    Ready { node: LocalNodeIndex, purge: bool, index: Seq<LookupIndexView> },
    IsReady { node: LocalNodeIndex },
    StartReplay {
        tag: Tag,
        from: LocalNodeIndex,
        replicas: Option<Seq<usize>>,
        targeting_domain: DomainIndex,
    },
    QueryReplayDone { node: LocalNodeIndex },
}

/// What a plain list of lookup indexes stands for in contracts.
pub open spec fn lookup_views(s: Seq<LookupIndex>) -> Seq<LookupIndexView> {
    Seq::new(s.len(), |k: int| s[k]@)
}

impl View for DomainRequest {
    type V = DomainRequestView;

    open spec fn view(&self) -> DomainRequestView {
        match self {
            DomainRequest::Ready { node, purge, index } => DomainRequestView::Ready {
                node: *node,
                purge: *purge,
                index: lookup_views(index@),
            },
            DomainRequest::IsReady { node } => DomainRequestView::IsReady { node: *node },
            DomainRequest::StartReplay {
                tag,
                from,
                replicas,
                targeting_domain,
            } => DomainRequestView::StartReplay {
                tag: *tag,
                from: *from,
                replicas: match replicas {
                    Some(r) => Some(r@),
                    None => None,
                },
                targeting_domain: *targeting_domain,
            },
            DomainRequest::QueryReplayDone { node } => DomainRequestView::QueryReplayDone {
                node: *node,
            },
        }
    }
}

/// A request together with the domain it goes to.
pub type Message = (DomainIndex, DomainRequestView);

/// What a plain list of addressed requests stands for in contracts.
pub open spec fn message_views(s: Seq<(DomainIndex, DomainRequest)>) -> Seq<Message> {
    Seq::new(s.len(), |k: int| (s[k].0, s[k].1@))
}

/// The requests of one migration, in the order in which they are to be
/// applied, and whether the migration rebuilds the state after a restart.
#[derive(Clone, Debug)]
pub struct DomainMigrationPlan {
    messages: Vec<(DomainIndex, DomainRequest)>,
    recovery: bool,
}

impl DomainMigrationPlan {
    /// The requests so far, each with its domain.
    pub closed spec fn messages(&self) -> Seq<Message> {
        message_views(self.messages@)
    }

    /// Whether the migration rebuilds the state after a restart.
    pub closed spec fn recovery(&self) -> bool {
        self.recovery
    }

    /// A plan without requests.
    pub fn new(recovery: bool) -> (r: DomainMigrationPlan)
        ensures
            r.messages() == Seq::<Message>::empty(),
            r.recovery() == recovery,
    {
        let r = DomainMigrationPlan { messages: Vec::new(), recovery };
        assert(r.messages() =~= Seq::<Message>::empty());
        r
    }

    /// Whether the migration rebuilds the state after a restart.
    pub fn is_recovery(&self) -> (r: bool)
        ensures
            r == self.recovery(),
    {
        self.recovery
    }

    /// Adds a request to a domain after the requests so far.
    pub fn add_message(&mut self, domain: DomainIndex, request: DomainRequest)
        ensures
            final(self).messages() == old(self).messages().push((domain, request@)),
            final(self).recovery() == old(self).recovery(),
    {
        self.messages.push((domain, request));
        assert(self.messages() =~= old(self).messages().push((domain, request@)));
    }

    /// The number of requests.
    pub fn len(&self) -> (r: usize)
        ensures
            r == self.messages().len(),
    {
        self.messages.len()
    }

    /// The request at position `i` and the domain it goes to.
    pub fn get(&self, i: usize) -> (r: &(DomainIndex, DomainRequest))
        requires
            i < self.messages().len(),
        ensures
            (r.0, r.1@) == self.messages()[i as int],
    {
        &self.messages[i]
    }
}

} // verus!
