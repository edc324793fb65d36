//! What the planner reads of one operator of the dataflow graph.

use crate::index::{Index, LookupIndex, NodeIndex};
use vstd::prelude::*;
use vstd::string::StrSliceExecFns;

verus! {

/// Identity of a domain, the unit that owns and schedules a set of nodes.
pub type DomainIndex = usize;

/// Identity of a node within its domain.
pub type LocalNodeIndex = u32;

/// How the rows of a node are spread over shards.
#[derive(Clone, Copy, Debug, PartialEq, Eq, Structural)]
pub enum Sharding {
    /// Not sharded.
    Unsharded,
    /// Not sharded, and never to be.
    ForcedUnsharded,
    /// Spread without regard to content, over the given number of shards.
    Random(usize),
    /// Spread by the value of a column, over the given number of shards.
    ByColumn(usize, usize),
}

/// The kind of an operator, with the capabilities the planner asks about.
#[derive(Clone, Debug)]
pub enum NodeKind {
    /// The root above all base tables.
    Source,
    /// A node that has been removed.
    Dropped,
    /// A base table.
    Base,
    /// Entry of a domain.
    Ingress,
    /// Exit of a domain.
    Egress,
    /// Splits its input over shards.
    Sharder,
    /// An operator inside a domain.
    Internal {
        /// Lookups into this operator can be answered by its parent.
        can_query_through: bool,
        /// The operator cannot work on partial state.
        requires_full_materialization: bool,
        /// The operator merges the shards of a sharded subgraph.
        shard_merger: bool,
    },
    /// A view that clients read; with an index it holds state, without it only streams.
    Reader { index: Option<Index> },
}

/// One operator of the dataflow graph.
#[derive(Clone, Debug)]
pub struct Node {
    pub name: String,
    pub kind: NodeKind,
    pub domain: DomainIndex,
    pub local_addr: LocalNodeIndex,
    pub sharded_by: Sharding,
    /// Whether the node's state lies beyond the materialization frontier.
    pub purge: bool,
    /// For each column of the node, the ancestors' columns it comes from:
    /// pairs of ancestor and column, the column absent where the node computes it.
    pub parent_columns: Vec<Vec<(NodeIndex, Option<usize>)>>,
    /// The lookups that the operator will make: pairs of the node looked into and the index.
    pub suggested_indexes: Vec<(NodeIndex, LookupIndex)>,
    /// The text that describes the operator in diagrams.
    pub description: String,
}

/// Whether `s` begins with `prefix`.
pub fn starts_with(s: &str, prefix: &str) -> (r: bool)
    ensures
        r == prefix@.is_prefix_of(s@),
{
    let n = prefix.unicode_len();
    if s.unicode_len() < n {
        return false;
    }
    let mut i: usize = 0;
    while i < n
        invariant
            i <= n,
            n == prefix@.len(),
            n <= s@.len(),
            forall|k: int| 0 <= k < i ==> s@[k] == prefix@[k],
        decreases n - i,
    {
        if s.get_char(i) != prefix.get_char(i) {
            assert(s@.subrange(0, n as int)[i as int] != prefix@[i as int]);
            return false;
        }
        i += 1;
    }
    assert(s@.subrange(0, n as int) =~= prefix@);
    true
}

impl Node {
    /// Whether the node is a reader.
    pub open spec fn spec_is_reader(self) -> bool {
        self.kind is Reader
    }

    /// The index of a reader that holds state.
    pub open spec fn spec_reader_index(self) -> Option<Index> {
        match self.kind {
            NodeKind::Reader { index } => index,
            _ => None,
        }
    }

    /// Whether lookups into the node can be answered by its parent.
    pub open spec fn spec_can_query_through(self) -> bool {
        match self.kind {
            NodeKind::Internal { can_query_through, .. } => can_query_through,
            _ => false,
        }
    }

    /// Whether the node cannot work on partial state.
    pub open spec fn spec_requires_full_materialization(self) -> bool {
        match self.kind {
            NodeKind::Internal { requires_full_materialization, .. } =>
                requires_full_materialization,
            _ => false,
        }
    }

    /// Whether the node merges the shards of a sharded subgraph.
    pub open spec fn spec_is_shard_merger(self) -> bool {
        match self.kind {
            NodeKind::Internal { shard_merger, .. } => shard_merger,
            _ => false,
        }
    }

    /// The same node with another purge flag.
    pub open spec fn with_purge(self, purge: bool) -> Node {
        Node { purge, ..self }
    }

    /// Whether the node is the root above all base tables.
    pub fn is_source(&self) -> (r: bool)
        ensures
            r == (self.kind is Source),
    {
        matches!(self.kind, NodeKind::Source)
    }

    /// Whether the node has been removed.
    pub fn is_dropped(&self) -> (r: bool)
        ensures
            r == (self.kind is Dropped),
    {
        matches!(self.kind, NodeKind::Dropped)
    }

    /// Whether the node is a base table.
    pub fn is_base(&self) -> (r: bool)
        ensures
            r == (self.kind is Base),
    {
        matches!(self.kind, NodeKind::Base)
    }

    /// Whether the node is an operator inside a domain.
    pub fn is_internal(&self) -> (r: bool)
        ensures
            r == (self.kind is Internal),
    {
        matches!(self.kind, NodeKind::Internal { .. })
    }

    /// Whether the node is the exit of a domain.
    pub fn is_egress(&self) -> (r: bool)
        ensures
            r == (self.kind is Egress),
    {
        matches!(self.kind, NodeKind::Egress)
    }

    /// Whether the node is a reader.
    pub fn is_reader(&self) -> (r: bool)
        ensures
            r == self.spec_is_reader(),
    {
        matches!(self.kind, NodeKind::Reader { .. })
    }

    /// Whether the node merges the shards of a sharded subgraph.
    pub fn is_shard_merger(&self) -> (r: bool)
        ensures
            r == self.spec_is_shard_merger(),
    {
        match &self.kind {
            NodeKind::Internal { shard_merger, .. } => *shard_merger,
            _ => false,
        }
    }

    /// Whether lookups into the node can be answered by its parent.
    pub fn can_query_through(&self) -> (r: bool)
        ensures
            r == self.spec_can_query_through(),
    {
        match &self.kind {
            NodeKind::Internal { can_query_through, .. } => *can_query_through,
            _ => false,
        }
    }

    /// Whether the node cannot work on partial state.
    pub fn requires_full_materialization(&self) -> (r: bool)
        ensures
            r == self.spec_requires_full_materialization(),
    {
        match &self.kind {
            NodeKind::Internal { requires_full_materialization, .. } =>
                *requires_full_materialization,
            _ => false,
        }
    }

    /// The index that a reader is keyed on, if the node is a reader and has one.
    pub fn reader_index(&self) -> (r: Option<&Index>)
        ensures
            r is Some == self.spec_reader_index() is Some,
            r matches Some(i) ==> *i == self.spec_reader_index()->0,
    {
        match &self.kind {
            NodeKind::Reader { index } => index.as_ref(),
            _ => None,
        }
    }

    /// Whether the node is a reader that holds state.
    pub fn is_materialized_reader(&self) -> (r: bool)
        ensures
            r == self.spec_reader_index() is Some,
    {
        self.reader_index().is_some()
    }

    /// Whether the node's name begins with `prefix`.
    pub fn name_starts_with(&self, prefix: &str) -> (r: bool)
        ensures
            r == prefix@.is_prefix_of(self.name@),
    {
        starts_with(self.name.as_str(), prefix)
    }
}

} // verus!
