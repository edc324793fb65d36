//! The ways in which planning fails.

use crate::index::NodeIndex;
use vstd::prelude::*;

verus! {

/// Who can act on an error.
#[derive(Clone, Copy, Debug, PartialEq, Eq, Structural)]
pub enum ErrorCategory {
    /// A refusal that whoever asked for the migration can act on.
    Unsupported,
    /// A broken invariant of the planner or of the graph; fatal to the migration.
    Internal,
}

/// An edge from a partial node to a full one, which has to be rerouted.
#[derive(Clone, Copy, Debug, PartialEq, Eq, Structural)]
pub struct InvalidEdge {
    pub parent: NodeIndex,
    pub child: NodeIndex,
}

/// Why planning failed.
#[derive(Clone, Copy, Debug, PartialEq, Eq, Structural)]
pub enum PlanError {
    /// The node would have to be fully materialized, and that is switched off.
    FullMaterializationDisabled { node: NodeIndex },
    /// A query-through node on the way up has not exactly one parent.
    QueryThroughFanIn { node: NodeIndex },
    /// A column of a lookup index cannot be traced into the parent.
    UnresolvedObligation { node: NodeIndex, ancestor: NodeIndex, column: usize },
    /// Obligations to index for replays were left over when all nodes had been seen.
    PendingObligations,
    /// A node that must be full lies beyond the materialization frontier.
    FullBeyondFrontier { node: NodeIndex },
    /// A partial node overlaps an index of a partial ancestor in part only.
    OverlappingPartialIndices { parent: NodeIndex, child: NodeIndex },
    /// A node beyond the frontier lies above one that is not.
    PurgeAboveNonPurge { node: NodeIndex },
    /// The column a subgraph is sharded by has an alias at the shard merger.
    AliasedSharding { ancestor: NodeIndex, sharded: NodeIndex, alias: usize, shard: usize },
    /// A shard merger without a parent.
    ShardMergerWithoutParent { node: NodeIndex },
    /// A provenance path on which no node is materialized.
    NoMaterializedAncestor { node: NodeIndex },
    /// An old node without state is to become partial though an old child has state.
    OldNodeMadePartial { node: NodeIndex },
    /// A new node was recorded as given indexes, but none are listed.
    EmptyIndexSet { node: NodeIndex },
    /// State is to be built for a reader that holds none.
    ReaderNotMaterialized { node: NodeIndex },
    /// State is to be built without an index for a node that is no reader.
    IndexlessNonReader { node: NodeIndex },
    /// The graph has no such node.
    UnknownNode { node: NodeIndex },
    /// The graph does not say along which paths an index of the node is replayed.
    PathsUnavailable { node: NodeIndex },
    /// The graph does not say where the columns of the node come from.
    ProvenanceUnavailable { node: NodeIndex },
    /// The way up through query-through nodes does not end.
    CyclicGraph { node: NodeIndex },
    /// No tag is left for another replay path.
    TagsExhausted,
}

impl PlanError {
    /// Who can act on the error.
    pub open spec fn spec_category(self) -> ErrorCategory {
        if self is FullMaterializationDisabled {
            ErrorCategory::Unsupported
        } else {
            ErrorCategory::Internal
        }
    }

    /// Who can act on the error.
    pub fn category(&self) -> (r: ErrorCategory)
        ensures
            r == self.spec_category(),
    {
        match self {
            PlanError::FullMaterializationDisabled { .. } => ErrorCategory::Unsupported,
            _ => ErrorCategory::Internal,
        }
    }

    /// The error in words.
    pub open spec fn spec_message(self) -> Seq<char> {
        match self {
            PlanError::FullMaterializationDisabled { .. } =>
                "creation of fully materialized query is disabled"@,
            PlanError::QueryThroughFanIn { .. } =>
                "query-through ancestor has not exactly one parent"@,
            PlanError::UnresolvedObligation { .. } => "could not resolve obligation past operator"@,
            PlanError::PendingObligations => "replay obligations left after the last node"@,
            PlanError::FullBeyondFrontier { .. } =>
                "full materialization placed beyond materialization frontier"@,
            PlanError::OverlappingPartialIndices { .. } => "partially overlapping partial indices"@,
            PlanError::PurgeAboveNonPurge { .. } => "found purge node above non-purge node"@,
            PlanError::AliasedSharding { .. } => "attempting to merge sharding by aliased column"@,
            PlanError::ShardMergerWithoutParent { .. } => "shard mergers must have a parent"@,
            PlanError::NoMaterializedAncestor { .. } =>
                "every provenance path must have a materialized node"@,
            PlanError::OldNodeMadePartial { .. } =>
                "attempting to make old non-materialized node with children partial"@,
            PlanError::EmptyIndexSet { .. } => "new node recorded with an empty set of indexes"@,
            PlanError::ReaderNotMaterialized { .. } => "reader to reconstruct holds no state"@,
            PlanError::IndexlessNonReader { .. } =>
                "index_on cannot be empty for a non-reader node"@,
            PlanError::UnknownNode { .. } => "no such node in the graph"@,
            PlanError::PathsUnavailable { .. } => "replay paths of the node are not known"@,
            PlanError::ProvenanceUnavailable { .. } =>
                "column provenance of the node is not known"@,
            PlanError::CyclicGraph { .. } => "query-through ancestors form a cycle"@,
            PlanError::TagsExhausted => "no replay tag left"@,
        }
    }

    /// The error in words.
    pub fn message(&self) -> (r: &'static str)
        ensures
            r@ == self.spec_message(),
    {
        match self {
            PlanError::FullMaterializationDisabled { .. } =>
                "creation of fully materialized query is disabled",
            PlanError::QueryThroughFanIn { .. } =>
                "query-through ancestor has not exactly one parent",
            PlanError::UnresolvedObligation { .. } => "could not resolve obligation past operator",
            PlanError::PendingObligations => "replay obligations left after the last node",
            PlanError::FullBeyondFrontier { .. } =>
                "full materialization placed beyond materialization frontier",
            PlanError::OverlappingPartialIndices { .. } => "partially overlapping partial indices",
            PlanError::PurgeAboveNonPurge { .. } => "found purge node above non-purge node",
            PlanError::AliasedSharding { .. } => "attempting to merge sharding by aliased column",
            PlanError::ShardMergerWithoutParent { .. } => "shard mergers must have a parent",
            PlanError::NoMaterializedAncestor { .. } =>
                "every provenance path must have a materialized node",
            PlanError::OldNodeMadePartial { .. } =>
                "attempting to make old non-materialized node with children partial",
            PlanError::EmptyIndexSet { .. } => "new node recorded with an empty set of indexes",
            PlanError::ReaderNotMaterialized { .. } => "reader to reconstruct holds no state",
            PlanError::IndexlessNonReader { .. } =>
                "index_on cannot be empty for a non-reader node",
            PlanError::UnknownNode { .. } => "no such node in the graph",
            PlanError::PathsUnavailable { .. } => "replay paths of the node are not known",
            PlanError::ProvenanceUnavailable { .. } => "column provenance of the node is not known",
            PlanError::CyclicGraph { .. } => "query-through ancestors form a cycle",
            PlanError::TagsExhausted => "no replay tag left",
        }
    }
}

} // verus!
