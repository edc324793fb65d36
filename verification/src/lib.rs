//! Planning of materializations for a partially-materialized dataflow graph.
//!
//! The planner decides which operators of a dataflow graph keep state, which
//! indexes that state carries, which of it may be filled lazily, and which
//! messages tell the domains that own the operators to bring it up.

pub mod analyzer;
pub mod benchmark;
pub mod collections;
pub mod commit;
pub mod committing;
pub mod config;
pub mod error;
pub mod extend;
pub mod frontier;
pub mod graph;
pub mod graphviz;
pub mod growth;
pub mod hoist;
pub mod index;
pub mod laws;
pub mod node;
pub mod obligations;
pub mod ordering;
pub mod partiality;
pub mod paths;
pub mod persist;
pub mod plan;
pub mod redacted;
pub mod search;
pub mod state;
pub mod topology;
pub mod validate;
pub mod validation;
