//! What can be configured about materialization.

use vstd::prelude::*;
use vstd::string::StringExecFns;

verus! {

/// Which partial materializations are placed beyond the materialization frontier.
///
/// Whatever the strategy, a node whose name starts with `SHALLOW_` is placed
/// beyond the frontier.
#[derive(Clone, Copy, Debug, PartialEq, Eq, Structural)]
pub enum FrontierStrategy {
    /// Place no node beyond the frontier. This is the default.
    Never,
    /// Place every partial materialization beyond the frontier.
    AllPartial,
    /// Place every partial reader beyond the frontier.
    Readers,
}

impl Default for FrontierStrategy {
    fn default() -> (r: FrontierStrategy)
        ensures
            r == FrontierStrategy::Never,
    {
        FrontierStrategy::Never
    }
}

impl FrontierStrategy {
    /// The name under which the strategy is written in settings.
    pub open spec fn spec_name(self) -> Seq<char> {
        match self {
            FrontierStrategy::Never => "none"@,
            FrontierStrategy::AllPartial => "all-partial"@,
            FrontierStrategy::Readers => "readers"@,
        }
    }

    /// The name under which the strategy is written in settings.
    pub fn name(&self) -> (r: String)
        ensures
            r@ == self.spec_name(),
    {
        match self {
            FrontierStrategy::Never => String::from_str("none"),
            FrontierStrategy::AllPartial => String::from_str("all-partial"),
            FrontierStrategy::Readers => String::from_str("readers"),
        }
    }
}

/// Settings of the planner.
#[derive(Clone, Copy, Debug, PartialEq, Eq, Structural)]
pub struct Config {
    /// Whether packet filters are created for egresses above readers.
    pub packet_filters_enabled: bool,
    /// Whether a query may be planned that needs a full materialization.
    pub allow_full_materialization: bool,
    /// Whether joins whose partial keys trace to both parents are allowed.
    pub allow_straddled_joins: bool,
    /// Which partial materializations go beyond the frontier.
    pub frontier_strategy: FrontierStrategy,
    /// Whether any node may be partial at all.
    pub partial_enabled: bool,
}

impl Config {
    /// The settings in force unless others are given.
    pub open spec fn spec_default() -> Config {
        Config {
            packet_filters_enabled: false,
            allow_full_materialization: false,
            allow_straddled_joins: false,
            partial_enabled: true,
            frontier_strategy: FrontierStrategy::Never,
        }
    }
}

impl Default for Config {
    fn default() -> (r: Config)
        ensures
            r == Config::spec_default(),
    {
        Config {
            packet_filters_enabled: false,
            allow_full_materialization: false,
            allow_straddled_joins: false,
            partial_enabled: true,
            frontier_strategy: FrontierStrategy::Never,
        }
    }
}

} // verus!
