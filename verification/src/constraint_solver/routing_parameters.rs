//! Parameter records handed to routing model construction and solving.

use vstd::prelude::*;

use super::routing_enums::FirstSolutionStrategy;

verus! {

/// Parameters fixed when a routing model is created.
#[derive(Clone, Copy, Debug, PartialEq, Eq, Structural)]
pub struct RoutingModelParameters {
    /// Whether the model may cache callback evaluations.
    pub reduce_vehicle_cost_model: bool,
}

impl RoutingModelParameters {
    /// Default model parameters.
    pub fn new() -> (r: RoutingModelParameters)
        ensures
            r.reduce_vehicle_cost_model == true,
    {
        RoutingModelParameters { reduce_vehicle_cost_model: true }
    }
}

/// Parameters defining the search used to solve a routing model.
///
/// An unset parameter means the library picks its preferred value.
#[derive(Clone, Copy, Debug, PartialEq, Eq, Structural)]
pub struct RoutingSearchParameters {
    /// Heuristic used to build the first solution.
    pub first_solution_strategy: FirstSolutionStrategy,
    /// Whole seconds of the search time budget.
    pub time_limit_seconds: u64,
    /// Additional nanoseconds of the search time budget.
    pub time_limit_nanos: u32,
}

impl RoutingSearchParameters {
    /// Default search parameters: automatic strategy, effectively unbounded
    /// time.
    pub fn new() -> (r: RoutingSearchParameters)
        ensures
            r.first_solution_strategy == FirstSolutionStrategy::Automatic,
            r.time_limit_seconds == u64::MAX,
            r.time_limit_nanos == 0,
    {
        RoutingSearchParameters {
            first_solution_strategy: FirstSolutionStrategy::Automatic,
            time_limit_seconds: u64::MAX,
            time_limit_nanos: 0,
        }
    }

    /// Chooses the heuristic used as starting point of the search.
    pub fn set_first_solution_strategy(&mut self, value: FirstSolutionStrategy)
        ensures
            final(self).first_solution_strategy == value,
            final(self).time_limit_seconds == old(self).time_limit_seconds,
            final(self).time_limit_nanos == old(self).time_limit_nanos,
    {
        self.first_solution_strategy = value;
    }

    /// Limits the time spent in the search to `seconds` plus `nanos`.
    pub fn set_time_limit(&mut self, seconds: u64, nanos: u32)
        ensures
            final(self).time_limit_seconds == seconds,
            final(self).time_limit_nanos == nanos,
            final(self).first_solution_strategy == old(self).first_solution_strategy,
    {
        self.time_limit_seconds = seconds;
        self.time_limit_nanos = nanos;
    }
}

} // verus!
