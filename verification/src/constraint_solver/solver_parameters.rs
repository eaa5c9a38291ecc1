//! Parameters of the underlying constraint solver.

use vstd::prelude::*;

verus! {

/// Solver parameters.
#[derive(Clone, Copy, Debug, PartialEq, Eq, Structural)]
pub struct ConstraintSolverParameters {
    /// Whether the solver traces its propagation.
    pub trace_propagation: bool,
    /// Whether the solver traces its search.
    pub trace_search: bool,
}

impl ConstraintSolverParameters {
    /// Default solver parameters: no tracing.
    pub fn new() -> (r: ConstraintSolverParameters)
        ensures
            r.trace_propagation == false,
            r.trace_search == false,
    {
        ConstraintSolverParameters { trace_propagation: false, trace_search: false }
    }
}

} // verus!
