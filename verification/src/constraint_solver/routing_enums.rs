//! Enumerations shared by the routing model and its search parameters.

use vstd::prelude::*;

verus! {

/// Heuristic used to build a first solution, the starting point of the
/// search.
#[derive(Clone, Copy, Debug, PartialEq, Eq, Structural, Hash)]
pub enum FirstSolutionStrategy {
    /// No strategy chosen yet.
    Unset,
    /// Lets the solver pick a strategy fitting the model being solved.
    Automatic,
    /// Starting from a route "start" node, connect it to the node which
    /// produces the cheapest route segment, then extend the route by
    /// iterating on the last node added to the route.
    PathCheapestArc,
    /// Like `PathCheapestArc`, favouring the most constrained arc first.
    PathMostConstrainedArc,
    /// Like `PathCheapestArc`, with arc costs taken from a dedicated first
    /// solution evaluator.
    EvaluatorStrategy,
    /// Savings algorithm (Clarke & Wright).
    Savings,
    /// Sweep algorithm (Wren & Holliday).
    Sweep,
    /// Route-extension variant of the Christofides algorithm.
    Christofides,
    /// Make all nodes inactive; only succeeds when nodes are optional.
    AllUnperformed,
    /// Insert the cheapest node at its cheapest position, judged by the
    /// global cost function.
    BestInsertion,
    /// Insert the cheapest node at its cheapest position, judged by the arc
    /// cost function.
    ParallelCheapestInsertion,
    /// Build routes one after the other, inserting the cheapest node at its
    /// cheapest position until each route is complete.
    SequentialCheapestInsertion,
    /// Insert each node at its cheapest position, farthest nodes first.
    LocalCheapestInsertion,
    /// Like `LocalCheapestInsertion`, judged by the model cost function.
    LocalCheapestCostInsertion,
    /// Iteratively connect the two nodes producing the cheapest segment.
    GlobalCheapestArc,
    /// Connect the first node with an unbound successor to the node which
    /// produces the cheapest route segment.
    LocalCheapestArc,
    /// Connect the first node with an unbound successor to the first
    /// available node.
    FirstUnboundMinValue,
}

/// Outcome of solving a routing model, carried by the returned assignment.
#[derive(Clone, Copy, Debug, PartialEq, Eq, Structural, Hash)]
pub enum RoutingModelStatus {
    /// No solve has completed yet.
    RoutingNotSolved,
    /// A solve completed and produced an assignment that satisfies the wired
    /// model.
    RoutingSuccess,
    /// A solve produced a valid assignment without exhausting the search for
    /// a local optimum.
    RoutingPartialSuccessLocalOptimumNotReached,
    /// The search ended without a feasible assignment.
    RoutingFail,
    /// The search ran out of its time budget before finding a feasible
    /// assignment.
    RoutingFailTimeout,
    /// The model itself is invalid.
    RoutingInvalid,
}

} // verus!
