use or_tools::constraint_solver::routing_enums::FirstSolutionStrategy;
use or_tools::constraint_solver::routing_parameters::{
    RoutingModelParameters, RoutingSearchParameters,
};
use or_tools::constraint_solver::solver_parameters::ConstraintSolverParameters;
use or_tools::constraint_solver::{Constraint, Solver};
use or_tools::sat::cp_model::{Expr, IntVar};
use or_tools::utils::guard::Guard;

#[test]
fn guard_fixes_parent_while_child_changes() {
    let parent: i32 = 7;
    let mut guard = Guard::new(&parent, String::from("content"));
    assert_eq!(*guard.parent(), 7);
    assert_eq!(guard.child().as_str(), "content");
    guard.child_mut().push('!');
    assert_eq!(*guard.parent(), 7);
    assert_eq!(guard.child().as_str(), "content!");
    let child = guard.into_child();
    assert_eq!(child.as_str(), "content!");
}

#[test]
fn int_var_resolves_to_its_slot() {
    let var = IntVar::new(42);
    assert_eq!(var.id, 42);
    assert_eq!(var.var_id(), 42);
    let other = IntVar::new(42);
    assert_eq!(var, other);
}

#[test]
fn solver_records_constraints_in_order() {
    let mut solver = Solver::new();
    let a = IntVar::new(1);
    let b = IntVar::new(2);
    let eq = solver.make_equality(&a, &b);
    let le = solver.make_less_or_equal(&a, &b);
    assert_eq!(solver.num_constraints(), 0);
    solver.add_constraint(eq);
    solver.add_constraint(le);
    assert_eq!(solver.num_constraints(), 2);
    assert_eq!(
        solver.constraint(0),
        Some(Constraint::Equality { left: a, right: b })
    );
    assert_eq!(
        solver.constraint(1),
        Some(Constraint::LessOrEqual { left: a, right: b })
    );
    assert_eq!(solver.constraint(2), None);
}

#[test]
fn search_parameters_defaults_and_setters() {
    let mut parameters = RoutingSearchParameters::new();
    assert_eq!(
        parameters.first_solution_strategy,
        FirstSolutionStrategy::Automatic
    );
    assert_eq!(parameters.time_limit_seconds, u64::MAX);
    assert_eq!(parameters.time_limit_nanos, 0);
    parameters.set_first_solution_strategy(FirstSolutionStrategy::ParallelCheapestInsertion);
    parameters.set_time_limit(1_000, 500);
    assert_eq!(
        parameters.first_solution_strategy,
        FirstSolutionStrategy::ParallelCheapestInsertion
    );
    assert_eq!(parameters.time_limit_seconds, 1_000);
    assert_eq!(parameters.time_limit_nanos, 500);
}

#[test]
fn model_and_solver_parameters_defaults() {
    let model_parameters = RoutingModelParameters::new();
    assert!(model_parameters.reduce_vehicle_cost_model);
    let solver_parameters = ConstraintSolverParameters::new();
    assert!(!solver_parameters.trace_propagation);
    assert!(!solver_parameters.trace_search);
}
