use or_tools::constraint_solver::routing::RoutingModel;
use or_tools::constraint_solver::routing_enums::{FirstSolutionStrategy, RoutingModelStatus};
use or_tools::constraint_solver::routing_index_manager::{
    RoutingIndexManager, RoutingIndexManagerVehiclePlan, RoutingNodeIndex,
};
use or_tools::constraint_solver::routing_parameters::RoutingSearchParameters;
use or_tools::sat::cp_model::IntVar;

fn depot_manager(num_nodes: i32, num_vehicles: i32) -> RoutingIndexManager {
    RoutingIndexManager::new(
        num_nodes,
        num_vehicles,
        RoutingIndexManagerVehiclePlan::Depot(RoutingNodeIndex::new(0)),
    )
    .expect("failed to build the manager")
}

#[test]
fn callback_handles_in_registration_order() {
    let manager = depot_manager(4, 1);
    let mut routing = RoutingModel::new(&manager, None).expect("failed to build the model");
    let first = |from: i64, to: i64| -> i64 { from + to };
    let second = |from: i64, to: i64| -> i64 { from * 2 + to };
    assert_eq!(routing.register_transit_callback(&first), Some(0));
    assert_eq!(routing.register_transit_callback(&second), Some(1));
    assert_eq!(routing.register_transit_callback(&first), Some(2));
}

#[test]
fn arc_costs_follow_the_registered_callback() {
    let manager = depot_manager(4, 1);
    let mut routing = RoutingModel::new(&manager, None).expect("failed to build the model");
    let cost = |from: i64, to: i64| -> i64 { 10 * from + to };
    let handle = routing.register_transit_callback(&cost).unwrap();
    routing.set_arc_cost_evaluator_of_all_vehicles(handle);
    assert!(routing.costs_are_homogeneous_across_vehicles());
    assert_eq!(routing.get_arc_cost_for_vehicle(1, 2, 0), 12);
    assert_eq!(routing.get_arc_cost_for_vehicle(1, 2, -1), 0);
    assert_eq!(routing.get_homogeneous_cost(3, 0), 30);
    assert_eq!(routing.get_arc_cost_for_first_solution(0, 3), 3);
    assert_eq!(routing.get_arc_cost_for_class(2, 1, 0), 21);
    assert_eq!(routing.get_arc_cost_for_class(2, 1, 5), 0);
    // Out-of-range indices cost nothing instead of failing.
    assert_eq!(routing.get_arc_cost_for_vehicle(-1, 2, 0), 0);
    assert_eq!(routing.get_arc_cost_for_vehicle(1, 99, 0), 0);
}

#[test]
fn duplicate_dimension_is_refused_and_harmless() {
    let manager = depot_manager(4, 1);
    let mut routing = RoutingModel::new(&manager, None).expect("failed to build the model");
    let transit = |_from: i64, _to: i64| -> i64 { 1 };
    let handle = routing.register_transit_callback(&transit).unwrap();
    assert!(routing.add_dimension(handle, 0, 100, true, "Load"));
    let before = {
        let dim = routing.get_dimension("Load").expect("missing dimension");
        assert_eq!(dim.name().as_str(), "Load");
        (dim.cumul_var(0).unwrap(), dim.slack_var(0).unwrap())
    };
    // The second dimension under the same name is refused...
    assert!(!routing.add_dimension(handle, 5, 999, false, "Load"));
    // ...and the first one's variables are unchanged.
    let after = {
        let dim = routing.get_dimension("Load").expect("missing dimension");
        (dim.cumul_var(0).unwrap(), dim.slack_var(0).unwrap())
    };
    assert_eq!(before, after);
    // A different name is accepted.
    assert!(routing.add_dimension(handle, 0, 100, true, "Time"));
}

#[test]
fn accessors_are_idempotent_before_mutation() {
    let manager = depot_manager(5, 2);
    let routing = RoutingModel::new(&manager, None).expect("failed to build the model");
    assert_eq!(routing.start(0), routing.start(0));
    assert_eq!(routing.start(1), routing.start(1));
    assert_eq!(routing.end(0), routing.end(0));
    assert_eq!(routing.cost_var(), routing.cost_var());
    assert_eq!(routing.next_var(2), routing.next_var(2));
    assert_eq!(routing.vehicle_var(3), routing.vehicle_var(3));
    assert_eq!(routing.is_start(4), routing.is_start(4));
    assert_eq!(routing.is_end(7), routing.is_end(7));
}

#[test]
fn start_end_layout() {
    let manager = depot_manager(5, 2);
    let routing = RoutingModel::new(&manager, None).expect("failed to build the model");
    // 5 nodes, one shared depot, 2 vehicles: indices 0..=3 are plain,
    // 4 and 5 the starts, 6 and 7 the ends.
    assert_eq!(routing.start(0), Some(4));
    assert_eq!(routing.start(1), Some(5));
    assert_eq!(routing.end(0), Some(6));
    assert_eq!(routing.end(1), Some(7));
    assert!(routing.is_start(4) && routing.is_start(5));
    assert!(routing.is_end(6) && routing.is_end(7));
    assert!(!routing.is_start(0) && !routing.is_end(4));
    assert_eq!(routing.vehicle_index(5), Some(1));
    assert_eq!(routing.vehicle_index(6), Some(0));
    assert_eq!(routing.vehicle_index(2), None);
    // Ends own no next variable; that lookup is absent by design.
    assert!(routing.next_var(6).is_none());
    assert!(routing.next_var(3).is_some());
    assert!(routing.active_var(7).is_none());
    assert!(routing.vehicle_var(7).is_some());
    assert!(routing.resource_var(0, 0).is_none());
}

#[test]
fn single_vehicle_tour_visits_every_node() {
    // A single-vehicle, depot-at-node-0 model over 5 nodes with a
    // symmetric cost callback returning from + to.
    let manager = depot_manager(5, 1);
    let mut routing = RoutingModel::new(&manager, None).expect("failed to build the model");
    let cost = |from: i64, to: i64| -> i64 { from + to };
    let handle = routing.register_transit_callback(&cost).unwrap();
    routing.set_arc_cost_evaluator_of_all_vehicles(handle);
    let mut search_parameters = RoutingSearchParameters::new();
    search_parameters.set_first_solution_strategy(FirstSolutionStrategy::PathCheapestArc);
    let solution = routing.solve_with_parameters(&search_parameters);
    assert!(solution.has_contents());
    assert_eq!(solution.status(), RoutingModelStatus::RoutingSuccess);

    // The route starts at the vehicle start, ends at its end, and visits
    // every plain node exactly once.
    let start = routing.start(0).unwrap();
    let end = routing.end(0).unwrap();
    let mut index = start;
    let mut seen = [false; 4];
    let mut hops = 0;
    while !routing.is_end(index) {
        if index != start {
            let node = index as usize;
            assert!(node < 4);
            assert!(!seen[node]);
            seen[node] = true;
        }
        index = solution.next(index).expect("missing next value");
        hops += 1;
        assert!(hops <= 6);
    }
    assert_eq!(index, end);
    assert!(seen.iter().all(|v| *v));
    // Every non-depot index is active.
    for i in 0..4 {
        let var = routing.active_var(i).unwrap();
        assert_eq!(solution.value(&var), Some(1));
    }
    assert_eq!(solution.is_vehicle_used(0), Some(true));
}

#[test]
fn path_invariants_hold_in_solved_assignment() {
    let manager = depot_manager(6, 2);
    let mut routing = RoutingModel::new(&manager, None).expect("failed to build the model");
    let cost = |from: i64, to: i64| -> i64 { (from - to).abs() + 1 };
    let handle = routing.register_transit_callback(&cost).unwrap();
    routing.set_arc_cost_evaluator_of_all_vehicles(handle);
    let solution = routing.solve_with_parameters(&RoutingSearchParameters::new());
    assert_eq!(solution.status(), RoutingModelStatus::RoutingSuccess);
    let size = 6 - 1 + 2 * 2 - 2; // indices with next/active variables
    for i in 0..size as i64 {
        let next = solution.next(i).unwrap();
        // The next convenience equals reading the next variable.
        assert_eq!(
            Some(next),
            solution.value(&routing.next_var(i).unwrap())
        );
        let active = solution.value(&routing.active_var(i).unwrap()).unwrap();
        let vehicle = solution.value(&routing.vehicle_var(i).unwrap()).unwrap();
        // active(i) == 0 <=> next(i) == i <=> vehicle(i) == -1.
        assert_eq!(active == 0, next == i);
        assert_eq!(active == 0, vehicle == -1);
        // next(i) == j implies vehicle(j) == vehicle(i).
        let next_vehicle = solution
            .value(&routing.vehicle_var(next).unwrap())
            .unwrap();
        assert_eq!(next_vehicle, vehicle);
    }
}

#[test]
fn distance_dimension_pins_start_cumul_to_zero() {
    // Adding a "Distance" dimension with capacity 3000 and
    // fix_start_cumul_to_zero, the start cumul of every vehicle is 0 in
    // any solved assignment.
    let manager = depot_manager(6, 2);
    let mut routing = RoutingModel::new(&manager, None).expect("failed to build the model");
    let distance = |from: i64, to: i64| -> i64 { 5 * ((from - to).abs() + 1) };
    let handle = routing.register_transit_callback(&distance).unwrap();
    routing.set_arc_cost_evaluator_of_all_vehicles(handle);
    assert!(routing.add_dimension(handle, 0, 3000, true, "Distance"));
    let solution = routing.solve_with_parameters(&RoutingSearchParameters::new());
    assert_eq!(solution.status(), RoutingModelStatus::RoutingSuccess);
    let dimension = routing.get_dimension("Distance").expect("missing dimension");
    for v in 0..2 {
        let start = routing.start(v).unwrap();
        let cumul = dimension.cumul_var(start).unwrap();
        assert_eq!(solution.value(&cumul), Some(0));
    }
    // The cumul recurrence holds along every index with a successor.
    let size = 6 - 1 + 2 * 2 - 2;
    for i in 0..size as i64 {
        let next = solution.next(i).unwrap();
        let cumul_i = solution.value(&dimension.cumul_var(i).unwrap()).unwrap();
        let cumul_next = solution.value(&dimension.cumul_var(next).unwrap()).unwrap();
        let transit = solution.value(&dimension.transit_var(i).unwrap()).unwrap();
        let slack = solution.value(&dimension.slack_var(i).unwrap()).unwrap();
        let fixed = solution
            .value(&dimension.fixed_transit_var(i).unwrap())
            .unwrap();
        assert_eq!(cumul_next, cumul_i + transit + slack);
        assert_eq!(fixed, transit);
        // Capacity is respected on arrival.
        assert!(0 <= cumul_next && cumul_next <= 3000);
    }
}

#[test]
fn global_span_cost_enters_the_objective() {
    let manager = depot_manager(4, 1);
    let mut routing = RoutingModel::new(&manager, None).expect("failed to build the model");
    let distance = |from: i64, to: i64| -> i64 { (from - to).abs() + 2 };
    let handle = routing.register_transit_callback(&distance).unwrap();
    routing.set_arc_cost_evaluator_of_all_vehicles(handle);
    assert!(routing.add_dimension(handle, 0, 3000, true, "Distance"));
    {
        let dimension = routing
            .get_mutable_dimension("Distance")
            .expect("missing dimension");
        dimension.set_global_span_cost_coefficient(100);
    }
    let solution = routing.solve_with_parameters(&RoutingSearchParameters::new());
    assert_eq!(solution.status(), RoutingModelStatus::RoutingSuccess);
    // Objective = sum of arc costs + 100 * (end cumul - start cumul); with
    // one vehicle and identical arc/transit callbacks the span equals the
    // arc cost total.
    let cost_var = routing.cost_var().unwrap();
    let cost = solution.value(&cost_var).unwrap();
    let mut arc_total = 0;
    let mut index = routing.start(0).unwrap();
    while !routing.is_end(index) {
        let next = solution.next(index).unwrap();
        arc_total += routing.get_arc_cost_for_vehicle(index, next, 0);
        index = next;
    }
    assert_eq!(cost, arc_total + 100 * arc_total);
}

#[test]
fn pickup_delivery_pair_with_constraints() {
    let manager = depot_manager(4, 1);
    let mut routing = RoutingModel::new(&manager, None).expect("failed to build the model");
    // Costs grow with the source index, so the cheapest-arc construction
    // walks the plain indices in increasing order.
    let distance = |from: i64, to: i64| -> i64 { from * 7 + to + 1 };
    let handle = routing.register_transit_callback(&distance).unwrap();
    routing.set_arc_cost_evaluator_of_all_vehicles(handle);
    assert!(routing.add_dimension(handle, 0, 3000, true, "Distance"));
    let pickup_index = manager.node_to_index(&RoutingNodeIndex::new(1)).unwrap();
    let delivery_index = manager.node_to_index(&RoutingNodeIndex::new(2)).unwrap();
    routing.add_pickup_and_delivery(pickup_index, delivery_index);
    assert_eq!(
        routing.pickup_and_delivery_pairs().as_slice(),
        &[(pickup_index, delivery_index)]
    );
    // Same-vehicle and ordering constraints through the solver.
    let pickup_vehicle = routing.vehicle_var(pickup_index).unwrap();
    let delivery_vehicle = routing.vehicle_var(delivery_index).unwrap();
    let equality = routing
        .solver()
        .make_equality(&pickup_vehicle, &delivery_vehicle);
    routing.solver_mut().add_constraint(equality);
    let dimension = routing.get_dimension("Distance").expect("missing dimension");
    let cumul_pickup = dimension.cumul_var(pickup_index).unwrap();
    let cumul_delivery = dimension.cumul_var(delivery_index).unwrap();
    let ordering = routing
        .solver()
        .make_less_or_equal(&cumul_pickup, &cumul_delivery);
    routing.solver_mut().add_constraint(ordering);
    let solution = routing.solve_with_parameters(&RoutingSearchParameters::new());
    assert_eq!(solution.status(), RoutingModelStatus::RoutingSuccess);
    // The accepted assignment satisfies both constraints.
    assert_eq!(
        solution.value(&pickup_vehicle).unwrap(),
        solution.value(&delivery_vehicle).unwrap()
    );
    assert!(solution.value(&cumul_pickup).unwrap() <= solution.value(&cumul_delivery).unwrap());
}

#[test]
fn mutations_are_refused_after_solving() {
    let manager = depot_manager(4, 1);
    let mut routing = RoutingModel::new(&manager, None).expect("failed to build the model");
    let cost = |from: i64, to: i64| -> i64 { from + to };
    let handle = routing.register_transit_callback(&cost).unwrap();
    routing.set_arc_cost_evaluator_of_all_vehicles(handle);
    let solution = routing.solve_with_parameters(&RoutingSearchParameters::new());
    assert_eq!(solution.status(), RoutingModelStatus::RoutingSuccess);
    // The wiring is frozen after the first solve.
    assert_eq!(routing.register_transit_callback(&cost), None);
    assert!(!routing.add_dimension(handle, 0, 10, true, "Late"));
    // Solving again re-uses the same wiring.
    let again = routing.solve_with_parameters(&RoutingSearchParameters::new());
    assert_eq!(again.status(), RoutingModelStatus::RoutingSuccess);
}

#[test]
fn checker_accepts_solution_and_rejects_tampering() {
    let manager = depot_manager(4, 1);
    let mut routing = RoutingModel::new(&manager, None).expect("failed to build the model");
    let cost = |from: i64, to: i64| -> i64 { from + to };
    let handle = routing.register_transit_callback(&cost).unwrap();
    routing.set_arc_cost_evaluator_of_all_vehicles(handle);
    assert!(routing.add_dimension(handle, 0, 1000, true, "Load"));
    let solution = routing.solve_with_parameters(&RoutingSearchParameters::new());
    assert_eq!(solution.status(), RoutingModelStatus::RoutingSuccess);
    // Read the whole valuation back through the assignment.
    let s = 5usize; // 4 nodes, one depot, 1 vehicle: 3 plain + start + end
    let num_vars = 3 * s + 1 + 2 + 4 * s;
    let mut values = Vec::new();
    for id in 0..num_vars {
        values.push(solution.value(&IntVar::new(id)).expect("value missing"));
    }
    assert!(routing.is_valid_assignment(&values));
    // Breaking one path variable breaks the assignment.
    let mut tampered = values.clone();
    tampered[s] = 1 - tampered[s]; // flip active(0)
    assert!(!routing.is_valid_assignment(&tampered));
    // Misstating the cost breaks the assignment too.
    let mut wrong_cost = values.clone();
    wrong_cost[3 * s] += 1;
    assert!(!routing.is_valid_assignment(&wrong_cost));
}

#[test]
fn capacity_splits_nodes_across_vehicles() {
    // Every hop moves one unit; a capacity of three per vehicle forces the
    // four plain nodes onto both vehicles.
    let manager = depot_manager(5, 2);
    let mut routing = RoutingModel::new(&manager, None).expect("failed to build the model");
    let unit = |_from: i64, _to: i64| -> i64 { 1 };
    let handle = routing.register_transit_callback(&unit).unwrap();
    routing.set_arc_cost_evaluator_of_all_vehicles(handle);
    assert!(routing.add_dimension(handle, 0, 3, true, "Hops"));
    let solution = routing.solve_with_parameters(&RoutingSearchParameters::new());
    assert_eq!(solution.status(), RoutingModelStatus::RoutingSuccess);
    assert_eq!(solution.is_vehicle_used(0), Some(true));
    assert_eq!(solution.is_vehicle_used(1), Some(true));
    // Both routes stay within capacity, and all four nodes are visited.
    let dimension = routing.get_dimension("Hops").expect("missing dimension");
    let mut visited = 0;
    for v in 0..2 {
        let mut index = routing.start(v).unwrap();
        while !routing.is_end(index) {
            if !routing.is_start(index) {
                visited += 1;
            }
            index = solution.next(index).unwrap();
            let cumul = solution.value(&dimension.cumul_var(index).unwrap()).unwrap();
            assert!(0 <= cumul && cumul <= 3);
        }
    }
    assert_eq!(visited, 4);
}

#[test]
fn slack_and_negative_costs_are_accepted() {
    let manager = depot_manager(4, 1);
    let mut routing = RoutingModel::new(&manager, None).expect("failed to build the model");
    let cost = |from: i64, to: i64| -> i64 { -(from + to) };
    let handle = routing.register_transit_callback(&cost).unwrap();
    routing.set_arc_cost_evaluator_of_all_vehicles(handle);
    let load = |_from: i64, _to: i64| -> i64 { 2 };
    let load_handle = routing.register_transit_callback(&load).unwrap();
    assert!(routing.add_dimension(load_handle, 10, 100, true, "Load"));
    let solution = routing.solve_with_parameters(&RoutingSearchParameters::new());
    assert_eq!(solution.status(), RoutingModelStatus::RoutingSuccess);
    // The objective can be negative; it still equals the walked arc costs.
    let cost_value = solution.value(&routing.cost_var().unwrap()).unwrap();
    let mut arc_total = 0;
    let mut index = routing.start(0).unwrap();
    while !routing.is_end(index) {
        let next = solution.next(index).unwrap();
        arc_total += routing.get_arc_cost_for_vehicle(index, next, 0);
        index = next;
    }
    assert_eq!(cost_value, arc_total);
    assert!(cost_value < 0);
}

#[test]
fn canonical_tour_rescues_a_constrained_model() {
    // The constraint forces next(0) to equal active(0) (one): the cheapest-
    // arc construction visits the plain indices in the order 1, 0, so its
    // next(0) is the vehicle end; the in-order tour satisfies everything.
    let manager = depot_manager(3, 1);
    let mut routing = RoutingModel::new(&manager, None).expect("failed to build the model");
    let cost = |from: i64, to: i64| -> i64 {
        match (from, to) {
            (2, 1) => 1,
            (2, 0) => 5,
            (1, 0) => 1,
            (0, 3) => 1,
            (1, 3) => 9,
            (0, 1) => 9,
            _ => 7,
        }
    };
    let handle = routing.register_transit_callback(&cost).unwrap();
    routing.set_arc_cost_evaluator_of_all_vehicles(handle);
    let next0 = routing.next_var(0).unwrap();
    let active0 = routing.active_var(0).unwrap();
    let pinned = routing.solver().make_equality(&next0, &active0);
    routing.solver_mut().add_constraint(pinned);
    let solution = routing.solve_with_parameters(&RoutingSearchParameters::new());
    assert_eq!(solution.status(), RoutingModelStatus::RoutingSuccess);
    // The accepted assignment is the in-order tour: start, 0, 1, end.
    assert_eq!(solution.next(routing.start(0).unwrap()), Some(0));
    assert_eq!(solution.next(0), Some(1));
    assert_eq!(solution.next(1), Some(routing.end(0).unwrap()));
}

#[test]
fn successors_are_distinct_in_solved_assignment() {
    let manager = depot_manager(6, 2);
    let mut routing = RoutingModel::new(&manager, None).expect("failed to build the model");
    let cost = |from: i64, to: i64| -> i64 { from * 3 + to };
    let handle = routing.register_transit_callback(&cost).unwrap();
    routing.set_arc_cost_evaluator_of_all_vehicles(handle);
    let solution = routing.solve_with_parameters(&RoutingSearchParameters::new());
    assert_eq!(solution.status(), RoutingModelStatus::RoutingSuccess);
    let size = 6 - 1 + 2 * 2 - 2;
    let mut targets = Vec::new();
    for i in 0..size as i64 {
        let next = solution.next(i).unwrap();
        assert!(!targets.contains(&next));
        targets.push(next);
    }
}
