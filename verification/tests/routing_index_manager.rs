use or_tools::constraint_solver::routing_index_manager::{
    RoutingIndexManager, RoutingIndexManagerVehiclePlan, RoutingNodeIndex,
    RoutingNodeIndexPairVector, RoutingNodeIndexVector, UNASSIGNED_INDEX,
};

#[test]
fn depot_plan_mapping() {
    let manager = RoutingIndexManager::new(
        5,
        2,
        RoutingIndexManagerVehiclePlan::Depot(RoutingNodeIndex::new(0)),
    )
    .expect("failed to build the manager");
    assert_eq!(manager.num_nodes(), 5);
    assert_eq!(manager.num_vehicles(), 2);
    // One depot: 5 - 1 + 2 * 2 indices.
    assert_eq!(manager.num_indices(), 8);
    assert_eq!(manager.num_unique_depots(), 1);
    // Plain nodes 1..=4 take the first indices, in node order.
    for node in 1..5 {
        let index = manager
            .node_to_index(&RoutingNodeIndex::new(node))
            .expect("node out of range");
        assert_eq!(index, (node - 1) as i64);
        let back = manager.index_to_node(index).expect("index out of range");
        assert_eq!(back.value(), node);
    }
    // The depot resolves to the first vehicle's start index.
    assert_eq!(
        manager.node_to_index(&RoutingNodeIndex::new(0)).unwrap(),
        manager.get_start_index(0).unwrap()
    );
    // Start and end indices are distinct per vehicle and map back to the
    // depot node.
    let s0 = manager.get_start_index(0).unwrap();
    let s1 = manager.get_start_index(1).unwrap();
    let e0 = manager.get_end_index(0).unwrap();
    let e1 = manager.get_end_index(1).unwrap();
    assert_eq!(s0, 4);
    assert_eq!(s1, 5);
    assert_eq!(e0, 6);
    assert_eq!(e1, 7);
    for index in [s0, s1, e0, e1] {
        assert_eq!(manager.index_to_node(index).unwrap().value(), 0);
    }
}

#[test]
fn lists_plan_pure_end_is_unassigned() {
    let mut starts = RoutingNodeIndexVector::new();
    let mut ends = RoutingNodeIndexVector::new();
    starts.push(RoutingNodeIndex::new(1));
    ends.push(RoutingNodeIndex::new(3));
    let manager = RoutingIndexManager::new(
        4,
        1,
        RoutingIndexManagerVehiclePlan::Lists { starts, ends },
    )
    .expect("failed to build the manager");
    // 4 nodes, 2 distinct depots: 4 - 2 + 2 indices.
    assert_eq!(manager.num_indices(), 4);
    assert_eq!(manager.num_unique_depots(), 2);
    // A node used only as an end is not reachable from a node lookup.
    assert_eq!(
        manager.node_to_index(&RoutingNodeIndex::new(3)).unwrap(),
        UNASSIGNED_INDEX
    );
    // The start node round-trips through the manager.
    let start = manager.get_start_index(0).unwrap();
    let node = manager.index_to_node(start).unwrap();
    assert_eq!(node.value(), 1);
    assert_eq!(manager.node_to_index(&node).unwrap(), start);
}

#[test]
fn shared_start_resolves_to_first_vehicle() {
    let mut starts = RoutingNodeIndexVector::new();
    let mut ends = RoutingNodeIndexVector::new();
    starts.push(RoutingNodeIndex::new(2));
    starts.push(RoutingNodeIndex::new(2));
    ends.push(RoutingNodeIndex::new(0));
    ends.push(RoutingNodeIndex::new(0));
    let manager = RoutingIndexManager::new(
        3,
        2,
        RoutingIndexManagerVehiclePlan::Lists { starts, ends },
    )
    .expect("failed to build the manager");
    // A node appearing as the start of several vehicles resolves to the
    // start index of the first of them.
    assert_eq!(
        manager.node_to_index(&RoutingNodeIndex::new(2)).unwrap(),
        manager.get_start_index(0).unwrap()
    );
    // Start indices round-trip for the first vehicle using the node.
    let s0 = manager.get_start_index(0).unwrap();
    let node = manager.index_to_node(s0).unwrap();
    assert_eq!(manager.node_to_index(&node).unwrap(), s0);
}

#[test]
fn pair_plan_round_trip() {
    let mut pairs = RoutingNodeIndexPairVector::new();
    pairs.push(RoutingNodeIndex::new(0), RoutingNodeIndex::new(4));
    pairs.push(RoutingNodeIndex::new(1), RoutingNodeIndex::new(4));
    let manager =
        RoutingIndexManager::new(5, 2, RoutingIndexManagerVehiclePlan::Pair(pairs))
            .expect("failed to build the manager");
    // 5 nodes, 3 distinct depots: 5 - 3 + 4 indices.
    assert_eq!(manager.num_indices(), 6);
    assert_eq!(manager.num_unique_depots(), 3);
    for v in 0..2 {
        let start = manager.get_start_index(v).unwrap();
        let node = manager.index_to_node(start).unwrap();
        assert_eq!(manager.node_to_index(&node).unwrap(), start);
    }
}

#[test]
fn construction_errors() {
    // A start node outside the problem.
    assert!(RoutingIndexManager::new(
        3,
        1,
        RoutingIndexManagerVehiclePlan::Depot(RoutingNodeIndex::new(3)),
    )
    .is_none());
    // A start list whose length is not the number of vehicles.
    let mut starts = RoutingNodeIndexVector::new();
    let mut ends = RoutingNodeIndexVector::new();
    starts.push(RoutingNodeIndex::new(0));
    ends.push(RoutingNodeIndex::new(0));
    assert!(RoutingIndexManager::new(
        3,
        2,
        RoutingIndexManagerVehiclePlan::Lists { starts, ends },
    )
    .is_none());
    // No vehicles.
    assert!(RoutingIndexManager::new(
        3,
        0,
        RoutingIndexManagerVehiclePlan::Depot(RoutingNodeIndex::new(0)),
    )
    .is_none());
}

#[test]
fn lookup_errors_are_absent_results() {
    let manager = RoutingIndexManager::new(
        4,
        1,
        RoutingIndexManagerVehiclePlan::Depot(RoutingNodeIndex::new(0)),
    )
    .unwrap();
    assert!(manager.get_start_index(1).is_none());
    assert!(manager.get_start_index(-1).is_none());
    assert!(manager.get_end_index(7).is_none());
    assert!(manager.index_to_node(-1).is_none());
    assert!(manager.index_to_node(100).is_none());
    assert!(manager.node_to_index(&RoutingNodeIndex::new(9)).is_none());
}
