use or_tools::graph::ebert_graph::{ArcIndex, NodeIndex, StarGraph};
use or_tools::graph::min_cost_flow::{MinCostFlow, MinCostFlowStatus};

#[test]
fn min_cost_flow_simple() {
    // Define supply of each node.
    let supplies: &[(u32, i64)] = &[(0, 20), (1, 0), (2, 0), (3, -5), (4, -15)];

    // Define each arc
    // Arc are stored as (begin_node, end_node, capacity, unit_cost)
    let arcs: &[(u32, u32, i64, i64)] = &[
        (0, 1, 15, 4),
        (0, 2, 8, 4),
        (1, 2, 20, 2),
        (1, 3, 4, 2),
        (1, 4, 10, 6),
        (2, 3, 15, 1),
        (2, 4, 4, 3),
        (3, 4, 20, 2),
        (4, 2, 5, 3),
    ];
    let num_nodes = supplies.len() as NodeIndex;
    let num_arcs = arcs.len() as ArcIndex;

    let mut graph = StarGraph::new(num_nodes, num_arcs);
    let mut arc_indices: Vec<ArcIndex> = Vec::new();
    for (start, end, _, _) in arcs {
        arc_indices.push(graph.add_arc(*start, *end));
    }

    let mut min_cost_flow = MinCostFlow::new(&graph);
    for (arc, (_, _, capacity, unit_cost)) in arc_indices.iter().zip(arcs) {
        min_cost_flow.set_arc_capacity(*arc, *capacity);
        min_cost_flow.set_arc_unit_cost(*arc, *unit_cost);
    }
    for (node, supply) in supplies {
        min_cost_flow.set_node_supply(*node, *supply);
    }

    println!(
        "Solving min cost flow with: {num_nodes} nodes, and {num_arcs} arcs.",
        num_nodes = graph.num_nodes(),
        num_arcs = graph.num_arcs(),
    );

    // Find the minimum cost flow.
    let mut output = min_cost_flow
        .solve()
        .expect("failed to solve minimum cost flow");
    if output.status() != MinCostFlowStatus::Optimal {
        println!("Solving the min cost flow is not optimal!");
    }
    let total_flow_cost = output.get_optimal_cost();
    println!("Minimum cost flow: {total_flow_cost}");
    println!();
    println!(" Arc  : Flow / Capacity / Cost");
    for arc in arc_indices.iter().copied() {
        println!(
            "{tail} -> {head}: {flow} / {capacity} / {cost}",
            tail = graph.tail(arc).unwrap(),
            head = graph.head(arc).unwrap(),
            flow = output.flow(arc).unwrap(),
            capacity = output.capacity(arc).unwrap(),
            cost = output.unit_cost(arc).unwrap(),
        );
    }

    let get_arc_cost = |tail: u32, head: u32| {
        arcs.iter()
            .zip(&arc_indices)
            .find(|((target_tail, target_head, _, _), _)| {
                tail == *target_tail && head == *target_head
            })
            .map(|(_, arc)| output.unit_cost(*arc).unwrap())
            .unwrap_or_else(|| panic!("no such arc: ({tail}, {head})"))
    };

    assert_eq!(get_arc_cost(1, 4), 6);
    assert_eq!(get_arc_cost(2, 3), 1);
    assert_eq!(get_arc_cost(3, 4), 2);
    assert_eq!(get_arc_cost(4, 2), 3);
}

#[test]
fn min_cost_flow_rejects_unbalanced_supplies() {
    let mut graph = StarGraph::new(2, 1);
    let a0 = graph.add_arc(0, 1);
    let mut min_cost_flow = MinCostFlow::new(&graph);
    min_cost_flow.set_arc_capacity(a0, 10);
    min_cost_flow.set_node_supply(0, 5);
    min_cost_flow.set_node_supply(1, -3);
    assert!(min_cost_flow.solve().is_none());
}

#[test]
fn min_cost_flow_infeasible_capacity() {
    // The only arc is too small for the supply.
    let mut graph = StarGraph::new(2, 1);
    let a0 = graph.add_arc(0, 1);
    let mut min_cost_flow = MinCostFlow::new(&graph);
    min_cost_flow.set_arc_capacity(a0, 2);
    min_cost_flow.set_node_supply(0, 5);
    min_cost_flow.set_node_supply(1, -5);
    assert!(min_cost_flow.solve().is_none());
}

#[test]
fn min_cost_flow_meets_supplies() {
    let mut graph = StarGraph::new(3, 3);
    let a0 = graph.add_arc(0, 1);
    let a1 = graph.add_arc(1, 2);
    let a2 = graph.add_arc(0, 2);
    let mut min_cost_flow = MinCostFlow::new(&graph);
    min_cost_flow.set_arc_capacity(a0, 10);
    min_cost_flow.set_arc_capacity(a1, 10);
    min_cost_flow.set_arc_capacity(a2, 10);
    min_cost_flow.set_arc_unit_cost(a0, 1);
    min_cost_flow.set_arc_unit_cost(a1, 1);
    min_cost_flow.set_arc_unit_cost(a2, 5);
    min_cost_flow.set_node_supply(0, 4);
    min_cost_flow.set_node_supply(2, -4);
    let mut output = min_cost_flow.solve().expect("failed to solve minimum cost flow");
    assert_eq!(output.status(), MinCostFlowStatus::Optimal);
    // Net outflow at each node equals its supply.
    let flows = [
        output.flow(a0).unwrap(),
        output.flow(a1).unwrap(),
        output.flow(a2).unwrap(),
    ];
    assert_eq!(flows[0] + flows[2], 4);
    assert_eq!(flows[0] - flows[1], 0);
    assert_eq!(-(flows[1] + flows[2]), -4);
    // The cheap two-arc path wins over the expensive direct arc.
    assert_eq!(output.get_optimal_cost(), 8);
    assert_eq!(output.initial_supply(0).unwrap(), 4);
    assert_eq!(output.supply(0).unwrap(), 0);
    assert_eq!(output.feasible_supply(2).unwrap(), -4);
}

#[test]
fn warm_started_feasible_flow_guarantees_success() {
    let mut graph = StarGraph::new(2, 1);
    let a0 = graph.add_arc(0, 1);
    let mut min_cost_flow = MinCostFlow::new(&graph);
    min_cost_flow.set_arc_capacity(a0, 5);
    min_cost_flow.set_arc_unit_cost(a0, 2);
    min_cost_flow.set_node_supply(0, 3);
    min_cost_flow.set_node_supply(1, -3);
    // The seeded flow already satisfies every law, so the solve is owed a
    // success.
    min_cost_flow.set_arc_flow(a0, 3);
    let mut output = min_cost_flow.solve().expect("failed to solve minimum cost flow");
    assert_eq!(output.status(), MinCostFlowStatus::Optimal);
    assert_eq!(output.flow(a0).unwrap(), 3);
    assert_eq!(output.get_optimal_cost(), 6);
}
