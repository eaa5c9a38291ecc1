use or_tools::graph::ebert_graph::{ArcIndex, NodeIndex, StarGraph};
use or_tools::graph::max_flow::{MaxFlow, MaxFlowStatus};

#[test]
fn max_flow_simple() {
    // Add each arc.
    // Arc are stored as (begin_node, end_node, capacity)
    let arcs: &[(u32, u32, i64)] = &[
        (0, 1, 20),
        (0, 2, 30),
        (0, 3, 10),
        (1, 2, 40),
        (1, 4, 30),
        (2, 3, 10),
        (2, 4, 20),
        (3, 2, 5),
        (3, 4, 20),
    ];
    let mut unique_nodes: Vec<u32> = Vec::new();
    for (start, end, _) in arcs {
        if !unique_nodes.contains(start) {
            unique_nodes.push(*start);
        }
        if !unique_nodes.contains(end) {
            unique_nodes.push(*end);
        }
    }
    let num_nodes = unique_nodes.len() as NodeIndex;
    let num_arcs = arcs.len() as ArcIndex;

    let mut graph = StarGraph::new(num_nodes, num_arcs);
    let mut arc_indices: Vec<ArcIndex> = Vec::new();
    for (start, end, _) in arcs {
        arc_indices.push(graph.add_arc(*start, *end));
    }

    let mut max_flow = MaxFlow::new(&graph, 0 /* node 0 */, num_nodes - 1 /* node 4 */);
    for (arc, (_, _, capacity)) in arc_indices.iter().zip(arcs) {
        max_flow.set_arc_capacity(*arc, *capacity);
    }

    println!(
        "Solving max flow with: {num_nodes} nodes, and {num_arcs} arcs.",
        num_nodes = graph.num_nodes(),
        num_arcs = graph.num_arcs(),
    );

    // Find the maximum flow between node 0 and node 4.
    let output = max_flow.solve().expect("failed to solve maximum flow");
    if output.status() != MaxFlowStatus::Optimal {
        println!("Solving the max flow is not optimal!");
    }
    let total_flow = output.get_optimal_flow();
    println!("Maximum flow: {total_flow}");
    println!();
    println!(" Arc  : Flow / Capacity");
    for arc in arc_indices {
        println!(
            "{tail} -> {head}: {flow} / {capacity}",
            tail = graph.tail(arc).unwrap(),
            head = graph.head(arc).unwrap(),
            flow = output.flow(arc).unwrap(),
            capacity = output.capacity(arc).unwrap(),
        );
    }

    assert_eq!(total_flow, 60);
}

#[test]
fn max_flow_rejects_equal_source_and_sink() {
    let mut graph = StarGraph::new(3, 2);
    let a0 = graph.add_arc(0, 1);
    graph.add_arc(1, 2);
    let mut max_flow = MaxFlow::new(&graph, 1, 1);
    max_flow.set_arc_capacity(a0, 5);
    assert!(max_flow.solve().is_none());
}

#[test]
fn max_flow_conservation_holds() {
    // A diamond: everything entering an inner node leaves it again.
    let mut graph = StarGraph::new(4, 5);
    let arcs = [
        graph.add_arc(0, 1),
        graph.add_arc(0, 2),
        graph.add_arc(1, 3),
        graph.add_arc(2, 3),
        graph.add_arc(1, 2),
    ];
    let caps: [i64; 5] = [7, 4, 5, 6, 3];
    let mut max_flow = MaxFlow::new(&graph, 0, 3);
    for (arc, cap) in arcs.iter().zip(caps.iter()) {
        max_flow.set_arc_capacity(*arc, *cap);
    }
    let output = max_flow.solve().expect("failed to solve maximum flow");
    assert_eq!(output.status(), MaxFlowStatus::Optimal);
    assert_eq!(output.get_optimal_flow(), 11);
    // Conservation at the two inner nodes, checked from the reported arcs.
    for node in [1u32, 2u32] {
        let mut net: i64 = 0;
        for arc in arcs.iter() {
            if graph.tail(*arc).unwrap() == node {
                net += output.flow(*arc).unwrap();
            }
            if graph.head(*arc).unwrap() == node {
                net -= output.flow(*arc).unwrap();
            }
        }
        assert_eq!(net, 0);
    }
    // Every flow within its capacity.
    for (arc, cap) in arcs.iter().zip(caps.iter()) {
        let f = output.flow(*arc).unwrap();
        assert!(0 <= f && f <= *cap);
    }
}
