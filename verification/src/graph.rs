//! Graph representations and network-flow solvers.

pub mod ebert_graph;
pub mod max_flow;
pub mod min_cost_flow;

pub use ebert_graph::ArcIndex;
pub use ebert_graph::CostValue;
pub use ebert_graph::FlowQuantity;
pub use ebert_graph::NodeIndex;
pub use ebert_graph::StarGraph;
