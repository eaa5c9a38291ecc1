//! A vehicle-routing modelling library: node/index management, callback
//! registration, path and dimension variables, and read-only access to a
//! solved assignment, together with small network-flow solvers sharing the
//! same feasibility-checking style.

pub mod constraint_solver;
pub mod graph;
pub mod sat;
pub mod utils;
