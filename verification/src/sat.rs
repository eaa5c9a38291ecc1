//! Constraint-programming model building blocks.

pub mod cp_model;
