//! Small general-purpose helpers.

pub mod guard;
