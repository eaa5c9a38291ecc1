//! Routing model layer: index management, model wiring and solving.

pub mod routing;
pub mod routing_enums;
pub mod routing_index_manager;
pub mod routing_parameters;
pub mod solver_parameters;

use vstd::prelude::*;

use crate::sat::cp_model::IntVar;

verus! {

/// A side constraint between two model variables, to hold in every accepted
/// assignment.
#[derive(Clone, Copy, Debug, PartialEq, Eq, Structural)]
pub enum Constraint {
    /// The two variables take the same value.
    Equality { left: IntVar, right: IntVar },
    /// The left variable's value is at most the right variable's value.
    LessOrEqual { left: IntVar, right: IntVar },
}

/// Whether `c` holds of the valuation `vals`; a constraint over a slot that
/// the valuation does not have cannot be satisfied.
pub open spec fn constraint_holds(c: Constraint, vals: Seq<i64>) -> bool {
    match c {
        Constraint::Equality { left, right } => left.id < vals.len() && right.id < vals.len()
            && vals[left.id as int] == vals[right.id as int],
        Constraint::LessOrEqual { left, right } => left.id < vals.len() && right.id
            < vals.len() && vals[left.id as int] <= vals[right.id as int],
    }
}

/// The store of side constraints that a routing model carries into a solve.
///
/// The search engine proper is out of scope here; this store is the part of
/// its interface that the model wiring needs: constraints are built, added,
/// and held against every candidate assignment.
pub struct Solver {
    constraints: Vec<Constraint>,
}

impl View for Solver {
    type V = Seq<Constraint>;

    closed spec fn view(&self) -> Seq<Constraint> {
        self.constraints@
    }
}

impl Solver {
    /// An empty constraint store.
    pub fn new() -> (r: Solver)
        ensures
            r@ == Seq::<Constraint>::empty(),
    {
        Solver { constraints: Vec::new() }
    }

    /// Builds the constraint `left == right` without adding it.
    pub fn make_equality(&self, left: &IntVar, right: &IntVar) -> (r: Constraint)
        ensures
            r == (Constraint::Equality { left: *left, right: *right }),
    {
        Constraint::Equality { left: *left, right: *right }
    }

    /// Builds the constraint `left <= right` without adding it.
    pub fn make_less_or_equal(&self, left: &IntVar, right: &IntVar) -> (r: Constraint)
        ensures
            r == (Constraint::LessOrEqual { left: *left, right: *right }),
    {
        Constraint::LessOrEqual { left: *left, right: *right }
    }

    /// Adds a built constraint to the store.
    pub fn add_constraint(&mut self, constraint: Constraint)
        ensures
            final(self)@ == old(self)@.push(constraint),
    {
        self.constraints.push(constraint);
    }

    /// How many constraints the store holds.
    pub fn num_constraints(&self) -> (r: usize)
        ensures
            r == self@.len(),
    {
        self.constraints.len()
    }

    /// The constraint at position `k`, if there is one.
    pub fn constraint(&self, k: usize) -> (r: Option<Constraint>)
        ensures
            k < self@.len() ==> r == Some(self@[k as int]),
            k >= self@.len() ==> r is None,
    {
        if k < self.constraints.len() {
            Some(self.constraints[k])
        } else {
            None
        }
    }
}

} // verus!
