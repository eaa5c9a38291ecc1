//! Variables and expressions of the constraint model.

use vstd::prelude::*;

verus! {

/// An integer variable of a model.
///
/// A variable is addressed by its slot in the owning model's valuation; the
/// model that created the variable is the only one whose assignments give it
/// a meaning.
#[derive(Clone, Copy, Debug, PartialEq, Eq, Structural, Hash)]
pub struct IntVar {
    /// Slot of this variable in the owning model's valuation.
    pub id: usize,
}

impl IntVar {
    /// Builds the variable descriptor for slot `id`.
    pub fn new(id: usize) -> (r: IntVar)
        ensures
            r.id == id,
    {
        IntVar { id }
    }
}

/// An expression that a model can evaluate; every expression resolves to the
/// slot of one integer variable.
pub trait Expr {
    /// The valuation slot this expression resolves to.
    fn var_id(&self) -> usize;
}

impl Expr for IntVar {
    fn var_id(&self) -> (r: usize)
        ensures
            r == self.id,
    {
        self.id
    }
}

} // verus!
