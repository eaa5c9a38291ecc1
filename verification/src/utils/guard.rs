//! A holder that keeps a parent value readable while giving out access to a
//! child value that was derived from it.

use vstd::prelude::*;

verus! {

/// A special data type that fixes the parent data type in an immutable state
/// in order to access the mutable content.
pub struct Guard<'parent, Parent, Child> {
    /// The parent value, fixed for the guard's lifetime.
    pub parent: &'parent Parent,
    /// The content carved out of the parent.
    pub child: Child,
}

impl<'parent, Parent, Child> Guard<'parent, Parent, Child> {
    /// Builds a guard over `parent` holding the content `child`.
    pub fn new(parent: &'parent Parent, child: Child) -> (r: Guard<'parent, Parent, Child>)
        ensures
            r.parent == parent,
            r.child == child,
    {
        Guard { parent, child }
    }

    /// Read access to the guarded parent.
    pub fn parent(&self) -> (r: &'parent Parent)
        ensures
            r == self.parent,
    {
        self.parent
    }

    /// Read access to the content.
    pub fn child(&self) -> (r: &Child)
        ensures
            r == &self.child,
    {
        &self.child
    }

    /// Write access to the content; the parent stays fixed.
    pub fn child_mut(&mut self) -> (r: &mut Child)
        ensures
            *r == old(self).child,
            final(self).child == *final(r),
            final(self).parent == old(self).parent,
    {
        &mut self.child
    }

    /// Gives the content back, releasing the parent.
    pub fn into_child(self) -> (r: Child)
        ensures
            r == self.child,
    {
        self.child
    }
}

} // verus!
