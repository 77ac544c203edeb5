//! The store of dataflow constraints.

use crate::context::{PermissionSet, PointerId};
use vstd::prelude::*;

verus! {

/// A constraint between the permission sets of pointer positions.
#[derive(Clone, Copy, Debug, PartialEq, Eq, Structural, Hash)]
pub enum Constraint {
    /// The permissions of the first are a subset of those of the second.
    Subset(PointerId, PointerId),
    /// The permissions of the pointer include all of the given set.
    AllPerms(PointerId, PermissionSet),
}

impl Constraint {
    /// The constraint speaks of the identity.
    pub open spec fn mentions(self, p: PointerId) -> bool {
        match self {
            Constraint::Subset(a, b) => a == p || b == p,
            Constraint::AllPerms(a, _) => a == p,
        }
    }
}

/// The constraints gathered so far, in the order in which they were added.
#[derive(Debug)]
pub struct DataflowConstraints {
    pub constraints: Vec<Constraint>,
}

impl View for DataflowConstraints {
    type V = Seq<Constraint>;

    open spec fn view(&self) -> Seq<Constraint> {
        self.constraints@
    }
}

impl DataflowConstraints {
    /// A store without constraints.
    pub fn new() -> (c: DataflowConstraints)
        ensures
            c@ == Seq::<Constraint>::empty(),
    {
        DataflowConstraints { constraints: Vec::new() }
    }

    /// Records that the permissions of `a` are a subset of those of `b`.
    pub fn add_subset(&mut self, a: PointerId, b: PointerId)
        ensures
            final(self)@ == old(self)@.push(Constraint::Subset(a, b)),
    {
        self.constraints.push(Constraint::Subset(a, b));
    }

    /// Records that the permissions of `ptr` include all of `perms`.
    pub fn add_all_perms(&mut self, ptr: PointerId, perms: PermissionSet)
        ensures
            final(self)@ == old(self)@.push(Constraint::AllPerms(ptr, perms)),
    {
        self.constraints.push(Constraint::AllPerms(ptr, perms));
    }
}

} // verus!
