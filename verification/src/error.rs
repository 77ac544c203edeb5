//! Why an analysis stops.

use vstd::prelude::*;

verus! {

/// An input shape that the analysis does not model.  It is reported and
/// never approximated: a guess could leave a permission out.
#[derive(Clone, Copy, Debug, PartialEq, Eq, Structural, Hash)]
pub enum Unsupported {
    /// A repeat expression.
    Repeat,
    /// A reference to a thread-local.
    ThreadLocalRef,
    /// The raw pointer-offset operator.
    OffsetOperator,
    /// An aggregate that is not an array.
    Aggregate,
    /// Any other value expression that is not modelled.
    Rvalue,
    /// A subslice projection.
    Subslice,
    /// A downcast projection.
    Downcast,
    /// A call of a generic instantiation.
    GenericCall,
    /// A call of a local function whose signature is not known.
    UnknownSignature,
    /// A call of a function without a definition that takes or returns a
    /// pointer.
    UnknownCallee,
}

/// A defect in what the surrounding driver handed over.
#[derive(Clone, Copy, Debug, PartialEq, Eq, Structural, Hash)]
pub enum Inconsistent {
    /// The two sides of an assignment or unification differ in type.
    TypeMismatch,
    /// A position is a pointer on one side and none on the other.
    LabelMismatch,
    /// A projection was applied to a type that does not have it.
    Projection,
    /// A type that should be a pointer, an array or a slice is none of
    /// them.
    InnerType,
    /// A lookup found no entry.
    MissingEntry,
    /// A call has the wrong number of arguments.
    ArgumentCount,
}

/// Why an analysis stopped.
#[derive(Clone, Copy, Debug, PartialEq, Eq, Structural, Hash)]
pub enum AnalysisError {
    Unsupported(Unsupported),
    Inconsistent(Inconsistent),
}

} // verus!
