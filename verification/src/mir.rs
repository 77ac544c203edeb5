//! The intermediate representation of a function body, as far as the
//! analysis reads it.

use crate::ty::{DefId, LTy, Mutability, Ty};
use vstd::prelude::*;

verus! {

/// A local variable, by index.
pub type Local = usize;

/// One step of the path from a local to a place.
#[derive(Clone, Copy, Debug, PartialEq, Eq, Structural, Hash)]
pub enum PlaceElem {
    /// Through a pointer or reference to its pointee.
    Deref,
    /// To a field, by index.
    Field(u32),
    /// To an element, by an index held in a local.
    Index(Local),
    /// To an element, by a constant index.
    ConstantIndex,
    /// To a part of a slice.
    Subslice,
    /// To one variant of an enum.
    Downcast,
}

/// A place: a local and the path from it.
#[derive(Debug)]
pub struct Place {
    pub local: Local,
    pub projection: Vec<PlaceElem>,
}

/// A borrowed place.
#[derive(Clone, Copy, Debug)]
pub struct PlaceRef<'a> {
    pub local: Local,
    pub projection: &'a [PlaceElem],
}

impl Place {
    /// Borrows the place.
    pub fn as_ref(&self) -> (r: PlaceRef<'_>)
        ensures
            r.local == self.local,
            r.projection@ == self.projection@,
    {
        PlaceRef { local: self.local, projection: self.projection.as_slice() }
    }
}

/// The argument of an operation.
#[derive(Debug)]
pub enum Operand {
    Copy(Place),
    Move(Place),
    /// A constant, with its labelled type.
    Constant(LTy),
}

/// A binary operator.
#[derive(Clone, Copy, Debug, PartialEq, Eq, Structural, Hash)]
pub enum BinOp {
    Add,
    Sub,
    Mul,
    Div,
    Rem,
    BitXor,
    BitAnd,
    BitOr,
    Shl,
    Shr,
    Eq,
    Lt,
    Le,
    Ne,
    Ge,
    Gt,
    /// The raw pointer-offset operator.
    Offset,
}

/// What an aggregate expression builds.
#[derive(Clone, Copy, Debug, PartialEq, Eq, Structural, Hash)]
pub enum AggregateKind {
    Array,
    Tuple,
    Adt(DefId),
    Closure(DefId),
}

/// An expression that yields a value.
#[derive(Debug)]
pub enum Rvalue {
    Use(Operand),
    Repeat(Operand),
    Ref(Mutability, Place),
    ThreadLocalRef(DefId),
    AddressOf(Mutability, Place),
    Len(Place),
    Cast(Operand),
    BinaryOp(BinOp, Operand, Operand),
    CheckedBinaryOp(BinOp, Operand, Operand),
    NullaryOp,
    UnaryOp(Operand),
    Discriminant(Place),
    Aggregate(AggregateKind, Vec<Operand>),
    ShallowInitBox(Operand),
    CopyForDeref(Place),
}

/// A statement.  Only the assignment is analysed.
#[derive(Debug)]
pub enum Statement {
    Assign(Place, Rvalue),
    Other,
}

/// The end of a basic block.  Only the call is analysed.
#[derive(Debug)]
pub enum Terminator {
    Call {
        /// The type of the expression that is called.
        func: Ty,
        args: Vec<Operand>,
        destination: Place,
    },
    Other,
}

/// A basic block.
#[derive(Debug)]
pub struct BasicBlockData {
    pub statements: Vec<Statement>,
    pub terminator: Terminator,
}

/// A function body.
#[derive(Debug)]
pub struct Body {
    pub basic_blocks: Vec<BasicBlockData>,
}

/// The position of a statement: its block and its index there.
#[derive(Clone, Copy, Debug, PartialEq, Eq, Structural, Hash)]
pub struct Location {
    pub block: usize,
    pub statement_index: usize,
}

} // verus!
