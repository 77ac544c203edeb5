//! Types and labelled types.
//!
//! A [`Ty`] is a type with its regions erased, kept as a tree: a node has a
//! kind and the types it is made of.  An [`LTy`] is such a tree in which
//! every node carries a [`PointerId`]; the nodes that are pointers or
//! references carry the identity of that pointer position, all others the
//! identity that stands for "not a pointer".

use crate::context::PointerId;
use vstd::prelude::*;

verus! {

/// Whether a pointer or a use of a place allows writing.
#[derive(Clone, Copy, Debug, PartialEq, Eq, Structural, Hash)]
pub enum Mutability {
    Not,
    Mut,
}

/// Identity of a definition: the crate that holds it and its index there.
#[derive(Clone, Copy, Debug, PartialEq, Eq, Structural, Hash)]
pub struct DefId {
    pub krate: u32,
    pub index: u32,
}

/// The number of the crate under analysis.
pub const LOCAL_CRATE: u32 = 0;

impl DefId {
    /// The definition belongs to the crate under analysis.
    pub open spec fn is_local_spec(self) -> bool {
        self.krate == LOCAL_CRATE
    }

    /// Whether the definition belongs to the crate under analysis.
    #[verifier::when_used_as_spec(is_local_spec)]
    pub fn is_local(self) -> (b: bool)
        ensures
            b == self.is_local_spec(),
    {
        self.krate == LOCAL_CRATE
    }
}

/// The outermost constructor of a type.  The types it is applied to are the
/// arguments of the node that holds the kind.
#[derive(Clone, Copy, Debug, PartialEq, Eq, Structural, Hash)]
pub enum TyKind {
    Bool,
    Char,
    /// A signed integer of so many bits; 0 for the pointer-sized one.
    Int(u8),
    /// An unsigned integer of so many bits; 0 for the pointer-sized one.
    Uint(u8),
    /// A floating point number of so many bits.
    Float(u8),
    Str,
    Never,
    /// A struct, enum or union.  In a [`Ty`] the arguments are the types of
    /// its fields, in a [`LTy`] its type arguments.
    Adt(DefId),
    /// An array of the given length; one argument, the element type.
    Array(u64),
    /// A slice; one argument, the element type.
    Slice,
    /// A raw pointer; one argument, the pointee type.
    RawPtr(Mutability),
    /// A reference; one argument, the pointee type.
    Ref(Mutability),
    /// A tuple; the arguments are the types of its fields.
    Tuple,
    /// The type of a function item; the arguments are those generic
    /// arguments of the instantiation that are not lifetimes.
    FnDef(DefId),
    /// A function pointer; the arguments are the types of the parameters,
    /// then the return type.
    FnPtr,
    /// A generic argument that is a constant.
    Const,
    /// A type parameter.
    Param(u32),
    /// Any other type.
    Other,
}

impl TyKind {
    /// A type of this kind holds no pointer and is made of no other type.
    pub open spec fn is_scalar(self) -> bool {
        self is Bool || self is Char || self is Int || self is Uint || self is Float || self is Str
            || self is Never
    }

    /// A type of this kind holds a pointer exactly when one of the types it
    /// is made of does.
    pub open spec fn is_looked_through(self) -> bool {
        self is Ref || self is Array || self is Slice || self is Tuple || self is Adt
    }

    /// Whether a type of this kind holds no pointer and is made of no other type.
    pub fn scalar(self) -> (b: bool)
        ensures
            b == self.is_scalar(),
    {
        match self {
            TyKind::Bool | TyKind::Char | TyKind::Int(_) | TyKind::Uint(_) | TyKind::Float(_)
            | TyKind::Str | TyKind::Never => true,
            _ => false,
        }
    }

    /// Whether a type of this kind is looked through for pointers.
    pub fn looked_through(self) -> (b: bool)
        ensures
            b == self.is_looked_through(),
    {
        match self {
            TyKind::Ref(_) | TyKind::Array(_) | TyKind::Slice | TyKind::Tuple | TyKind::Adt(_) => true,
            _ => false,
        }
    }
}

/// A type.
#[derive(Debug)]
pub struct Ty {
    pub kind: TyKind,
    pub args: Vec<Ty>,
}

/// A labelled type.
#[derive(Debug)]
pub struct LTy {
    pub kind: TyKind,
    pub label: PointerId,
    pub args: Vec<LTy>,
}

/// The signature of a function.
#[derive(Debug)]
pub struct FnSig {
    pub inputs: Vec<Ty>,
    pub output: Ty,
}

/// The labelled signature of a function.
#[derive(Debug)]
pub struct LFnSig {
    pub inputs: Vec<LTy>,
    pub output: LTy,
}

impl Ty {
    /// No raw pointer can be reached from a value of the type.  References,
    /// arrays, slices, tuples and algebraic types are looked through; a
    /// reference is not itself counted.  A kind of which nothing is known
    /// stands for a type that may hold a pointer.
    pub open spec fn pointer_free(self) -> bool
        decreases self,
    {
        if self.kind.is_scalar() {
            true
        } else if self.kind.is_looked_through() {
            forall|i: int| 0 <= i < self.args.len() ==> (#[trigger] self.args[i]).pointer_free()
        } else {
            false
        }
    }

    /// Whether no raw pointer can be reached from a value of the type.
    pub fn is_trivial(&self) -> (b: bool)
        ensures
            b == self.pointer_free(),
        decreases self,
    {
        if self.kind.scalar() {
            true
        } else if self.kind.looked_through() {
            let len = self.args.len();
            let mut i: usize = 0;
            while i < len
                invariant
                    len == self.args.len(),
                    i <= len,
                    !self.kind.is_scalar(),
                    self.kind.is_looked_through(),
                    forall|j: int| 0 <= j < i ==> (#[trigger] self.args[j]).pointer_free(),
                decreases len - i,
            {
                if !self.args[i].is_trivial() {
                    return false;
                }
                i = i + 1;
            }
            true
        } else {
            false
        }
    }

    /// A type without arguments.
    pub fn leaf(kind: TyKind) -> (t: Ty)
        ensures
            t.kind == kind,
            t.args@ == Seq::<Ty>::empty(),
    {
        Ty { kind, args: Vec::new() }
    }
}

impl FnSig {
    /// No parameter type and not the return type can reach a raw pointer.
    pub open spec fn pointer_free(self) -> bool {
        &&& forall|i: int| 0 <= i < self.inputs.len() ==> (#[trigger] self.inputs[i]).pointer_free()
        &&& self.output.pointer_free()
    }

    /// Whether a call of a function with this signature can be passed over:
    /// it neither takes nor returns anything that reaches a raw pointer.
    pub fn is_trivial(&self) -> (b: bool)
        ensures
            b == self.pointer_free(),
    {
        let len = self.inputs.len();
        let mut i: usize = 0;
        while i < len
            invariant
                len == self.inputs.len(),
                i <= len,
                forall|j: int| 0 <= j < i ==> (#[trigger] self.inputs[j]).pointer_free(),
            decreases len - i,
        {
            if !self.inputs[i].is_trivial() {
                return false;
            }
            i = i + 1;
        }
        self.output.is_trivial()
    }
}

/// The two identities are both a pointer or both none.
pub open spec fn labels_agree(a: PointerId, b: PointerId) -> bool {
    a.is_none() == b.is_none()
}

impl LTy {
    /// A labelled type without arguments that is not a pointer.
    pub fn leaf(kind: TyKind) -> (t: LTy)
        ensures
            t.kind == kind,
            t.label == PointerId::none(),
            t.args@ == Seq::<LTy>::empty(),
    {
        LTy { kind, label: PointerId::none(), args: Vec::new() }
    }

    /// The two labelled types have the same underlying type: node by node
    /// the same kind and the same number of arguments.
    pub open spec fn same_type(self, other: LTy) -> bool
        decreases self,
    {
        &&& self.kind == other.kind
        &&& self.args.len() == other.args.len()
        &&& forall|i: int|
            0 <= i < self.args.len() ==> (#[trigger] self.args[i]).same_type(other.args[i])
    }

    /// Whether the two labelled types have the same underlying type.
    pub fn has_same_type(&self, other: &LTy) -> (b: bool)
        ensures
            b == self.same_type(*other),
        decreases self,
    {
        if self.kind != other.kind || self.args.len() != other.args.len() {
            return false;
        }
        let len = self.args.len();
        let mut i: usize = 0;
        while i < len
            invariant
                len == self.args.len(),
                len == other.args.len(),
                i <= len,
                forall|j: int| 0 <= j < i ==> (#[trigger] self.args[j]).same_type(other.args[j]),
            decreases len - i,
        {
            if !self.args[i].has_same_type(&other.args[i]) {
                return false;
            }
            i = i + 1;
        }
        true
    }

    /// The labelled type is the given type with no position labelled.
    pub open spec fn is_unlabeled(self, ty: Ty) -> bool
        decreases self,
    {
        &&& self.kind == ty.kind
        &&& self.label.is_none()
        &&& self.args.len() == ty.args.len()
        &&& forall|i: int|
            0 <= i < self.args.len() ==> (#[trigger] self.args[i]).is_unlabeled(ty.args[i])
    }

    /// Labels no position of a type.
    pub fn unlabeled(ty: &Ty) -> (t: LTy)
        ensures
            t.is_unlabeled(*ty),
        decreases ty,
    {
        let len = ty.args.len();
        let mut args: Vec<LTy> = Vec::new();
        let mut i: usize = 0;
        while i < len
            invariant
                len == ty.args.len(),
                i <= len,
                args.len() == i,
                forall|j: int| 0 <= j < i ==> (#[trigger] args[j]).is_unlabeled(ty.args[j]),
            decreases len - i,
        {
            args.push(LTy::unlabeled(&ty.args[i]));
            i = i + 1;
        }
        LTy { kind: ty.kind, label: PointerId::none(), args }
    }

    /// The identity labels some position of the labelled type.
    pub open spec fn mentions(self, p: PointerId) -> bool
        decreases self,
    {
        self.label == p || exists|i: int|
            0 <= i < self.args.len() && (#[trigger] self.args[i]).mentions(p)
    }

    /// At every position the two labelled types are both a pointer or both
    /// none.  The second is read as far as it has the shape of the first.
    pub open spec fn labels_match(self, other: LTy) -> bool
        decreases self,
    {
        &&& labels_agree(self.label, other.label)
        &&& forall|i: int|
            0 <= i < self.args.len() ==> (#[trigger] self.args[i]).labels_match(other.args[i])
    }

    /// The pairs of identities at the pointer positions of two labelled
    /// types of the same type, outermost first and then argument by
    /// argument.
    pub open spec fn paired(self, other: LTy) -> Seq<(PointerId, PointerId)>
        decreases self,
    {
        let head = if self.label.is_none() && other.label.is_none() {
            Seq::<(PointerId, PointerId)>::empty()
        } else {
            seq![(self.label, other.label)]
        };
        head + Self::paired_args(self.args@, other.args@, self.args.len() as int)
    }

    /// The pairs of the first `k` arguments of two labelled types, one
    /// argument after the other.
    pub open spec fn paired_args(xs: Seq<LTy>, ys: Seq<LTy>, k: int) -> Seq<(PointerId, PointerId)>
        decreases xs, k,
    {
        if k <= 0 || k > xs.len() {
            Seq::empty()
        } else {
            Self::paired_args(xs, ys, k - 1) + xs[k - 1].paired(ys[k - 1])
        }
    }
}

impl LTy {
    /// The labelled type has the given type: node by node the same kind and
    /// the same number of arguments.
    pub open spec fn has_type(self, ty: Ty) -> bool
        decreases self,
    {
        &&& self.kind == ty.kind
        &&& self.args.len() == ty.args.len()
        &&& forall|i: int|
            0 <= i < self.args.len() ==> (#[trigger] self.args[i]).has_type(ty.args[i])
    }

    /// No position of the labelled type is a pointer.
    pub open spec fn label_free(self) -> bool
        decreases self,
    {
        &&& self.label.is_none()
        &&& forall|i: int| 0 <= i < self.args.len() ==> (#[trigger] self.args[i]).label_free()
    }

    /// No pairs come from arguments that are all free of labels.
    pub proof fn lemma_no_pairs(xs: Seq<LTy>, ys: Seq<LTy>, k: int)
        requires
            0 <= k <= xs.len(),
            forall|i: int|
                0 <= i < k ==> (#[trigger] xs[i]).paired(ys[i]) == Seq::<
                    (PointerId, PointerId),
                >::empty(),
        ensures
            Self::paired_args(xs, ys, k) == Seq::<(PointerId, PointerId)>::empty(),
        decreases k,
    {
        if k > 0 {
            Self::lemma_no_pairs(xs, ys, k - 1);
        }
    }

    /// Unifying with a type that carries no label: the types are the same
    /// exactly when this one has the underlying type; then the labels match
    /// exactly when this one carries none either, and no pair comes of it.
    pub proof fn lemma_against_unlabeled(self, other: LTy, ty: Ty)
        requires
            other.is_unlabeled(ty),
        ensures
            self.same_type(other) == self.has_type(ty),
            self.same_type(other) ==> self.labels_match(other) == self.label_free(),
            self.same_type(other) && self.label_free() ==> self.paired(other) == Seq::<
                (PointerId, PointerId),
            >::empty(),
        decreases self,
    {
        if self.kind == other.kind && self.args.len() == other.args.len() {
            assert forall|i: int| 0 <= i < self.args.len() implies {
                &&& (#[trigger] self.args[i]).same_type(other.args[i]) == self.args[i].has_type(
                    ty.args[i],
                )
                &&& self.args[i].same_type(other.args[i]) ==> self.args[i].labels_match(
                    other.args[i],
                ) == self.args[i].label_free()
                &&& self.args[i].same_type(other.args[i]) && self.args[i].label_free()
                    ==> self.args[i].paired(other.args[i]) == Seq::<(PointerId, PointerId)>::empty()
            } by {
                self.args[i].lemma_against_unlabeled(other.args[i], ty.args[i]);
            }
            if self.same_type(other) && self.label_free() {
                Self::lemma_no_pairs(self.args@, other.args@, self.args.len() as int);
            }
        }
    }
}

impl LTy {
    /// The path leads to a position of the labelled type: each of its steps
    /// is the index of an argument.
    pub open spec fn has_path(self, path: Seq<int>) -> bool
        decreases path.len(),
    {
        path.len() == 0 || (0 <= path[0] < self.args.len() && self.args[path[0]].has_path(
            path.drop_first(),
        ))
    }

    /// The labelled type at the position that the path leads to.
    pub open spec fn at(self, path: Seq<int>) -> LTy
        decreases path.len(),
    {
        if path.len() == 0 {
            self
        } else {
            self.args[path[0]].at(path.drop_first())
        }
    }

    /// The pairs of the first `k` arguments hold the pairs of each of them.
    pub proof fn lemma_paired_args_hold(xs: Seq<LTy>, ys: Seq<LTy>, k: int, j: int, pair: (
        PointerId,
        PointerId,
    ))
        requires
            0 <= j < k <= xs.len(),
            xs[j].paired(ys[j]).contains(pair),
        ensures
            Self::paired_args(xs, ys, k).contains(pair),
        decreases k,
    {
        let before = Self::paired_args(xs, ys, k - 1);
        let last = xs[k - 1].paired(ys[k - 1]);
        if j < k - 1 {
            Self::lemma_paired_args_hold(xs, ys, k - 1, j, pair);
            let i = choose|i: int| 0 <= i < before.len() && before[i] == pair;
            assert((before + last)[i] == pair);
        } else {
            let i = choose|i: int| 0 <= i < last.len() && last[i] == pair;
            assert((before + last)[before.len() + i] == pair);
        }
    }

    /// Every pointer position is paired: where a position of two labelled
    /// types is a pointer on either side, the pairs hold the identities of
    /// the two sides at that position.
    pub proof fn lemma_paired_covers(self, other: LTy, path: Seq<int>)
        requires
            self.has_path(path),
            !(self.at(path).label.is_none() && other.at(path).label.is_none()),
        ensures
            self.paired(other).contains((self.at(path).label, other.at(path).label)),
        decreases path.len(),
    {
        let head = if self.label.is_none() && other.label.is_none() {
            Seq::<(PointerId, PointerId)>::empty()
        } else {
            seq![(self.label, other.label)]
        };
        let rest = Self::paired_args(self.args@, other.args@, self.args.len() as int);
        if path.len() == 0 {
            assert((head + rest)[0] == (self.label, other.label));
        } else {
            let j = path[0];
            let pair = (self.at(path).label, other.at(path).label);
            self.args[j].lemma_paired_covers(other.args[j], path.drop_first());
            Self::lemma_paired_args_hold(self.args@, other.args@, self.args.len() as int, j, pair);
            let i = choose|i: int| 0 <= i < rest.len() && rest[i] == pair;
            assert((head + rest)[head.len() + i] == pair);
        }
    }

    /// Nothing but pointer positions is paired: every pair among the first
    /// `k` arguments holds the identities at a position of one of them.
    pub proof fn lemma_paired_args_origin(xs: Seq<LTy>, ys: Seq<LTy>, k: int, i: int) -> (r: (
        int,
        Seq<int>,
    ))
        requires
            0 <= k <= xs.len(),
            0 <= i < Self::paired_args(xs, ys, k).len(),
        ensures
            0 <= r.0 < k,
            xs[r.0].has_path(r.1),
            Self::paired_args(xs, ys, k)[i] == (xs[r.0].at(r.1).label, ys[r.0].at(r.1).label),
            !(xs[r.0].at(r.1).label.is_none() && ys[r.0].at(r.1).label.is_none()),
        decreases xs, k,
    {
        let before = Self::paired_args(xs, ys, k - 1);
        if i < before.len() {
            Self::lemma_paired_args_origin(xs, ys, k - 1, i)
        } else {
            let path = xs[k - 1].lemma_paired_origin(ys[k - 1], i - before.len());
            (k - 1, path)
        }
    }

    /// Nothing but pointer positions is paired: every pair holds the
    /// identities of the two sides at one position, and one of them is a
    /// pointer there.
    pub proof fn lemma_paired_origin(self, other: LTy, i: int) -> (path: Seq<int>)
        requires
            0 <= i < self.paired(other).len(),
        ensures
            self.has_path(path),
            self.paired(other)[i] == (self.at(path).label, other.at(path).label),
            !(self.at(path).label.is_none() && other.at(path).label.is_none()),
        decreases self,
    {
        let head = if self.label.is_none() && other.label.is_none() {
            Seq::<(PointerId, PointerId)>::empty()
        } else {
            seq![(self.label, other.label)]
        };
        if i < head.len() {
            Seq::empty()
        } else {
            let (j, sub) = Self::lemma_paired_args_origin(
                self.args@,
                other.args@,
                self.args.len() as int,
                i - head.len(),
            );
            let path = seq![j] + sub;
            assert(path.drop_first() =~= sub);
            path
        }
    }
}

impl LTy {
    /// Every identity that labels a position of the labelled type, pointer
    /// or not, belongs to the set.
    pub open spec fn labels_in(self, u: Set<PointerId>) -> bool
        decreases self,
    {
        &&& u.contains(self.label)
        &&& forall|i: int| 0 <= i < self.args.len() ==> (#[trigger] self.args[i]).labels_in(u)
    }

    /// The labels of a labelled type are among the identities that it
    /// mentions.
    pub proof fn lemma_labels_mentioned(self, u: Set<PointerId>)
        requires
            forall|p: PointerId| self.mentions(p) ==> u.contains(p),
        ensures
            self.labels_in(u),
        decreases self,
    {
        assert forall|i: int| 0 <= i < self.args.len() implies (#[trigger] self.args[i]).labels_in(
            u,
        ) by {
            self.args[i].lemma_labels_mentioned(u);
        }
    }
}

} // verus!
