//! The constraints that each part of a function body gives rise to.
//!
//! Every rule yields the constraints and equivalences that the part adds,
//! in order, or the error on which the analysis of the part stops.

use crate::analysis::AnalysisCtxt;
use crate::constraints::Constraint;
use crate::context::{Permission, PermissionSet, PointerId};
use crate::error::{AnalysisError, Inconsistent, Unsupported};
use crate::mir::{
    BasicBlockData, Body, Local, Location, Operand, Place, PlaceElem, Rvalue, Statement, Terminator,
};
use crate::ty::{DefId, LTy, Mutability, Ty};
use crate::util::{Callee, classify, last_deref};
use vstd::prelude::*;

verus! {

/// What an analysis has gathered: subset and permission constraints, and
/// pairs of pointer positions that must come out alike.
pub struct Output {
    pub constraints: Seq<Constraint>,
    pub equivs: Seq<(PointerId, PointerId)>,
}

/// What a rule yields.
pub type Outcome = Result<Output, AnalysisError>;

impl Output {
    /// Nothing gathered.
    pub open spec fn empty() -> Output {
        Output { constraints: Seq::empty(), equivs: Seq::empty() }
    }

    /// Constraints and no equivalence.
    pub open spec fn of_constraints(constraints: Seq<Constraint>) -> Output {
        Output { constraints, equivs: Seq::empty() }
    }

    /// Equivalences and no constraint.
    pub open spec fn of_equivs(equivs: Seq<(PointerId, PointerId)>) -> Output {
        Output { constraints: Seq::empty(), equivs }
    }

    /// This output, followed by another.
    pub open spec fn plus(self, other: Output) -> Output {
        Output {
            constraints: self.constraints + other.constraints,
            equivs: self.equivs + other.equivs,
        }
    }

    /// This output begins with all of `base`: nothing was taken away.
    pub open spec fn extends(self, base: Output) -> bool {
        base.constraints.is_prefix_of(self.constraints) && base.equivs.is_prefix_of(self.equivs)
    }
}

/// One rule after another: the first error decides, else the outputs follow
/// each other.
pub open spec fn chain(a: Outcome, b: Outcome) -> Outcome {
    match a {
        Err(e) => Err(e),
        Ok(x) => match b {
            Err(e) => Err(e),
            Ok(y) => Ok(x.plus(y)),
        },
    }
}

/// An input that is not modelled, as an outcome.
pub open spec fn unsupported(u: Unsupported) -> Outcome {
    Err(AnalysisError::Unsupported(u))
}

/// A defect of the input, as an outcome.
pub open spec fn inconsistent(i: Inconsistent) -> Outcome {
    Err(AnalysisError::Inconsistent(i))
}

/// The permissions that reading through a pointer takes.
pub open spec fn read_perms() -> PermissionSet {
    PermissionSet::only(Permission::Read)
}

/// The permissions that writing through a pointer takes.
pub open spec fn write_perms() -> PermissionSet {
    PermissionSet::join(PermissionSet::only(Permission::Read), PermissionSet::only(Permission::Write))
}

/// The permissions that offsetting a pointer takes: the direction is not
/// known, so both.
pub open spec fn offset_perms() -> PermissionSet {
    PermissionSet::join(
        PermissionSet::only(Permission::OffsetAdd),
        PermissionSet::only(Permission::OffsetSub),
    )
}

/// The permissions that freeing through a pointer takes.
pub open spec fn free_perms() -> PermissionSet {
    PermissionSet::only(Permission::Free)
}

/// A memory access through a pointer: it must allow reading, and writing
/// too where the place is written.  What is not a pointer is passed over.
pub open spec fn access(ptr: PointerId, mutbl: Mutability) -> Seq<Constraint> {
    if ptr.is_none() {
        Seq::empty()
    } else {
        match mutbl {
            Mutability::Mut => seq![Constraint::AllPerms(ptr, write_perms())],
            Mutability::Not => seq![Constraint::AllPerms(ptr, read_perms())],
        }
    }
}

/// The accesses of the dereferences among the first `k` steps of a place
/// that is well typed that far, in order.
pub open spec fn place_accesses(
    acx: AnalysisCtxt,
    local: Local,
    steps: Seq<PlaceElem>,
    mutbl: Mutability,
    k: int,
) -> Seq<Constraint>
    decreases k,
{
    if k <= 0 {
        Seq::empty()
    } else {
        let before = place_accesses(acx, local, steps, mutbl, k - 1);
        if steps[k - 1] is Deref {
            before + access(acx.place_ty(local, steps, k - 1)->Ok_0.label, mutbl)
        } else {
            before
        }
    }
}

/// Visiting a place: every dereference on its path is an access.
pub open spec fn place_rule(
    acx: AnalysisCtxt,
    local: Local,
    steps: Seq<PlaceElem>,
    mutbl: Mutability,
) -> Outcome {
    match acx.ty_of_place(local, steps) {
        Ok(_) => Ok(
            Output::of_constraints(place_accesses(acx, local, steps, mutbl, steps.len() as int)),
        ),
        Err(e) => Err(e),
    }
}

/// Visiting an operand: its place is read; a constant adds nothing.
pub open spec fn operand_rule(acx: AnalysisCtxt, op: Operand) -> Outcome {
    match op {
        Operand::Copy(pl) | Operand::Move(pl) => place_rule(
            acx,
            pl.local,
            pl.projection@,
            Mutability::Not,
        ),
        Operand::Constant(_) => Ok(Output::empty()),
    }
}

/// The first `k` operands are visited in order.
pub open spec fn operands_rule(acx: AnalysisCtxt, ops: Seq<Operand>, k: int) -> Outcome
    decreases k,
{
    if k <= 0 {
        Ok(Output::empty())
    } else {
        chain(operands_rule(acx, ops, k - 1), operand_rule(acx, ops[k - 1]))
    }
}

/// The outermost pointers of the two sides of an assignment: the
/// destination may drop permissions of the source and never add one, so its
/// permissions are a subset.  Where neither side is a pointer nothing is
/// added; where only one is, the input is defective.
pub open spec fn assign_ids_rule(dest: PointerId, src: PointerId) -> Outcome {
    if dest.is_none() && src.is_none() {
        Ok(Output::empty())
    } else if dest.is_none() || src.is_none() {
        inconsistent(Inconsistent::LabelMismatch)
    } else {
        Ok(Output::of_constraints(seq![Constraint::Subset(dest, src)]))
    }
}

/// Unifying two labelled types of the same type: the pointers at every
/// position are made equivalent.
pub open spec fn unify_rule(a: LTy, b: LTy) -> Outcome {
    if !a.same_type(b) {
        inconsistent(Inconsistent::TypeMismatch)
    } else if !a.labels_match(b) {
        inconsistent(Inconsistent::LabelMismatch)
    } else {
        Ok(Output::of_equivs(a.paired(b)))
    }
}

/// Unifying a labelled type with a type that carries no label: it must have
/// that type and carry no label itself, and nothing is added.
pub open spec fn unify_unlabeled_rule(a: LTy, ty: Ty) -> Outcome {
    if !a.has_type(ty) {
        inconsistent(Inconsistent::TypeMismatch)
    } else if !a.label_free() {
        inconsistent(Inconsistent::LabelMismatch)
    } else {
        Ok(Output::empty())
    }
}

/// The labels of the arguments of two labelled types match.
pub open spec fn args_match(a: LTy, b: LTy) -> bool {
    forall|i: int| 0 <= i < a.args.len() ==> (#[trigger] a.args[i]).labels_match(b.args[i])
}

/// The nested pointers of two labelled types of the same type, all but the
/// outermost, are made equivalent: a cast cannot change them.
pub open spec fn nested_rule(a: LTy, b: LTy) -> Outcome {
    if !a.same_type(b) {
        inconsistent(Inconsistent::TypeMismatch)
    } else if !args_match(a, b) {
        inconsistent(Inconsistent::LabelMismatch)
    } else {
        Ok(Output::of_equivs(LTy::paired_args(a.args@, b.args@, a.args.len() as int)))
    }
}

/// An assignment of a value of labelled type `src` to a place of labelled
/// type `dest`: a subset constraint for the outermost pointers, equivalences
/// for the nested ones.
pub open spec fn assign_rule(dest: LTy, src: LTy) -> Outcome {
    chain(assign_ids_rule(dest.label, src.label), nested_rule(dest, src))
}

/// A rule that needs a labelled type which may have failed to compute.
pub open spec fn with_ty(ty: Result<LTy, AnalysisError>, rule: spec_fn(LTy) -> Outcome) -> Outcome {
    match ty {
        Ok(lty) => rule(lty),
        Err(e) => Err(e),
    }
}

/// Each of the first `k` operands is assigned to an element of labelled
/// type `elem`.
pub open spec fn elements_rule(acx: AnalysisCtxt, elem: LTy, ops: Seq<Operand>, k: int) -> Outcome
    decreases k,
{
    if k <= 0 {
        Ok(Output::empty())
    } else {
        chain(
            elements_rule(acx, elem, ops, k - 1),
            with_ty(acx.operand_ty(ops[k - 1]), |op_lty: LTy| assign_rule(elem, op_lty)),
        )
    }
}

/// Visiting the address of a place: the place is split at its last
/// dereference, and the part before it is read.  That last dereference only
/// computes an address and is no access.  The address of a part of a local
/// adds nothing.
pub open spec fn address_rule(acx: AnalysisCtxt, pl: Place) -> Outcome {
    match last_deref(pl.projection@, pl.projection@.len() as int) {
        Some(i) => place_rule(acx, pl.local, pl.projection@.subrange(0, i), Mutability::Not),
        None => Ok(Output::empty()),
    }
}

/// Visiting a value expression of labelled type `lty`.
pub open spec fn rvalue_rule(acx: AnalysisCtxt, rv: Rvalue, lty: LTy) -> Outcome {
    match rv {
        Rvalue::Use(op) => operand_rule(acx, op),
        Rvalue::Ref(_, pl) | Rvalue::AddressOf(_, pl) => address_rule(acx, pl),
        Rvalue::Repeat(_) => unsupported(Unsupported::Repeat),
        Rvalue::ThreadLocalRef(_) => unsupported(Unsupported::ThreadLocalRef),
        Rvalue::Len(pl) => place_rule(acx, pl.local, pl.projection@, Mutability::Not),
        Rvalue::Cast(op) => operand_rule(acx, op),
        Rvalue::BinaryOp(op, a, b) | Rvalue::CheckedBinaryOp(op, a, b) => if op is Offset {
            unsupported(Unsupported::OffsetOperator)
        } else {
            chain(operand_rule(acx, a), operand_rule(acx, b))
        },
        Rvalue::NullaryOp => Ok(Output::empty()),
        Rvalue::UnaryOp(op) => operand_rule(acx, op),
        Rvalue::Aggregate(kind, ops) => chain(
            operands_rule(acx, ops@, ops.len() as int),
            if !(kind is Array) {
                unsupported(Unsupported::Aggregate)
            } else if !(lty.kind is Array && lty.args.len() == 1) {
                inconsistent(Inconsistent::TypeMismatch)
            } else {
                elements_rule(acx, lty.args[0], ops@, ops.len() as int)
            },
        ),
        Rvalue::Discriminant(_) | Rvalue::ShallowInitBox(_) | Rvalue::CopyForDeref(_) => unsupported(
            Unsupported::Rvalue,
        ),
    }
}

/// Visiting a statement.  An assignment writes its place, visits its value
/// and assigns the one to the other; no other statement adds anything.
pub open spec fn statement_rule(acx: AnalysisCtxt, stmt: Statement, loc: Location) -> Outcome {
    match stmt {
        Statement::Assign(pl, rv) => chain(
            place_rule(acx, pl.local, pl.projection@, Mutability::Mut),
            with_ty(
                acx.ty_of_place(pl.local, pl.projection@),
                |pl_lty: LTy|
                    with_ty(
                        acx.rvalue_ty(loc),
                        |rv_lty: LTy|
                            chain(rvalue_rule(acx, rv, rv_lty), assign_rule(pl_lty, rv_lty)),
                    ),
            ),
        ),
        Statement::Other => Ok(Output::empty()),
    }
}

/// A permission that a pointer must have.
pub open spec fn floor(ptr: PointerId, perms: PermissionSet) -> Outcome {
    Ok(Output::of_constraints(seq![Constraint::AllPerms(ptr, perms)]))
}

/// A call must have exactly so many arguments.
pub open spec fn arity(args: Seq<Operand>, n: nat) -> Outcome {
    if args.len() == n {
        Ok(Output::empty())
    } else {
        inconsistent(Inconsistent::ArgumentCount)
    }
}

/// Taking a raw pointer to the elements of a slice, an array or a string.
/// The element type of the pointer that comes out is unified with the
/// element type of what goes in (a byte, without label, for a string), and
/// the outer pointers are linked by a subset constraint.
pub open spec fn slice_as_ptr_rule(dest: LTy, src: LTy, elem_ty: Ty) -> Outcome {
    if src.args.len() == 0 {
        inconsistent(Inconsistent::Projection)
    } else {
        let pointee = src.args[0];
        if !(pointee.kind is Str || ((pointee.kind is Array || pointee.kind is Slice)
            && pointee.args.len() > 0)) {
            inconsistent(Inconsistent::Projection)
        } else if dest.args.len() == 0 {
            inconsistent(Inconsistent::Projection)
        } else {
            chain(
                if pointee.kind is Str {
                    unify_unlabeled_rule(dest.args[0], elem_ty)
                } else {
                    unify_rule(dest.args[0], pointee.args[0])
                },
                assign_ids_rule(dest.label, src.label),
            )
        }
    }
}

/// The first `k` arguments of a call are each visited and assigned to the
/// parameter they are passed for.
pub open spec fn arguments_rule(acx: AnalysisCtxt, args: Seq<Operand>, inputs: Seq<LTy>, k: int) -> Outcome
    decreases k,
{
    if k <= 0 {
        Ok(Output::empty())
    } else {
        chain(
            arguments_rule(acx, args, inputs, k - 1),
            chain(
                operand_rule(acx, args[k - 1]),
                with_ty(
                    acx.operand_ty(args[k - 1]),
                    |arg_lty: LTy| assign_rule(inputs[k - 1], arg_lty),
                ),
            ),
        )
    }
}

/// The smaller of two lengths.
pub open spec fn shorter(a: nat, b: nat) -> int {
    if a <= b {
        a as int
    } else {
        b as int
    }
}

/// A call of a function of the crate under analysis.  Its signature must be
/// known and the call must not instantiate generic arguments.  Each argument
/// is assigned to its parameter, and the declared return type to the
/// destination.
pub open spec fn call_other_rule(
    acx: AnalysisCtxt,
    def_id: DefId,
    substs: Seq<Ty>,
    args: Seq<Operand>,
    dest: Place,
) -> Outcome {
    match acx.sig_of(def_id) {
        None => unsupported(Unsupported::UnknownSignature),
        Some(sig) => if substs.len() > 0 {
            unsupported(Unsupported::GenericCall)
        } else {
            chain(
                arguments_rule(acx, args, sig.inputs@, shorter(args.len(), sig.inputs@.len())),
                chain(
                    place_rule(acx, dest.local, dest.projection@, Mutability::Mut),
                    with_ty(
                        acx.ty_of_place(dest.local, dest.projection@),
                        |dest_lty: LTy| assign_rule(dest_lty, sig.output),
                    ),
                ),
            )
        },
    }
}

/// Writing the destination of a call, then the rule that needs its labelled
/// type.
pub open spec fn into_dest(acx: AnalysisCtxt, dest: Place, rule: spec_fn(LTy) -> Outcome) -> Outcome {
    chain(
        place_rule(acx, dest.local, dest.projection@, Mutability::Mut),
        with_ty(acx.ty_of_place(dest.local, dest.projection@), rule),
    )
}

/// Reading the first argument of a call, then the rule that needs its
/// labelled type.
pub open spec fn from_first(acx: AnalysisCtxt, args: Seq<Operand>, rule: spec_fn(LTy) -> Outcome) -> Outcome {
    chain(operand_rule(acx, args[0]), with_ty(acx.operand_ty(args[0]), rule))
}

/// A call, by the class of its target.
pub open spec fn call_rule(acx: AnalysisCtxt, callee: Callee<'_>, args: Seq<Operand>, dest: Place) -> Outcome {
    match callee {
        Callee::Trivial => Ok(Output::empty()),
        Callee::UnknownDef { .. } => unsupported(Unsupported::UnknownCallee),
        Callee::LocalDef { def_id, substs } => call_other_rule(acx, def_id, substs@, args, dest),
        Callee::PtrOffset { .. } => into_dest(
            acx,
            dest,
            |pl_lty: LTy|
                chain(
                    arity(args, 2),
                    from_first(
                        acx,
                        args,
                        |rv_lty: LTy|
                            chain(assign_rule(pl_lty, rv_lty), floor(rv_lty.label, offset_perms())),
                    ),
                ),
        ),
        Callee::SliceAsPtr { elem_ty, .. } => into_dest(
            acx,
            dest,
            |pl_lty: LTy|
                chain(
                    arity(args, 1),
                    from_first(acx, args, |rv_lty: LTy| slice_as_ptr_rule(pl_lty, rv_lty, *elem_ty)),
                ),
        ),
        Callee::Malloc | Callee::Calloc => place_rule(
            acx,
            dest.local,
            dest.projection@,
            Mutability::Mut,
        ),
        Callee::Realloc => into_dest(
            acx,
            dest,
            |pl_lty: LTy|
                chain(
                    arity(args, 2),
                    from_first(
                        acx,
                        args,
                        |rv_lty: LTy|
                            chain(floor(rv_lty.label, free_perms()), nested_rule(pl_lty, rv_lty)),
                    ),
                ),
        ),
        Callee::Free => into_dest(
            acx,
            dest,
            |pl_lty: LTy|
                chain(
                    arity(args, 1),
                    from_first(acx, args, |rv_lty: LTy| floor(rv_lty.label, free_perms())),
                ),
        ),
        Callee::IsNull => chain(arity(args, 1), operand_rule(acx, args[0])),
    }
}

/// Visiting the end of a block.  A call is classified and handled by its
/// class; nothing else adds anything.
pub open spec fn terminator_rule(acx: AnalysisCtxt, term: Terminator) -> Outcome {
    match term {
        Terminator::Call { func, args, destination } => match classify(&acx.tcx, &func) {
            Ok(callee) => call_rule(acx, callee, args@, destination),
            Err(e) => Err(e),
        },
        Terminator::Other => Ok(Output::empty()),
    }
}

/// The first `k` statements of block `bb`, in order.
pub open spec fn statements_rule(acx: AnalysisCtxt, stmts: Seq<Statement>, bb: usize, k: int) -> Outcome
    decreases k,
{
    if k <= 0 {
        Ok(Output::empty())
    } else {
        chain(
            statements_rule(acx, stmts, bb, k - 1),
            statement_rule(
                acx,
                stmts[k - 1],
                Location { block: bb, statement_index: (k - 1) as usize },
            ),
        )
    }
}

/// A block: its statements in order, then its end.
pub open spec fn block_rule(acx: AnalysisCtxt, block: BasicBlockData, bb: usize) -> Outcome {
    chain(
        statements_rule(acx, block.statements@, bb, block.statements.len() as int),
        terminator_rule(acx, block.terminator),
    )
}

/// The first `k` blocks of a body, in order.
pub open spec fn blocks_rule(acx: AnalysisCtxt, blocks: Seq<BasicBlockData>, k: int) -> Outcome
    decreases k,
{
    if k <= 0 {
        Ok(Output::empty())
    } else {
        chain(blocks_rule(acx, blocks, k - 1), block_rule(acx, blocks[k - 1], (k - 1) as usize))
    }
}

/// A function body: every statement and the end of every block, block by
/// block.
pub open spec fn body_rule(acx: AnalysisCtxt, body: Body) -> Outcome {
    blocks_rule(acx, body.basic_blocks@, body.basic_blocks.len() as int)
}

} // verus!
