//! The constraint generator: a walk over a function body that gathers the
//! constraints of its assignments and calls.
//!
//! For an assignment, the outermost pointer of the destination gets a subset
//! of the permissions of the outermost pointer of the source: the assignment
//! may drop permissions, as a cast would, and never adds one.  All nested
//! pointers are made equivalent, since a cast cannot change them.

use crate::analysis::AnalysisCtxt;
use crate::constraints::{Constraint, DataflowConstraints};
use crate::context::{Permission, PermissionSet, PointerId};
use crate::error::{AnalysisError, Inconsistent, Unsupported};
use crate::mir::{
    AggregateKind, BasicBlockData, BinOp, Body, Location, Operand, Place, PlaceElem, PlaceRef,
    Rvalue, Statement, Terminator,
};
use crate::rules::{
    access, arguments_rule, arity, assign_ids_rule, assign_rule, block_rule, blocks_rule, body_rule,
    call_other_rule, call_rule, chain, elements_rule, floor, free_perms, from_first, inconsistent,
    into_dest, nested_rule, offset_perms, operand_rule, operands_rule, Outcome, Output,
    place_accesses, place_rule, rvalue_rule, shorter, slice_as_ptr_rule, statement_rule,
    statements_rule, terminator_rule, unify_rule, unify_unlabeled_rule, unsupported, with_ty,
};
use crate::ty::{DefId, LTy, Mutability, Ty, TyKind};
use crate::util::{Callee, describe_rvalue, RvalueDesc, ty_callee};
use vstd::prelude::*;

verus! {

/// A step that was to follow `expected` went from `before` to `after` and
/// returned `r`.  Where the rule yields an output, the step succeeded and
/// added exactly that output.  Where the rule yields an error, the step
/// returned that error; what had been gathered is still there, and what the
/// step added before it stopped is of no account.
pub open spec fn performs(
    before: Output,
    after: Output,
    r: Result<(), AnalysisError>,
    expected: Outcome,
) -> bool {
    match expected {
        Ok(out) => {
            &&& r is Ok
            &&& after.constraints =~= before.constraints + out.constraints
            &&& after.equivs =~= before.equivs + out.equivs
        },
        Err(e) => r == Err::<(), AnalysisError>(e) && after.extends(before),
    }
}

/// Nothing that a walk has gathered is ever taken away, whether a step
/// succeeds or fails.
pub proof fn lemma_performs_extends(
    before: Output,
    after: Output,
    r: Result<(), AnalysisError>,
    expected: Outcome,
)
    requires
        performs(before, after, r, expected),
    ensures
        after.extends(before),
{
}

/// The walk over one function body.
pub struct TypeChecker<'a> {
    acx: &'a AnalysisCtxt,
    /// Subset and permission constraints gathered so far.
    constraints: DataflowConstraints,
    /// Pairs of pointer positions that must get the same permissions and
    /// flags, gathered so far.
    equiv_constraints: Vec<(PointerId, PointerId)>,
}

impl<'a> View for TypeChecker<'a> {
    type V = Output;

    closed spec fn view(&self) -> Output {
        Output { constraints: self.constraints@, equivs: self.equiv_constraints@ }
    }
}

impl<'a> TypeChecker<'a> {
    /// The labelled types that the walk reads.
    pub closed spec fn ctxt(&self) -> AnalysisCtxt {
        *self.acx
    }

    /// The walk reads the same input as `other`.
    pub open spec fn same_input(&self, other: &Self) -> bool {
        self.ctxt() == other.ctxt()
    }

    /// A walk that has gathered nothing yet.
    pub fn new(acx: &'a AnalysisCtxt) -> (tc: TypeChecker<'a>)
        ensures
            tc.ctxt() == *acx,
            tc@ == Output::empty(),
    {
        TypeChecker { acx, constraints: DataflowConstraints::new(), equiv_constraints: Vec::new() }
    }

    /// Hands over what the walk has gathered.
    pub fn finish(self) -> (r: (DataflowConstraints, Vec<(PointerId, PointerId)>))
        ensures
            r.0@ == self@.constraints,
            r.1@ == self@.equivs,
    {
        (self.constraints, self.equiv_constraints)
    }

    /// Records that the value of `src` flows into `dest`.
    fn add_edge(&mut self, src: PointerId, dest: PointerId)
        ensures
            final(self).same_input(old(self)),
            final(self)@.equivs == old(self)@.equivs,
            final(self)@.constraints == old(self)@.constraints.push(Constraint::Subset(dest, src)),
    {
        // Copying `src` to `dest` can discard permissions, but can't add new ones.
        self.constraints.add_subset(dest, src);
    }

    /// Records that `a` and `b` must come out alike.
    fn add_equiv(&mut self, a: PointerId, b: PointerId)
        ensures
            final(self).same_input(old(self)),
            final(self)@.constraints == old(self)@.constraints,
            final(self)@.equivs == old(self)@.equivs.push((a, b)),
    {
        self.equiv_constraints.push((a, b));
    }

    /// Records that `ptr` must have all of `perms`.
    fn add_all_perms(&mut self, ptr: PointerId, perms: PermissionSet)
        ensures
            final(self).same_input(old(self)),
            final(self)@.equivs == old(self)@.equivs,
            final(self)@.constraints == old(self)@.constraints.push(
                Constraint::AllPerms(ptr, perms),
            ),
    {
        self.constraints.add_all_perms(ptr, perms);
    }

    /// Records a memory access through `ptr`.  What is not a pointer is passed
    /// over.
    fn record_access(&mut self, ptr: PointerId, mutbl: Mutability)
        ensures
            final(self).same_input(old(self)),
            final(self)@.equivs == old(self)@.equivs,
            final(self)@.constraints == old(self)@.constraints + access(ptr, mutbl),
            final(self)@.extends(old(self)@),
    {
        if ptr.is_none() {
            return ;
        }
        match mutbl {
            Mutability::Mut => {
                self.add_all_perms(
                    ptr,
                    PermissionSet::single(Permission::Read).union(
                        PermissionSet::single(Permission::Write),
                    ),
                );
            },
            Mutability::Not => {
                self.add_all_perms(ptr, PermissionSet::single(Permission::Read));
            },
        }
    }

    /// Visits a place that is read or, with `Mutability::Mut`, written.
    pub fn visit_place(&mut self, pl: &Place, mutbl: Mutability) -> (r: Result<(), AnalysisError>)
        ensures
            final(self).same_input(old(self)),
            performs(
                old(self)@,
                final(self)@,
                r,
                place_rule(old(self).ctxt(), pl.local, pl.projection@, mutbl),
            ),
    {
        self.visit_place_ref(pl.as_ref(), mutbl)
    }

    /// Visits a borrowed place.  Every dereference on its path loads the
    /// pointer that the next step goes through, so each is an access: a read,
    /// or a write where the place as a whole is written.
    pub fn visit_place_ref(&mut self, pl: PlaceRef<'_>, mutbl: Mutability) -> (r: Result<
        (),
        AnalysisError,
    >)
        ensures
            final(self).same_input(old(self)),
            performs(
                old(self)@,
                final(self)@,
                r,
                place_rule(old(self).ctxt(), pl.local, pl.projection@, mutbl),
            ),
    {
        let acx = self.acx;
        let ghost steps = pl.projection@;
        let mut lty = match acx.type_of_local(pl.local) {
            Ok(lty) => lty,
            Err(e) => {
                proof {
                    acx.lemma_place_ty_error(pl.local, steps, 0, steps.len() as int);
                }
                return Err(e);
            },
        };
        let mut prev_deref_ptr: Option<PointerId> = None;
        let len = pl.projection.len();
        let mut i: usize = 0;
        while i < len
            invariant
                steps == pl.projection@,
                len == steps.len(),
                i <= len,
                *acx == self.ctxt(),
                self.same_input(old(self)),
                acx.place_ty(pl.local, steps, i as int) == Ok::<LTy, AnalysisError>(*lty),
                self@.equivs == old(self)@.equivs,
                self@.extends(old(self)@),
                old(self)@.constraints + place_accesses(*acx, pl.local, steps, mutbl, i as int)
                    =~= self@.constraints + (match prev_deref_ptr {
                    Some(ptr) => access(ptr, mutbl),
                    None => Seq::empty(),
                }),
            decreases len - i,
        {
            match pl.projection[i] {
                PlaceElem::Deref => {
                    // All derefs except the last are loads, to retrieve the pointer for the
                    // next deref.  If the place as a whole is used mutably, the previous
                    // derefs must be mutable as well.
                    match prev_deref_ptr {
                        Some(ptr) => {
                            self.record_access(ptr, mutbl);
                        },
                        None => {},
                    }
                    prev_deref_ptr = Some(lty.label);
                },
                _ => {},
            }
            lty = match acx.project(lty, &pl.projection[i]) {
                Ok(next) => next,
                Err(e) => {
                    proof {
                        acx.lemma_place_ty_error(pl.local, steps, i + 1, steps.len() as int);
                    }
                    return Err(e);
                },
            };
            i = i + 1;
        }
        match prev_deref_ptr {
            Some(ptr) => {
                self.record_access(ptr, mutbl);
            },
            None => {},
        }
        Ok(())
    }

    /// Visits an operand: its place is read; a constant adds nothing.
    pub fn visit_operand(&mut self, op: &Operand) -> (r: Result<(), AnalysisError>)
        ensures
            final(self).same_input(old(self)),
            performs(old(self)@, final(self)@, r, operand_rule(old(self).ctxt(), *op)),
    {
        match op {
            Operand::Copy(pl) | Operand::Move(pl) => self.visit_place(pl, Mutability::Not),
            Operand::Constant(_c) => Ok(()),
        }
    }

    /// Makes the pointers at every position of two labelled types of the
    /// same type equivalent, outermost first.  The types have been compared.
    fn unify_walk(&mut self, lty1: &LTy, lty2: &LTy) -> (r: Result<(), AnalysisError>)
        requires
            lty1.same_type(*lty2),
        ensures
            final(self).same_input(old(self)),
            final(self)@.constraints == old(self)@.constraints,
            final(self)@.extends(old(self)@),
            match r {
                Ok(()) => lty1.labels_match(*lty2) && final(self)@.equivs =~= old(self)@.equivs
                    + lty1.paired(*lty2),
                Err(e) => !lty1.labels_match(*lty2) && e == AnalysisError::Inconsistent(
                    Inconsistent::LabelMismatch,
                ),
            },
        decreases lty1,
    {
        if !lty1.label.is_none() || !lty2.label.is_none() {
            if lty1.label.is_none() || lty2.label.is_none() {
                return Err(AnalysisError::Inconsistent(Inconsistent::LabelMismatch));
            }
            self.add_equiv(lty1.label, lty2.label);
        }
        let ghost head = self@.equivs;
        let len = lty1.args.len();
        let mut i: usize = 0;
        while i < len
            invariant
                lty1.same_type(*lty2),
                len == lty1.args.len(),
                i <= len,
                self.same_input(old(self)),
                self@.constraints == old(self)@.constraints,
                self@.extends(old(self)@),
                forall|j: int| 0 <= j < i ==> (#[trigger] lty1.args[j]).labels_match(lty2.args[j]),
                self@.equivs =~= head + LTy::paired_args(lty1.args@, lty2.args@, i as int),
            decreases len - i,
        {
            self.unify_walk(&lty1.args[i], &lty2.args[i])?;
            i = i + 1;
        }
        Ok(())
    }

    /// Unifies the pointers at corresponding positions of two labelled
    /// types.  The two must have the same underlying type; at every position
    /// where that type has a pointer, the identities of the two sides are
    /// made equivalent.
    fn do_unify(&mut self, lty1: &LTy, lty2: &LTy) -> (r: Result<(), AnalysisError>)
        ensures
            final(self).same_input(old(self)),
            final(self)@.extends(old(self)@),
            performs(old(self)@, final(self)@, r, unify_rule(*lty1, *lty2)),
    {
        if !lty1.has_same_type(lty2) {
            return Err(AnalysisError::Inconsistent(Inconsistent::TypeMismatch));
        }
        self.unify_walk(lty1, lty2)
    }

    /// Makes all the nested pointers of two labelled types of the same type
    /// equivalent: all but the outermost.
    fn do_equivalence_nested(&mut self, pl_lty: &LTy, rv_lty: &LTy) -> (r: Result<
        (),
        AnalysisError,
    >)
        ensures
            final(self).same_input(old(self)),
            final(self)@.extends(old(self)@),
            performs(old(self)@, final(self)@, r, nested_rule(*pl_lty, *rv_lty)),
    {
        if !pl_lty.has_same_type(rv_lty) {
            return Err(AnalysisError::Inconsistent(Inconsistent::TypeMismatch));
        }
        let len = pl_lty.args.len();
        let mut i: usize = 0;
        while i < len
            invariant
                pl_lty.same_type(*rv_lty),
                len == pl_lty.args.len(),
                i <= len,
                self.same_input(old(self)),
                self@.constraints == old(self)@.constraints,
                self@.extends(old(self)@),
                forall|j: int|
                    0 <= j < i ==> (#[trigger] pl_lty.args[j]).labels_match(rv_lty.args[j]),
                self@.equivs =~= old(self)@.equivs + LTy::paired_args(
                    pl_lty.args@,
                    rv_lty.args@,
                    i as int,
                ),
            decreases len - i,
        {
            self.do_unify(&pl_lty.args[i], &rv_lty.args[i])?;
            i = i + 1;
        }
        Ok(())
    }

    /// Records that the value of `rv_ptr` flows into `pl_ptr`.  Where
    /// neither is a pointer this has no effect.
    fn do_assign_pointer_ids(&mut self, pl_ptr: PointerId, rv_ptr: PointerId) -> (r: Result<
        (),
        AnalysisError,
    >)
        ensures
            final(self).same_input(old(self)),
            final(self)@.extends(old(self)@),
            performs(old(self)@, final(self)@, r, assign_ids_rule(pl_ptr, rv_ptr)),
    {
        if !pl_ptr.is_none() || !rv_ptr.is_none() {
            if pl_ptr.is_none() || rv_ptr.is_none() {
                return Err(AnalysisError::Inconsistent(Inconsistent::LabelMismatch));
            }
            self.add_edge(rv_ptr, pl_ptr);
        }
        Ok(())
    }

    /// Assigns a value of labelled type `rv_lty` to a place of labelled type
    /// `pl_lty`.
    fn do_assign(&mut self, pl_lty: &LTy, rv_lty: &LTy) -> (r: Result<(), AnalysisError>)
        ensures
            final(self).same_input(old(self)),
            final(self)@.extends(old(self)@),
            performs(old(self)@, final(self)@, r, assign_rule(*pl_lty, *rv_lty)),
    {
        // If the top-level types are pointers, add a dataflow edge indicating that `rv`
        // flows into `pl`.
        self.do_assign_pointer_ids(pl_lty.label, rv_lty.label)?;
        self.do_equivalence_nested(pl_lty, rv_lty)
    }

    /// Visits the first operands one after the other.
    fn visit_operands(&mut self, ops: &Vec<Operand>) -> (r: Result<(), AnalysisError>)
        ensures
            final(self).same_input(old(self)),
            performs(
                old(self)@,
                final(self)@,
                r,
                operands_rule(old(self).ctxt(), ops@, ops@.len() as int),
            ),
    {
        let len = ops.len();
        let mut i: usize = 0;
        while i < len
            invariant
                len == ops@.len(),
                i <= len,
                self.same_input(old(self)),
                performs(
                    old(self)@,
                    self@,
                    Ok(()),
                    operands_rule(old(self).ctxt(), ops@, i as int),
                ),
            decreases len - i,
        {
            let r = self.visit_operand(&ops[i]);
            match r {
                Ok(()) => {},
                Err(e) => {
                    proof {
                        lemma_operands_error(old(self).ctxt(), ops@, i + 1, len as int);
                    }
                    return Err(e);
                },
            }
            i = i + 1;
        }
        Ok(())
    }

    /// Assigns each operand to an element of labelled type `elem_lty`.
    fn assign_elements(&mut self, elem_lty: &LTy, ops: &Vec<Operand>) -> (r: Result<
        (),
        AnalysisError,
    >)
        ensures
            final(self).same_input(old(self)),
            performs(
                old(self)@,
                final(self)@,
                r,
                elements_rule(old(self).ctxt(), *elem_lty, ops@, ops@.len() as int),
            ),
    {
        let acx = self.acx;
        let len = ops.len();
        let mut i: usize = 0;
        while i < len
            invariant
                len == ops@.len(),
                i <= len,
                *acx == self.ctxt(),
                self.same_input(old(self)),
                performs(
                    old(self)@,
                    self@,
                    Ok(()),
                    elements_rule(old(self).ctxt(), *elem_lty, ops@, i as int),
                ),
            decreases len - i,
        {
            let r = match acx.type_of_operand(&ops[i]) {
                Ok(op_lty) => self.do_assign(elem_lty, op_lty),
                Err(e) => Err(e),
            };
            match r {
                Ok(()) => {},
                Err(e) => {
                    proof {
                        lemma_elements_error(old(self).ctxt(), *elem_lty, ops@, i + 1, len as int);
                    }
                    return Err(e);
                },
            }
            i = i + 1;
        }
        Ok(())
    }

    /// Visits a value expression of labelled type `lty`.
    ///
    /// A place that is used as a value is read.  Where the address of a
    /// place is taken, the place is read up to its last dereference, which
    /// itself loads nothing.  The operands of an operation are read.  The
    /// operands of an array are read and assigned to its element type.
    /// Everything else is not supported.
    pub fn visit_rvalue(&mut self, rv: &Rvalue, lty: &LTy) -> (r: Result<(), AnalysisError>)
        ensures
            final(self).same_input(old(self)),
            performs(old(self)@, final(self)@, r, rvalue_rule(old(self).ctxt(), *rv, *lty)),
    {
        let rv_desc = describe_rvalue(rv);
        match rv_desc {
            Some(desc) => {
                match desc {
                    RvalueDesc::Project { base, proj: _ } => {
                        return self.visit_place_ref(base, Mutability::Not);
                    },
                    RvalueDesc::AddrOfLocal { .. } => {
                        return Ok(());
                    },
                }
            },
            None => {},
        }
        match rv {
            Rvalue::Use(op) => self.visit_operand(op),
            Rvalue::Repeat(..) => Err(AnalysisError::Unsupported(Unsupported::Repeat)),
            Rvalue::Ref(..) => unreached(),
            Rvalue::ThreadLocalRef(..) => Err(
                AnalysisError::Unsupported(Unsupported::ThreadLocalRef),
            ),
            Rvalue::AddressOf(..) => unreached(),
            Rvalue::Len(pl) => self.visit_place(pl, Mutability::Not),
            Rvalue::Cast(op) => self.visit_operand(op),
            Rvalue::BinaryOp(BinOp::Offset, _, _) => Err(
                AnalysisError::Unsupported(Unsupported::OffsetOperator),
            ),
            Rvalue::BinaryOp(_, a, b) => self.visit_pair(a, b),
            Rvalue::CheckedBinaryOp(BinOp::Offset, _, _) => Err(
                AnalysisError::Unsupported(Unsupported::OffsetOperator),
            ),
            Rvalue::CheckedBinaryOp(_, a, b) => self.visit_pair(a, b),
            Rvalue::NullaryOp => Ok(()),
            Rvalue::UnaryOp(op) => self.visit_operand(op),
            Rvalue::Aggregate(kind, ops) => {
                self.visit_operands(ops)?;
                let r = match kind {
                    AggregateKind::Array => {
                        match lty.kind {
                            TyKind::Array(_) => {
                                if lty.args.len() == 1 {
                                    // Pseudo-assign from each operand to the element type
                                    // of the array.
                                    self.assign_elements(&lty.args[0], ops)
                                } else {
                                    Err(AnalysisError::Inconsistent(Inconsistent::TypeMismatch))
                                }
                            },
                            _ => Err(AnalysisError::Inconsistent(Inconsistent::TypeMismatch)),
                        }
                    },
                    _ => Err(AnalysisError::Unsupported(Unsupported::Aggregate)),
                };
                r
            },
            _ => Err(AnalysisError::Unsupported(Unsupported::Rvalue)),
        }
    }

    /// Visits the two operands of a binary operation.
    fn visit_pair(&mut self, a: &Operand, b: &Operand) -> (r: Result<(), AnalysisError>)
        ensures
            final(self).same_input(old(self)),
            performs(
                old(self)@,
                final(self)@,
                r,
                chain(operand_rule(old(self).ctxt(), *a), operand_rule(old(self).ctxt(), *b)),
            ),
    {
        self.visit_operand(a)?;
        self.visit_operand(b)
    }

    /// Visits a statement.  Only the assignment is analysed: its place is
    /// written, its value is visited, and the value is assigned to the
    /// place.
    pub fn visit_statement(&mut self, stmt: &Statement, loc: Location) -> (r: Result<
        (),
        AnalysisError,
    >)
        ensures
            final(self).same_input(old(self)),
            performs(old(self)@, final(self)@, r, statement_rule(old(self).ctxt(), *stmt, loc)),
    {
        let acx = self.acx;
        match stmt {
            Statement::Assign(pl, rv) => {
                self.visit_place(pl, Mutability::Mut)?;
                let pl_lty = acx.type_of_place(pl.as_ref())?;
                let rv_lty = acx.type_of_rvalue(loc)?;
                self.visit_rvalue(rv, rv_lty)?;
                self.do_assign(pl_lty, rv_lty)
            },
            // Other kinds of statement are passed over.
            _ => Ok(()),
        }
    }

    /// Writes the destination of a call and computes its labelled type.
    fn visit_destination(&mut self, dest: &Place) -> (r: Result<&'a LTy, AnalysisError>)
        ensures
            final(self).same_input(old(self)),
            final(self)@.extends(old(self)@),
            match r {
                Ok(lty) => old(self).ctxt().ty_of_place(dest.local, dest.projection@) == Ok::<
                    LTy,
                    AnalysisError,
                >(*lty) && performs(
                    old(self)@,
                    final(self)@,
                    Ok(()),
                    place_rule(old(self).ctxt(), dest.local, dest.projection@, Mutability::Mut),
                ),
                Err(e) => place_rule(
                    old(self).ctxt(),
                    dest.local,
                    dest.projection@,
                    Mutability::Mut,
                ) == Err::<Output, AnalysisError>(e),
            },
    {
        let acx = self.acx;
        self.visit_place(dest, Mutability::Mut)?;
        acx.type_of_place(dest.as_ref())
    }

    /// Reads an argument of a call and computes its labelled type.
    fn visit_argument<'b>(&mut self, arg: &'b Operand) -> (r: Result<&'b LTy, AnalysisError>)
        where 'a: 'b
        ensures
            final(self).same_input(old(self)),
            final(self)@.extends(old(self)@),
            match r {
                Ok(lty) => old(self).ctxt().operand_ty(*arg) == Ok::<LTy, AnalysisError>(*lty)
                    && performs(
                    old(self)@,
                    final(self)@,
                    Ok(()),
                    operand_rule(old(self).ctxt(), *arg),
                ),
                Err(e) => chain(
                    operand_rule(old(self).ctxt(), *arg),
                    match old(self).ctxt().operand_ty(*arg) {
                        Ok(_) => Ok(Output::empty()),
                        Err(e) => Err(e),
                    },
                ) == Err::<Output, AnalysisError>(e),
            },
    {
        let acx: &'a AnalysisCtxt = self.acx;
        self.visit_operand(arg)?;
        acx.type_of_operand(arg)
    }

    /// Visits the end of a block.  Only the call is analysed: its target is
    /// classified, and the call is handled by its class.
    ///
    /// A trivial call adds nothing.  A pointer offset is an assignment of
    /// the pointer to the destination, and the pointer must allow offsets in
    /// both directions.  An allocation writes the destination.  A
    /// reallocation frees its argument and keeps the nested pointers; the
    /// pointer that comes out is a new one.  A release frees its argument.
    /// A call of a local function assigns the arguments to the parameters
    /// and the return type to the destination.
    pub fn visit_terminator(&mut self, term: &Terminator) -> (r: Result<(), AnalysisError>)
        ensures
            final(self).same_input(old(self)),
            performs(old(self)@, final(self)@, r, terminator_rule(old(self).ctxt(), *term)),
    {
        let acx = self.acx;
        match term {
            Terminator::Call { func, args, destination } => {
                let callee = ty_callee(&acx.tcx, func)?;
                self.visit_call(&callee, args, destination)
            },
            // Other kinds of terminator are passed over.
            _ => Ok(()),
        }
    }

    /// Handles a call by the class of its target.
    fn visit_call(&mut self, callee: &Callee<'_>, args: &Vec<Operand>, destination: &Place) -> (r:
        Result<(), AnalysisError>)
        ensures
            final(self).same_input(old(self)),
            performs(
                old(self)@,
                final(self)@,
                r,
                call_rule(old(self).ctxt(), *callee, args@, *destination),
            ),
    {
        match callee {
            Callee::Trivial => Ok(()),
            Callee::UnknownDef { .. } => Err(AnalysisError::Unsupported(Unsupported::UnknownCallee)),
            Callee::PtrOffset { .. } => self.call_ptr_offset(args, destination),
            Callee::SliceAsPtr { elem_ty, .. } => self.call_slice_as_ptr(
                elem_ty,
                args,
                destination,
            ),
            Callee::Malloc => self.visit_place(destination, Mutability::Mut),
            Callee::Calloc => self.visit_place(destination, Mutability::Mut),
            Callee::Realloc => self.call_realloc(args, destination),
            Callee::Free => self.call_free(args, destination),
            Callee::IsNull => {
                if args.len() != 1 {
                    return Err(AnalysisError::Inconsistent(Inconsistent::ArgumentCount));
                }
                self.visit_operand(&args[0])
            },
            Callee::LocalDef { def_id, substs } => self.visit_call_other(
                *def_id,
                substs,
                args,
                destination,
            ),
        }
    }

    /// A pointer offset is handled like an assignment of the pointer to the
    /// destination.  The direction of the offset is not known, so the
    /// pointer must allow both.
    fn call_ptr_offset(&mut self, args: &Vec<Operand>, destination: &Place) -> (r: Result<
        (),
        AnalysisError,
    >)
        ensures
            final(self).same_input(old(self)),
            performs(
                old(self)@,
                final(self)@,
                r,
                into_dest(
                    old(self).ctxt(),
                    *destination,
                    |pl_lty: LTy|
                        chain(
                            arity(args@, 2),
                            from_first(
                                old(self).ctxt(),
                                args@,
                                |rv_lty: LTy|
                                    chain(
                                        assign_rule(pl_lty, rv_lty),
                                        floor(rv_lty.label, offset_perms()),
                                    ),
                            ),
                        ),
                ),
            ),
    {
        let pl_lty = self.visit_destination(destination)?;
        if args.len() != 2 {
            return Err(AnalysisError::Inconsistent(Inconsistent::ArgumentCount));
        }
        let rv_lty = self.visit_argument(&args[0])?;
        self.do_assign(pl_lty, rv_lty)?;
        let perms = PermissionSet::single(Permission::OffsetAdd).union(
            PermissionSet::single(Permission::OffsetSub),
        );
        self.add_all_perms(rv_lty.label, perms);
        Ok(())
    }

    /// Taking a pointer to the elements of a slice, an array or a string is
    /// handled like an assignment, adjusted for the difference between the
    /// type that goes in and the one that comes out.
    fn call_slice_as_ptr(&mut self, elem_ty: &Ty, args: &Vec<Operand>, destination: &Place) -> (r:
        Result<(), AnalysisError>)
        ensures
            final(self).same_input(old(self)),
            performs(
                old(self)@,
                final(self)@,
                r,
                into_dest(
                    old(self).ctxt(),
                    *destination,
                    |pl_lty: LTy|
                        chain(
                            arity(args@, 1),
                            from_first(
                                old(self).ctxt(),
                                args@,
                                |rv_lty: LTy| slice_as_ptr_rule(pl_lty, rv_lty, *elem_ty),
                            ),
                        ),
                ),
            ),
    {
        let pl_lty = self.visit_destination(destination)?;
        if args.len() != 1 {
            return Err(AnalysisError::Inconsistent(Inconsistent::ArgumentCount));
        }
        let rv_lty = self.visit_argument(&args[0])?;
        self.slice_as_ptr(pl_lty, rv_lty, elem_ty)
    }

    /// A reallocation consumes its argument, which must allow freeing.  The
    /// buffer keeps its inner shape, so the nested pointers of argument and
    /// destination are made equivalent.  The pointer that comes out is a new
    /// one: the outer pointers are not linked.
    fn call_realloc(&mut self, args: &Vec<Operand>, destination: &Place) -> (r: Result<
        (),
        AnalysisError,
    >)
        ensures
            final(self).same_input(old(self)),
            performs(
                old(self)@,
                final(self)@,
                r,
                into_dest(
                    old(self).ctxt(),
                    *destination,
                    |pl_lty: LTy|
                        chain(
                            arity(args@, 2),
                            from_first(
                                old(self).ctxt(),
                                args@,
                                |rv_lty: LTy|
                                    chain(
                                        floor(rv_lty.label, free_perms()),
                                        nested_rule(pl_lty, rv_lty),
                                    ),
                            ),
                        ),
                ),
            ),
    {
        let pl_lty = self.visit_destination(destination)?;
        if args.len() != 2 {
            return Err(AnalysisError::Inconsistent(Inconsistent::ArgumentCount));
        }
        let rv_lty = self.visit_argument(&args[0])?;
        // The input needs the permission to free.
        let perms = PermissionSet::single(Permission::Free);
        self.add_all_perms(rv_lty.label, perms);
        // Unify the nested pointer types.
        self.do_equivalence_nested(pl_lty, rv_lty)
    }

    /// A release consumes its argument, which must allow freeing.  The
    /// destination is written; it holds no pointer.
    fn call_free(&mut self, args: &Vec<Operand>, destination: &Place) -> (r: Result<
        (),
        AnalysisError,
    >)
        ensures
            final(self).same_input(old(self)),
            performs(
                old(self)@,
                final(self)@,
                r,
                into_dest(
                    old(self).ctxt(),
                    *destination,
                    |pl_lty: LTy|
                        chain(
                            arity(args@, 1),
                            from_first(
                                old(self).ctxt(),
                                args@,
                                |rv_lty: LTy| floor(rv_lty.label, free_perms()),
                            ),
                        ),
                ),
            ),
    {
        self.visit_destination(destination)?;
        if args.len() != 1 {
            return Err(AnalysisError::Inconsistent(Inconsistent::ArgumentCount));
        }
        let rv_lty = self.visit_argument(&args[0])?;
        let perms = PermissionSet::single(Permission::Free);
        self.add_all_perms(rv_lty.label, perms);
        Ok(())
    }

    /// Links the pointer that `as_ptr` returns with the slice, array or
    /// string that it was called on.
    fn slice_as_ptr(&mut self, pl_lty: &LTy, rv_lty: &LTy, elem_ty: &Ty) -> (r: Result<
        (),
        AnalysisError,
    >)
        ensures
            final(self).same_input(old(self)),
            performs(old(self)@, final(self)@, r, slice_as_ptr_rule(*pl_lty, *rv_lty, *elem_ty)),
    {
        // Map the labelled type of a reference to a slice to that of its elements.
        if rv_lty.args.len() == 0 {
            return Err(AnalysisError::Inconsistent(Inconsistent::Projection));
        }
        let rv_pointee_lty = &rv_lty.args[0];
        match rv_pointee_lty.kind {
            TyKind::Array(_) | TyKind::Slice => {
                if rv_pointee_lty.args.len() == 0 {
                    return Err(AnalysisError::Inconsistent(Inconsistent::Projection));
                }
                if pl_lty.args.len() == 0 {
                    return Err(AnalysisError::Inconsistent(Inconsistent::Projection));
                }
                // Map the labelled type of a pointer to that of its pointee.
                let pl_elem_lty = &pl_lty.args[0];
                self.do_unify(pl_elem_lty, &rv_pointee_lty.args[0])?;
                self.do_assign_pointer_ids(pl_lty.label, rv_lty.label)
            },
            TyKind::Str => {
                if pl_lty.args.len() == 0 {
                    return Err(AnalysisError::Inconsistent(Inconsistent::Projection));
                }
                let pl_elem_lty = &pl_lty.args[0];
                let rv_elem_lty = LTy::unlabeled(elem_ty);
                proof {
                    pl_elem_lty.lemma_against_unlabeled(rv_elem_lty, *elem_ty);
                }
                self.do_unify(pl_elem_lty, &rv_elem_lty)?;
                self.do_assign_pointer_ids(pl_lty.label, rv_lty.label)
            },
            _ => Err(AnalysisError::Inconsistent(Inconsistent::Projection)),
        }
    }

    /// Handles a call of a function of the crate under analysis.
    fn visit_call_other(
        &mut self,
        def_id: DefId,
        substs: &Vec<Ty>,
        args: &Vec<Operand>,
        dest: &Place,
    ) -> (r: Result<(), AnalysisError>)
        ensures
            final(self).same_input(old(self)),
            performs(
                old(self)@,
                final(self)@,
                r,
                call_other_rule(old(self).ctxt(), def_id, substs@, args@, *dest),
            ),
    {
        let acx = self.acx;
        let ghost s0 = self@;
        let sig = match acx.fn_sig(def_id) {
            Some(sig) => sig,
            None => {
                return Err(AnalysisError::Unsupported(Unsupported::UnknownSignature));
            },
        };
        if substs.len() > 0 {
            return Err(AnalysisError::Unsupported(Unsupported::GenericCall));
        }
        // Process pseudo-assignments from `args` to the types declared in `sig`.
        let count = if args.len() <= sig.inputs.len() {
            args.len()
        } else {
            sig.inputs.len()
        };
        let mut i: usize = 0;
        while i < count
            invariant
                count == shorter(args@.len(), sig.inputs@.len()),
                i <= count,
                *acx == self.ctxt(),
                s0 == old(self)@,
                acx.sig_of(def_id) == Some(*sig),
                substs@.len() == 0,
                self.same_input(old(self)),
                performs(s0, self@, Ok(()), arguments_rule(*acx, args@, sig.inputs@, i as int)),
            decreases count - i,
        {
            let r = match self.visit_argument(&args[i]) {
                Ok(arg_lty) => self.do_assign(&sig.inputs[i], arg_lty),
                Err(e) => Err(e),
            };
            match r {
                Ok(()) => {},
                Err(e) => {
                    proof {
                        lemma_arguments_error(*acx, args@, sig.inputs@, i + 1, count as int);
                    }
                    return Err(e);
                },
            }
            i = i + 1;
        }
        // Process a pseudo-assignment from the return type declared in `sig` to `dest`.
        let dest_lty = self.visit_destination(dest)?;
        self.do_assign(dest_lty, &sig.output)
    }
}

/// An error among the first statements stays the error of all of them.
proof fn lemma_statements_error(
    acx: AnalysisCtxt,
    stmts: Seq<Statement>,
    bb: usize,
    k: int,
    n: int,
)
    requires
        0 <= k <= n,
        statements_rule(acx, stmts, bb, k) is Err,
    ensures
        statements_rule(acx, stmts, bb, n) == statements_rule(acx, stmts, bb, k),
    decreases n - k,
{
    if k < n {
        lemma_statements_error(acx, stmts, bb, k, n - 1);
    }
}

/// An error among the first blocks stays the error of all of them.
proof fn lemma_blocks_error(acx: AnalysisCtxt, blocks: Seq<BasicBlockData>, k: int, n: int)
    requires
        0 <= k <= n,
        blocks_rule(acx, blocks, k) is Err,
    ensures
        blocks_rule(acx, blocks, n) == blocks_rule(acx, blocks, k),
    decreases n - k,
{
    if k < n {
        lemma_blocks_error(acx, blocks, k, n - 1);
    }
}

/// Visits one block: its statements in order, then its end.
fn visit_block(tc: &mut TypeChecker<'_>, bb_data: &BasicBlockData, bb: usize) -> (r: Result<
    (),
    AnalysisError,
>)
    ensures
        final(tc).same_input(old(tc)),
        performs(old(tc)@, final(tc)@, r, block_rule(old(tc).ctxt(), *bb_data, bb)),
{
    let ghost acx = tc.ctxt();
    let ghost s0 = tc@;
    let ghost stmts = bb_data.statements@;
    let len = bb_data.statements.len();
    let mut i: usize = 0;
    while i < len
        invariant
            stmts == bb_data.statements@,
            len == stmts.len(),
            i <= len,
            acx == old(tc).ctxt(),
            s0 == old(tc)@,
            tc.same_input(old(tc)),
            performs(s0, tc@, Ok(()), statements_rule(acx, stmts, bb, i as int)),
        decreases len - i,
    {
        let loc = Location { block: bb, statement_index: i };
        let r = tc.visit_statement(&bb_data.statements[i], loc);
        match r {
            Ok(()) => {},
            Err(e) => {
                proof {
                    lemma_statements_error(acx, stmts, bb, i + 1, len as int);
                }
                return Err(e);
            },
        }
        i = i + 1;
    }
    tc.visit_terminator(&bb_data.terminator)
}

/// Gathers the constraints of a function body: every statement and the end
/// of every block is visited, block by block.  The result holds the subset
/// and permission constraints and the pairs of equivalent pointers, in the
/// order in which the walk met them.  On the first input that is not
/// supported or not consistent the analysis stops with that error.
pub fn visit(acx: &AnalysisCtxt, mir: &Body) -> (r: Result<
    (DataflowConstraints, Vec<(PointerId, PointerId)>),
    AnalysisError,
>)
    ensures
        match body_rule(*acx, *mir) {
            Ok(out) => r is Ok && r->Ok_0.0@ == out.constraints && r->Ok_0.1@ == out.equivs,
            Err(e) => r is Err && r->Err_0 == e,
        },
{
    let mut tc = TypeChecker::new(acx);
    let ghost s0 = tc@;
    let ghost blocks = mir.basic_blocks@;
    let count = mir.basic_blocks.len();
    let mut bb: usize = 0;
    while bb < count
        invariant
            blocks == mir.basic_blocks@,
            count == blocks.len(),
            bb <= count,
            s0 == Output::empty(),
            tc.ctxt() == *acx,
            performs(s0, tc@, Ok(()), blocks_rule(*acx, blocks, bb as int)),
        decreases count - bb,
    {
        let r = visit_block(&mut tc, &mir.basic_blocks[bb], bb);
        match r {
            Ok(()) => {},
            Err(e) => {
                proof {
                    lemma_blocks_error(*acx, blocks, bb + 1, count as int);
                }
                return Err(e);
            },
        }
        bb = bb + 1;
    }
    Ok(tc.finish())
}

/// An error among the first arguments stays the error of all of them.
proof fn lemma_arguments_error(
    acx: AnalysisCtxt,
    args: Seq<Operand>,
    inputs: Seq<LTy>,
    k: int,
    n: int,
)
    requires
        0 <= k <= n,
        arguments_rule(acx, args, inputs, k) is Err,
    ensures
        arguments_rule(acx, args, inputs, n) == arguments_rule(acx, args, inputs, k),
    decreases n - k,
{
    if k < n {
        lemma_arguments_error(acx, args, inputs, k, n - 1);
    }
}

/// An error among the first operands stays the error of all of them.
proof fn lemma_operands_error(acx: AnalysisCtxt, ops: Seq<Operand>, k: int, n: int)
    requires
        0 <= k <= n,
        operands_rule(acx, ops, k) is Err,
    ensures
        operands_rule(acx, ops, n) == operands_rule(acx, ops, k),
    decreases n - k,
{
    if k < n {
        lemma_operands_error(acx, ops, k, n - 1);
    }
}

/// An error among the first elements stays the error of all of them.
proof fn lemma_elements_error(acx: AnalysisCtxt, elem: LTy, ops: Seq<Operand>, k: int, n: int)
    requires
        0 <= k <= n,
        elements_rule(acx, elem, ops, k) is Err,
    ensures
        elements_rule(acx, elem, ops, n) == elements_rule(acx, elem, ops, k),
    decreases n - k,
{
    if k < n {
        lemma_elements_error(acx, elem, ops, k, n - 1);
    }
}

} // verus!
