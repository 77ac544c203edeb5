//! Where the identities in the gathered constraints come from.
//!
//! A walk invents no identity: whatever a constraint or an equivalence
//! speaks of labels a position of a labelled type that the walk was given.
//! And it never speaks of the identity that stands for "not a pointer",
//! unless a built-in that takes a pointer is called on something that
//! carries no label.

use crate::analysis::{
    AnalysisCtxt, find_field, find_rvalue, find_sig, lemma_find_field_range,
    lemma_find_rvalue_range, lemma_find_sig_range,
};
use crate::constraints::Constraint;
use crate::context::PointerId;
use crate::error::AnalysisError;
use crate::mir::{
    BasicBlockData, Body, Local, Location, Operand, Place, PlaceElem, Rvalue, Statement, Terminator,
};
use crate::rules::{
    access, args_match, arguments_rule, assign_ids_rule, assign_rule, blocks_rule, body_rule,
    call_other_rule, call_rule, chain, elements_rule, nested_rule, operand_rule, operands_rule,
    Outcome, Output, place_accesses, place_rule, rvalue_rule, shorter, slice_as_ptr_rule,
    statement_rule, statements_rule, terminator_rule, unify_rule, with_ty,
};
use crate::ty::{DefId, LTy, Mutability, Ty};
use crate::util::{Callee, classify, is_adt_field, last_deref};
use vstd::prelude::*;

verus! {

/// Every labelled type in the tables of the context is labelled from `u`.
pub open spec fn tables_within(acx: AnalysisCtxt, u: Set<PointerId>) -> bool {
    &&& forall|i: int| 0 <= i < acx.local_tys.len() ==> (#[trigger] acx.local_tys[i]).labels_in(u)
    &&& forall|i: int|
        0 <= i < acx.field_tys.len() ==> (#[trigger] acx.field_tys[i]).lty.labels_in(u)
    &&& forall|i: int|
        0 <= i < acx.rvalue_tys.len() ==> (#[trigger] acx.rvalue_tys[i]).lty.labels_in(u)
    &&& forall|i: int|
        0 <= i < acx.fn_sigs.len() ==> (#[trigger] acx.fn_sigs[i]).sig.output.labels_in(u)
    &&& forall|i: int, j: int|
        0 <= i < acx.fn_sigs.len() && 0 <= j < acx.fn_sigs[i].sig.inputs.len()
            ==> (#[trigger] acx.fn_sigs[i].sig.inputs[j]).labels_in(u)
}

/// The labelled type that a constant operand carries is labelled from `u`.
pub open spec fn operand_within(op: Operand, u: Set<PointerId>) -> bool {
    match op {
        Operand::Constant(lty) => lty.labels_in(u),
        _ => true,
    }
}

/// The constants among the operands are labelled from `u`.
pub open spec fn operands_within(ops: Seq<Operand>, u: Set<PointerId>) -> bool {
    forall|i: int| 0 <= i < ops.len() ==> operand_within(#[trigger] ops[i], u)
}

/// The constants of a value expression are labelled from `u`.
pub open spec fn rvalue_within(rv: Rvalue, u: Set<PointerId>) -> bool {
    match rv {
        Rvalue::Use(op) | Rvalue::Repeat(op) | Rvalue::Cast(op) | Rvalue::UnaryOp(op)
        | Rvalue::ShallowInitBox(op) => operand_within(op, u),
        Rvalue::BinaryOp(_, a, b) | Rvalue::CheckedBinaryOp(_, a, b) => operand_within(a, u)
            && operand_within(b, u),
        Rvalue::Aggregate(_, ops) => operands_within(ops@, u),
        _ => true,
    }
}

/// The constants of a statement are labelled from `u`.
pub open spec fn statement_within(stmt: Statement, u: Set<PointerId>) -> bool {
    match stmt {
        Statement::Assign(_, rv) => rvalue_within(rv, u),
        Statement::Other => true,
    }
}

/// The constants among the arguments of a call are labelled from `u`.
pub open spec fn terminator_within(term: Terminator, u: Set<PointerId>) -> bool {
    match term {
        Terminator::Call { args, .. } => operands_within(args@, u),
        Terminator::Other => true,
    }
}

/// The constants of a block are labelled from `u`.
pub open spec fn block_within(block: BasicBlockData, u: Set<PointerId>) -> bool {
    &&& forall|i: int|
        0 <= i < block.statements.len() ==> statement_within(#[trigger] block.statements[i], u)
    &&& terminator_within(block.terminator, u)
}

/// Every labelled type that the walk over the body can read, in the tables
/// of the context or in a constant of the body, is labelled from `u`.
pub open spec fn input_within(acx: AnalysisCtxt, body: Body, u: Set<PointerId>) -> bool {
    &&& tables_within(acx, u)
    &&& forall|i: int|
        0 <= i < body.basic_blocks.len() ==> block_within(#[trigger] body.basic_blocks[i], u)
}

/// The call is of a built-in that asks a permission of its first argument,
/// and that argument carries no label.
pub open spec fn floor_without_label(acx: AnalysisCtxt, callee: Callee<'_>, args: Seq<Operand>) -> bool {
    (callee is PtrOffset || callee is Realloc || callee is Free) && acx.operand_ty(args[0]) is Ok
        && acx.operand_ty(args[0])->Ok_0.label.is_none()
}

/// No call of the block asks a permission of something without a label.
pub open spec fn floors_labelled(acx: AnalysisCtxt, term: Terminator) -> bool {
    match term {
        Terminator::Call { func, args, .. } => classify(&acx.tcx, &func) matches Ok(callee)
            ==> !floor_without_label(acx, callee, args@),
        Terminator::Other => true,
    }
}

/// No call of the body asks a permission of something without a label.
pub open spec fn all_floors_labelled(acx: AnalysisCtxt, body: Body) -> bool {
    forall|i: int|
        0 <= i < body.basic_blocks.len() ==> floors_labelled(
            acx,
            (#[trigger] body.basic_blocks[i]).terminator,
        )
}

/// The constraint speaks of identities from `u` only.  A subset constraint
/// never speaks of "not a pointer"; under `strict` no constraint does.
pub open spec fn constraint_sound(c: Constraint, u: Set<PointerId>, strict: bool) -> bool {
    match c {
        Constraint::Subset(a, b) => u.contains(a) && u.contains(b) && !a.is_none() && !b.is_none(),
        Constraint::AllPerms(a, _) => u.contains(a) && (strict ==> !a.is_none()),
    }
}

/// The pair speaks of pointers from `u` only.
pub open spec fn pair_sound(pair: (PointerId, PointerId), u: Set<PointerId>) -> bool {
    u.contains(pair.0) && u.contains(pair.1) && !pair.0.is_none() && !pair.1.is_none()
}

/// All that was gathered speaks of identities from `u` only, and of "not a
/// pointer" at most in a permission constraint, and under `strict` not at
/// all.
pub open spec fn sound(out: Output, u: Set<PointerId>, strict: bool) -> bool {
    &&& forall|i: int|
        0 <= i < out.constraints.len() ==> constraint_sound(#[trigger] out.constraints[i], u, strict)
    &&& forall|i: int| 0 <= i < out.equivs.len() ==> pair_sound(#[trigger] out.equivs[i], u)
}

/// What a rule yields, if it yields anything, is sound.
pub open spec fn yields_sound(o: Outcome, u: Set<PointerId>, strict: bool) -> bool {
    o matches Ok(out) ==> sound(out, u, strict)
}

/// What follows sound output with sound output is sound.  From here on there
/// is one lemma for each rule: what the rule yields is sound.
proof fn lemma_plus_sound(x: Output, y: Output, u: Set<PointerId>, strict: bool)
    requires
        sound(x, u, strict),
        sound(y, u, strict),
    ensures
        sound(x.plus(y), u, strict),
{
    let both = x.plus(y);
    assert forall|i: int| 0 <= i < both.constraints.len() implies constraint_sound(
        #[trigger] both.constraints[i],
        u,
        strict,
    ) by {
        if i < x.constraints.len() {
            assert(both.constraints[i] == x.constraints[i]);
        } else {
            assert(both.constraints[i] == y.constraints[i - x.constraints.len()]);
        }
    }
    assert forall|i: int| 0 <= i < both.equivs.len() implies pair_sound(
        #[trigger] both.equivs[i],
        u,
    ) by {
        if i < x.equivs.len() {
            assert(both.equivs[i] == x.equivs[i]);
        } else {
            assert(both.equivs[i] == y.equivs[i - x.equivs.len()]);
        }
    }
}

proof fn lemma_chain_sound(a: Outcome, b: Outcome, u: Set<PointerId>, strict: bool)
    requires
        yields_sound(a, u, strict),
        a is Ok ==> yields_sound(b, u, strict),
    ensures
        yields_sound(chain(a, b), u, strict),
{
    if a is Ok && b is Ok {
        lemma_plus_sound(a->Ok_0, b->Ok_0, u, strict);
    }
}

proof fn lemma_step_within(acx: AnalysisCtxt, lty: LTy, proj: PlaceElem, u: Set<PointerId>)
    requires
        tables_within(acx, u),
        lty.labels_in(u),
        acx.step_ty(lty, proj) is Ok,
    ensures
        acx.step_ty(lty, proj)->Ok_0.labels_in(u),
{
    if is_adt_field(lty, proj) {
        let i = find_field(acx.field_tys@, lty.kind->Adt_0, proj->Field_0, 0);
        lemma_find_field_range(
            acx.field_tys@,
            lty.kind->Adt_0,
            proj->Field_0,
            0,
        );
        assert(acx.field_tys[i].lty.labels_in(u));
    }
}

proof fn lemma_place_ty_within(
    acx: AnalysisCtxt,
    local: Local,
    steps: Seq<PlaceElem>,
    k: int,
    u: Set<PointerId>,
)
    requires
        tables_within(acx, u),
        acx.place_ty(local, steps, k) is Ok,
    ensures
        acx.place_ty(local, steps, k)->Ok_0.labels_in(u),
    decreases k,
{
    if k <= 0 {
        assert(acx.local_tys[local as int].labels_in(u));
    } else {
        lemma_place_ty_within(acx, local, steps, k - 1, u);
        lemma_step_within(acx, acx.place_ty(local, steps, k - 1)->Ok_0, steps[k - 1], u);
    }
}

proof fn lemma_operand_ty_within(acx: AnalysisCtxt, op: Operand, u: Set<PointerId>)
    requires
        tables_within(acx, u),
        operand_within(op, u),
        acx.operand_ty(op) is Ok,
    ensures
        acx.operand_ty(op)->Ok_0.labels_in(u),
{
    match op {
        Operand::Copy(pl) | Operand::Move(pl) => {
            lemma_place_ty_within(acx, pl.local, pl.projection@, pl.projection@.len() as int, u);
        },
        Operand::Constant(_) => {},
    }
}

proof fn lemma_place_prefix_typed(acx: AnalysisCtxt, local: Local, steps: Seq<PlaceElem>, k: int, n: int)
    requires
        0 <= k <= n,
        acx.place_ty(local, steps, n) is Ok,
    ensures
        acx.place_ty(local, steps, k) is Ok,
{
    if acx.place_ty(local, steps, k) is Err {
        acx.lemma_place_ty_error(local, steps, k, n);
    }
}

proof fn lemma_accesses_sound(
    acx: AnalysisCtxt,
    local: Local,
    steps: Seq<PlaceElem>,
    mutbl: Mutability,
    k: int,
    n: int,
    u: Set<PointerId>,
    strict: bool,
)
    requires
        tables_within(acx, u),
        0 <= k <= n,
        acx.place_ty(local, steps, n) is Ok,
    ensures
        sound(Output::of_constraints(place_accesses(acx, local, steps, mutbl, k)), u, strict),
    decreases k,
{
    if k > 0 {
        lemma_accesses_sound(acx, local, steps, mutbl, k - 1, n, u, strict);
        lemma_place_prefix_typed(acx, local, steps, k - 1, n);
        lemma_place_ty_within(acx, local, steps, k - 1, u);
        if steps[k - 1] is Deref {
            let before = Output::of_constraints(place_accesses(acx, local, steps, mutbl, k - 1));
            let last = Output::of_constraints(
                access(acx.place_ty(local, steps, k - 1)->Ok_0.label, mutbl),
            );
            lemma_plus_sound(before, last, u, strict);
            assert(before.plus(last).constraints == place_accesses(acx, local, steps, mutbl, k));
            assert(before.plus(last).equivs =~= Seq::<(PointerId, PointerId)>::empty());
        }
    }
}

proof fn lemma_place_rule_sound(
    acx: AnalysisCtxt,
    local: Local,
    steps: Seq<PlaceElem>,
    mutbl: Mutability,
    u: Set<PointerId>,
    strict: bool,
)
    requires
        tables_within(acx, u),
    ensures
        yields_sound(place_rule(acx, local, steps, mutbl), u, strict),
{
    if acx.ty_of_place(local, steps) is Ok {
        lemma_accesses_sound(
            acx,
            local,
            steps,
            mutbl,
            steps.len() as int,
            steps.len() as int,
            u,
            strict,
        );
    }
}

proof fn lemma_operand_rule_sound(acx: AnalysisCtxt, op: Operand, u: Set<PointerId>, strict: bool)
    requires
        tables_within(acx, u),
    ensures
        yields_sound(operand_rule(acx, op), u, strict),
{
    match op {
        Operand::Copy(pl) | Operand::Move(pl) => {
            lemma_place_rule_sound(acx, pl.local, pl.projection@, Mutability::Not, u, strict);
        },
        Operand::Constant(_) => {},
    }
}

proof fn lemma_operands_rule_sound(
    acx: AnalysisCtxt,
    ops: Seq<Operand>,
    k: int,
    u: Set<PointerId>,
    strict: bool,
)
    requires
        tables_within(acx, u),
    ensures
        yields_sound(operands_rule(acx, ops, k), u, strict),
    decreases k,
{
    if k > 0 {
        lemma_operands_rule_sound(acx, ops, k - 1, u, strict);
        lemma_operand_rule_sound(acx, ops[k - 1], u, strict);
        lemma_chain_sound(
            operands_rule(acx, ops, k - 1),
            operand_rule(acx, ops[k - 1]),
            u,
            strict,
        );
    }
}

proof fn lemma_paired_args_sound(xs: Seq<LTy>, ys: Seq<LTy>, k: int, u: Set<PointerId>)
    requires
        0 <= k <= xs.len() <= ys.len(),
        forall|i: int| 0 <= i < k ==> (#[trigger] xs[i]).labels_in(u),
        forall|i: int| 0 <= i < k ==> (#[trigger] ys[i]).labels_in(u),
        forall|i: int| 0 <= i < k ==> (#[trigger] xs[i]).same_type(ys[i]),
        forall|i: int| 0 <= i < k ==> (#[trigger] xs[i]).labels_match(ys[i]),
    ensures
        forall|i: int|
            0 <= i < LTy::paired_args(xs, ys, k).len() ==> pair_sound(
                #[trigger] LTy::paired_args(xs, ys, k)[i],
                u,
            ),
    decreases xs, k,
{
    if k > 0 {
        lemma_paired_args_sound(xs, ys, k - 1, u);
        lemma_paired_sound(xs[k - 1], ys[k - 1], u);
        let before = Output::of_equivs(LTy::paired_args(xs, ys, k - 1));
        let last = Output::of_equivs(xs[k - 1].paired(ys[k - 1]));
        lemma_plus_sound(before, last, u, false);
        assert(before.plus(last).equivs == LTy::paired_args(xs, ys, k));
    }
}

proof fn lemma_paired_sound(a: LTy, b: LTy, u: Set<PointerId>)
    requires
        a.labels_in(u),
        b.labels_in(u),
        a.same_type(b),
        a.labels_match(b),
    ensures
        forall|i: int| 0 <= i < a.paired(b).len() ==> pair_sound(#[trigger] a.paired(b)[i], u),
    decreases a,
{
    lemma_paired_args_sound(a.args@, b.args@, a.args.len() as int, u);
    let head = if a.label.is_none() && b.label.is_none() {
        Seq::<(PointerId, PointerId)>::empty()
    } else {
        seq![(a.label, b.label)]
    };
    let rest = LTy::paired_args(a.args@, b.args@, a.args.len() as int);
    lemma_plus_sound(Output::of_equivs(head), Output::of_equivs(rest), u, false);
    assert(Output::of_equivs(head).plus(Output::of_equivs(rest)).equivs == a.paired(b));
}

proof fn lemma_unify_sound(a: LTy, b: LTy, u: Set<PointerId>, strict: bool)
    requires
        a.labels_in(u),
        b.labels_in(u),
    ensures
        yields_sound(unify_rule(a, b), u, strict),
{
    if a.same_type(b) && a.labels_match(b) {
        lemma_paired_sound(a, b, u);
    }
}

proof fn lemma_nested_sound(a: LTy, b: LTy, u: Set<PointerId>, strict: bool)
    requires
        a.labels_in(u),
        b.labels_in(u),
    ensures
        yields_sound(nested_rule(a, b), u, strict),
{
    if a.same_type(b) && args_match(a, b) {
        lemma_paired_args_sound(a.args@, b.args@, a.args.len() as int, u);
    }
}

proof fn lemma_assign_sound(dest: LTy, src: LTy, u: Set<PointerId>, strict: bool)
    requires
        dest.labels_in(u),
        src.labels_in(u),
    ensures
        yields_sound(assign_rule(dest, src), u, strict),
{
    lemma_nested_sound(dest, src, u, strict);
    lemma_chain_sound(assign_ids_rule(dest.label, src.label), nested_rule(dest, src), u, strict);
}

proof fn lemma_elements_sound(
    acx: AnalysisCtxt,
    elem: LTy,
    ops: Seq<Operand>,
    k: int,
    u: Set<PointerId>,
    strict: bool,
)
    requires
        tables_within(acx, u),
        operands_within(ops, u),
        elem.labels_in(u),
        0 <= k <= ops.len(),
    ensures
        yields_sound(elements_rule(acx, elem, ops, k), u, strict),
    decreases k,
{
    if k > 0 {
        lemma_elements_sound(acx, elem, ops, k - 1, u, strict);
        let step = with_ty(acx.operand_ty(ops[k - 1]), |op_lty: LTy| assign_rule(elem, op_lty));
        if acx.operand_ty(ops[k - 1]) is Ok {
            lemma_operand_ty_within(acx, ops[k - 1], u);
            lemma_assign_sound(elem, acx.operand_ty(ops[k - 1])->Ok_0, u, strict);
        }
        lemma_chain_sound(elements_rule(acx, elem, ops, k - 1), step, u, strict);
    }
}

proof fn lemma_rvalue_sound(acx: AnalysisCtxt, rv: Rvalue, lty: LTy, u: Set<PointerId>, strict: bool)
    requires
        tables_within(acx, u),
        rvalue_within(rv, u),
        lty.labels_in(u),
    ensures
        yields_sound(rvalue_rule(acx, rv, lty), u, strict),
{
    match rv {
        Rvalue::Use(op) | Rvalue::Cast(op) | Rvalue::UnaryOp(op) => {
            lemma_operand_rule_sound(acx, op, u, strict);
        },
        Rvalue::Ref(_, pl) | Rvalue::AddressOf(_, pl) => {
            match last_deref(pl.projection@, pl.projection@.len() as int) {
                Some(i) => {
                    lemma_place_rule_sound(
                        acx,
                        pl.local,
                        pl.projection@.subrange(0, i),
                        Mutability::Not,
                        u,
                        strict,
                    );
                },
                None => {},
            }
        },
        Rvalue::Len(pl) => {
            lemma_place_rule_sound(acx, pl.local, pl.projection@, Mutability::Not, u, strict);
        },
        Rvalue::BinaryOp(_, a, b) | Rvalue::CheckedBinaryOp(_, a, b) => {
            lemma_operand_rule_sound(acx, a, u, strict);
            lemma_operand_rule_sound(acx, b, u, strict);
        },
        Rvalue::Aggregate(kind, ops) => {
            lemma_operands_rule_sound(acx, ops@, ops@.len() as int, u, strict);
            if kind is Array && lty.kind is Array && lty.args.len() == 1 {
                lemma_elements_sound(acx, lty.args[0], ops@, ops@.len() as int, u, strict);
            }
        },
        _ => {},
    }
}

proof fn lemma_rvalue_ty_within(acx: AnalysisCtxt, loc: Location, u: Set<PointerId>)
    requires
        tables_within(acx, u),
        acx.rvalue_ty(loc) is Ok,
    ensures
        acx.rvalue_ty(loc)->Ok_0.labels_in(u),
{
    let i = find_rvalue(acx.rvalue_tys@, loc, 0);
    lemma_find_rvalue_range(acx.rvalue_tys@, loc, 0);
    assert(acx.rvalue_tys[i].lty.labels_in(u));
}

proof fn lemma_statement_sound(
    acx: AnalysisCtxt,
    stmt: Statement,
    loc: Location,
    u: Set<PointerId>,
    strict: bool,
)
    requires
        tables_within(acx, u),
        statement_within(stmt, u),
    ensures
        yields_sound(statement_rule(acx, stmt, loc), u, strict),
{
    match stmt {
        Statement::Assign(pl, rv) => {
            lemma_place_rule_sound(acx, pl.local, pl.projection@, Mutability::Mut, u, strict);
            if acx.ty_of_place(pl.local, pl.projection@) is Ok && acx.rvalue_ty(loc) is Ok {
                let pl_lty = acx.ty_of_place(pl.local, pl.projection@)->Ok_0;
                let rv_lty = acx.rvalue_ty(loc)->Ok_0;
                lemma_place_ty_within(acx, pl.local, pl.projection@, pl.projection@.len() as int, u);
                lemma_rvalue_ty_within(acx, loc, u);
                lemma_rvalue_sound(acx, rv, rv_lty, u, strict);
                lemma_assign_sound(pl_lty, rv_lty, u, strict);
            }
        },
        Statement::Other => {},
    }
}

proof fn lemma_slice_as_ptr_sound(dest: LTy, src: LTy, elem_ty: Ty, u: Set<PointerId>, strict: bool)
    requires
        dest.labels_in(u),
        src.labels_in(u),
    ensures
        yields_sound(slice_as_ptr_rule(dest, src, elem_ty), u, strict),
{
    if src.args.len() > 0 && dest.args.len() > 0 {
        let pointee = src.args[0];
        assert(pointee.labels_in(u));
        assert(dest.args[0].labels_in(u));
        if (pointee.kind is Array || pointee.kind is Slice) && pointee.args.len() > 0 {
            assert(pointee.args[0].labels_in(u));
            lemma_unify_sound(dest.args[0], pointee.args[0], u, strict);
        }
    }
}

proof fn lemma_arguments_sound(
    acx: AnalysisCtxt,
    args: Seq<Operand>,
    inputs: Seq<LTy>,
    k: int,
    u: Set<PointerId>,
    strict: bool,
)
    requires
        tables_within(acx, u),
        operands_within(args, u),
        0 <= k <= args.len(),
        k <= inputs.len(),
        forall|j: int| 0 <= j < inputs.len() ==> (#[trigger] inputs[j]).labels_in(u),
    ensures
        yields_sound(arguments_rule(acx, args, inputs, k), u, strict),
    decreases k,
{
    if k > 0 {
        lemma_arguments_sound(acx, args, inputs, k - 1, u, strict);
        lemma_operand_rule_sound(acx, args[k - 1], u, strict);
        if acx.operand_ty(args[k - 1]) is Ok {
            lemma_operand_ty_within(acx, args[k - 1], u);
            lemma_assign_sound(inputs[k - 1], acx.operand_ty(args[k - 1])->Ok_0, u, strict);
        }
    }
}

proof fn lemma_call_other_sound(
    acx: AnalysisCtxt,
    def_id: DefId,
    substs: Seq<Ty>,
    args: Seq<Operand>,
    dest: Place,
    u: Set<PointerId>,
    strict: bool,
)
    requires
        tables_within(acx, u),
        operands_within(args, u),
    ensures
        yields_sound(call_other_rule(acx, def_id, substs, args, dest), u, strict),
{
    if acx.sig_of(def_id) is Some && substs.len() == 0 {
        let i = find_sig(acx.fn_sigs@, def_id, 0);
        lemma_find_sig_range(acx.fn_sigs@, def_id, 0);
        let sig = acx.fn_sigs[i].sig;
        assert(sig.output.labels_in(u));
        assert forall|j: int| 0 <= j < sig.inputs@.len() implies (#[trigger] sig.inputs@[j]).labels_in(
            u,
        ) by {
            assert(acx.fn_sigs[i].sig.inputs[j].labels_in(u));
        }
        lemma_arguments_sound(
            acx,
            args,
            sig.inputs@,
            shorter(args.len(), sig.inputs@.len()),
            u,
            strict,
        );
        lemma_place_rule_sound(acx, dest.local, dest.projection@, Mutability::Mut, u, strict);
        if acx.ty_of_place(dest.local, dest.projection@) is Ok {
            lemma_place_ty_within(acx, dest.local, dest.projection@, dest.projection@.len() as int, u);
            lemma_assign_sound(
                acx.ty_of_place(dest.local, dest.projection@)->Ok_0,
                sig.output,
                u,
                strict,
            );
        }
    }
}

proof fn lemma_call_sound(
    acx: AnalysisCtxt,
    callee: Callee<'_>,
    args: Seq<Operand>,
    dest: Place,
    u: Set<PointerId>,
    strict: bool,
)
    requires
        tables_within(acx, u),
        operands_within(args, u),
        strict ==> !floor_without_label(acx, callee, args),
    ensures
        yields_sound(call_rule(acx, callee, args, dest), u, strict),
{
    lemma_place_rule_sound(acx, dest.local, dest.projection@, Mutability::Mut, u, strict);
    if args.len() > 0 {
        lemma_operand_rule_sound(acx, args[0], u, strict);
    }
    let typed = acx.ty_of_place(dest.local, dest.projection@) is Ok && args.len() > 0
        && acx.operand_ty(args[0]) is Ok;
    if typed {
        lemma_place_ty_within(acx, dest.local, dest.projection@, dest.projection@.len() as int, u);
        lemma_operand_ty_within(acx, args[0], u);
    }
    let pl_lty = acx.ty_of_place(dest.local, dest.projection@)->Ok_0;
    let rv_lty = acx.operand_ty(args[0])->Ok_0;
    match callee {
        Callee::LocalDef { def_id, substs } => {
            lemma_call_other_sound(acx, def_id, substs@, args, dest, u, strict);
        },
        Callee::PtrOffset { .. } => {
            if typed {
                lemma_assign_sound(pl_lty, rv_lty, u, strict);
            }
        },
        Callee::SliceAsPtr { elem_ty, .. } => {
            if typed {
                lemma_slice_as_ptr_sound(pl_lty, rv_lty, *elem_ty, u, strict);
            }
        },
        Callee::Realloc => {
            if typed {
                lemma_nested_sound(pl_lty, rv_lty, u, strict);
            }
        },
        _ => {},
    }
}

proof fn lemma_terminator_sound(acx: AnalysisCtxt, term: Terminator, u: Set<PointerId>, strict: bool)
    requires
        tables_within(acx, u),
        terminator_within(term, u),
        strict ==> floors_labelled(acx, term),
    ensures
        yields_sound(terminator_rule(acx, term), u, strict),
{
    match term {
        Terminator::Call { func, args, destination } => {
            match classify(&acx.tcx, &func) {
                Ok(callee) => {
                    lemma_call_sound(acx, callee, args@, destination, u, strict);
                },
                Err(_) => {},
            }
        },
        Terminator::Other => {},
    }
}

proof fn lemma_statements_sound(
    acx: AnalysisCtxt,
    stmts: Seq<Statement>,
    bb: usize,
    k: int,
    u: Set<PointerId>,
    strict: bool,
)
    requires
        tables_within(acx, u),
        0 <= k <= stmts.len(),
        forall|i: int| 0 <= i < stmts.len() ==> statement_within(#[trigger] stmts[i], u),
    ensures
        yields_sound(statements_rule(acx, stmts, bb, k), u, strict),
    decreases k,
{
    if k > 0 {
        lemma_statements_sound(acx, stmts, bb, k - 1, u, strict);
        lemma_statement_sound(
            acx,
            stmts[k - 1],
            Location { block: bb, statement_index: (k - 1) as usize },
            u,
            strict,
        );
    }
}

proof fn lemma_blocks_sound(
    acx: AnalysisCtxt,
    blocks: Seq<BasicBlockData>,
    k: int,
    u: Set<PointerId>,
    strict: bool,
)
    requires
        tables_within(acx, u),
        0 <= k <= blocks.len(),
        forall|i: int| 0 <= i < blocks.len() ==> block_within(#[trigger] blocks[i], u),
        strict ==> forall|i: int|
            0 <= i < blocks.len() ==> floors_labelled(acx, (#[trigger] blocks[i]).terminator),
    ensures
        yields_sound(blocks_rule(acx, blocks, k), u, strict),
    decreases k,
{
    if k > 0 {
        lemma_blocks_sound(acx, blocks, k - 1, u, strict);
        let block = blocks[k - 1];
        assert(block_within(block, u));
        lemma_statements_sound(
            acx,
            block.statements@,
            (k - 1) as usize,
            block.statements@.len() as int,
            u,
            strict,
        );
        lemma_terminator_sound(acx, block.terminator, u, strict);
    }
}

/// The constraints of a body speak only of identities that label the
/// labelled types the walk was given: whatever set holds all of those holds
/// every identity in a constraint or an equivalence.  No subset constraint
/// and no equivalence speaks of "not a pointer".
pub proof fn lemma_ids_come_from_input(acx: AnalysisCtxt, body: Body, u: Set<PointerId>, out: Output)
    requires
        input_within(acx, body, u),
        body_rule(acx, body) == Ok::<Output, AnalysisError>(out),
    ensures
        sound(out, u, false),
{
    lemma_blocks_sound(acx, body.basic_blocks@, body.basic_blocks@.len() as int, u, false);
}

/// No constraint and no equivalence of a body speaks of "not a pointer",
/// provided that no call of the body asks a permission of an argument that
/// carries no label.
pub proof fn lemma_no_constraint_on_none(acx: AnalysisCtxt, body: Body, u: Set<PointerId>, out: Output)
    requires
        input_within(acx, body, u),
        all_floors_labelled(acx, body),
        body_rule(acx, body) == Ok::<Output, AnalysisError>(out),
    ensures
        sound(out, u, true),
{
    lemma_blocks_sound(acx, body.basic_blocks@, body.basic_blocks@.len() as int, u, true);
}

/// The identities that label the input of a walk: the least set that holds
/// the label of every position of every labelled type that the walk can
/// read.
pub open spec fn labels_of_input(acx: AnalysisCtxt, body: Body) -> Set<PointerId> {
    Set::new(|p: PointerId| forall|u: Set<PointerId>| input_within(acx, body, u) ==> u.contains(p))
}

/// Every identity that a constraint or an equivalence of a body speaks of
/// labels a position of a labelled type that the walk was given.
pub proof fn lemma_ids_label_the_input(acx: AnalysisCtxt, body: Body, out: Output)
    requires
        body_rule(acx, body) == Ok::<Output, AnalysisError>(out),
    ensures
        sound(out, labels_of_input(acx, body), false),
{
    let present = labels_of_input(acx, body);
    assert forall|u: Set<PointerId>| input_within(acx, body, u) implies sound(out, u, false) by {
        lemma_ids_come_from_input(acx, body, u, out);
    }
    assert forall|i: int| 0 <= i < out.constraints.len() implies constraint_sound(
        #[trigger] out.constraints[i],
        present,
        false,
    ) by {
        let c = out.constraints[i];
        assert forall|u: Set<PointerId>| input_within(acx, body, u) implies constraint_sound(
            c,
            u,
            false,
        ) by {
            assert(sound(out, u, false));
        }
        lemma_some_set_holds_input(acx, body);
        let all = Set::<PointerId>::full();
        assert(constraint_sound(c, all, false));
    }
    assert forall|i: int| 0 <= i < out.equivs.len() implies pair_sound(
        #[trigger] out.equivs[i],
        present,
    ) by {
        let pair = out.equivs[i];
        assert forall|u: Set<PointerId>| input_within(acx, body, u) implies pair_sound(pair, u) by {
            assert(sound(out, u, false));
        }
        lemma_some_set_holds_input(acx, body);
        let all = Set::<PointerId>::full();
        assert(pair_sound(pair, all));
    }
}

proof fn lemma_all_labels(lty: LTy)
    ensures
        lty.labels_in(Set::<PointerId>::full()),
    decreases lty,
{
    assert forall|i: int| 0 <= i < lty.args.len() implies (#[trigger] lty.args[i]).labels_in(
        Set::<PointerId>::full(),
    ) by {
        lemma_all_labels(lty.args[i]);
    }
}

/// The set of all identities holds the labels of any input.
proof fn lemma_some_set_holds_input(acx: AnalysisCtxt, body: Body)
    ensures
        input_within(acx, body, Set::<PointerId>::full()),
{
    let all = Set::<PointerId>::full();
    assert forall|lty: LTy| #[trigger] lty.labels_in(all) by {
        lemma_all_labels(lty);
    }
    assert forall|i: int| 0 <= i < body.basic_blocks.len() implies block_within(
        #[trigger] body.basic_blocks[i],
        all,
    ) by {
        let block = body.basic_blocks[i];
        assert forall|j: int| 0 <= j < block.statements.len() implies statement_within(
            #[trigger] block.statements[j],
            all,
        ) by {}
    }
}

} // verus!
