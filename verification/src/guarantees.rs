//! What the constraint rules guarantee.

use crate::analysis::AnalysisCtxt;
use crate::constraints::Constraint;
use crate::context::{lemma_join, lemma_masks, Permission, PermissionSet, PointerId};
use crate::defs::TyCtxt;
use crate::error::AnalysisError;
use crate::mir::{Operand, Place, Terminator};
use crate::rules::{
    assign_rule, call_rule, free_perms, offset_perms, operand_rule, Output, place_rule,
    terminator_rule,
};
use crate::ty::{LTy, Mutability, Ty, TyKind};
use crate::util::{all_pointer_free, Callee, classify};
use vstd::prelude::*;

verus! {

/// The expression that is called is a function item or a function pointer,
/// and neither a parameter nor the return value can reach a raw pointer.
pub open spec fn signature_pointer_free(tcx: TyCtxt, func: Ty) -> bool {
    match func.kind {
        TyKind::FnDef(did) => tcx.def_of(did) is Some && tcx.def_of(did)->Some_0.sig.pointer_free(),
        TyKind::FnPtr => all_pointer_free(func.args@),
        _ => false,
    }
}

/// A call whose signature holds no pointer is trivial, and a trivial call
/// adds nothing: no constraint and no equivalence.  Neither its arguments
/// nor its destination are visited, so it succeeds whatever they are.
pub proof fn lemma_trivial_call(
    acx: AnalysisCtxt,
    func: Ty,
    args: Vec<Operand>,
    destination: Place,
)
    requires
        signature_pointer_free(acx.tcx, func),
    ensures
        classify(&acx.tcx, &func) == Ok::<Callee<'_>, AnalysisError>(Callee::Trivial),
        terminator_rule(acx, Terminator::Call { func, args, destination }) == Ok::<
            Output,
            AnalysisError,
        >(Output::empty()),
{
}

/// The permissions asked of a freed pointer include the one to free; those
/// asked of an offset pointer include the offsets in both directions.
pub proof fn lemma_floor_perms()
    ensures
        free_perms().has(Permission::Free),
        offset_perms().has(Permission::OffsetAdd),
        offset_perms().has(Permission::OffsetSub),
{
    lemma_masks();
    lemma_join(PermissionSet::only(Permission::OffsetAdd), PermissionSet::only(Permission::OffsetSub));
    assert(PermissionSet::only(Permission::Free).has(Permission::Free));
    assert(PermissionSet::only(Permission::OffsetAdd).has(Permission::OffsetAdd));
    assert(PermissionSet::only(Permission::OffsetSub).has(Permission::OffsetSub));
}

/// Every reallocation and every release that is analysed asks of the
/// pointer that goes in the permission to free.
pub proof fn lemma_free_floor(
    acx: AnalysisCtxt,
    callee: Callee<'_>,
    args: Seq<Operand>,
    dest: Place,
    out: Output,
)
    requires
        callee is Realloc || callee is Free,
        call_rule(acx, callee, args, dest) == Ok::<Output, AnalysisError>(out),
    ensures
        acx.operand_ty(args[0]) is Ok,
        out.constraints.contains(
            Constraint::AllPerms(acx.operand_ty(args[0])->Ok_0.label, free_perms()),
        ),
        free_perms().has(Permission::Free),
{
    lemma_floor_perms();
    let written = place_rule(
        acx,
        dest.local,
        dest.projection@,
        Mutability::Mut,
    )->Ok_0;
    let read = operand_rule(acx, args[0])->Ok_0;
    let i = written.constraints.len() + read.constraints.len();
    let floor = Constraint::AllPerms(acx.operand_ty(args[0])->Ok_0.label, free_perms());
    assert(out.constraints[i as int] == floor);
}

/// Every pointer offset that is analysed asks of the pointer that goes in
/// the permissions to offset forwards and backwards.
pub proof fn lemma_offset_floor(
    acx: AnalysisCtxt,
    callee: Callee<'_>,
    args: Seq<Operand>,
    dest: Place,
    out: Output,
)
    requires
        callee is PtrOffset,
        call_rule(acx, callee, args, dest) == Ok::<Output, AnalysisError>(out),
    ensures
        acx.operand_ty(args[0]) is Ok,
        out.constraints.contains(
            Constraint::AllPerms(acx.operand_ty(args[0])->Ok_0.label, offset_perms()),
        ),
        offset_perms().has(Permission::OffsetAdd),
        offset_perms().has(Permission::OffsetSub),
{
    lemma_floor_perms();
    let written = place_rule(
        acx,
        dest.local,
        dest.projection@,
        Mutability::Mut,
    )->Ok_0;
    let read = operand_rule(acx, args[0])->Ok_0;
    let pl_lty = acx.ty_of_place(dest.local, dest.projection@)->Ok_0;
    let rv_lty = acx.operand_ty(args[0])->Ok_0;
    let assigned = assign_rule(pl_lty, rv_lty)->Ok_0;
    let i = written.constraints.len() + read.constraints.len() + assigned.constraints.len();
    let floor = Constraint::AllPerms(rv_lty.label, offset_perms());
    assert(out.constraints[i as int] == floor);
}

/// The pair holds the identities of the two sides at a nested position.
pub open spec fn pairs_nested_position(dest: LTy, src: LTy, pair: (PointerId, PointerId)) -> bool {
    exists|path: Seq<int>|
        path.len() > 0 && #[trigger] dest.has_path(path) && pair == (
            dest.at(path).label,
            src.at(path).label,
        )
}

/// An assignment constrains in one direction.  Where the outermost position
/// is a pointer, the one constraint is that the destination has a subset of
/// the permissions of the source, and never the reverse; where it is none,
/// there is no constraint.  Every nested position that is a pointer is
/// paired with its counterpart, and nothing else is paired.
pub proof fn lemma_assign_direction(dest: LTy, src: LTy, out: Output)
    requires
        assign_rule(dest, src) == Ok::<Output, AnalysisError>(out),
    ensures
        out.constraints == (if dest.label.is_none() {
            Seq::<Constraint>::empty()
        } else {
            seq![Constraint::Subset(dest.label, src.label)]
        }),
        dest.label != src.label ==> !out.constraints.contains(
            Constraint::Subset(src.label, dest.label),
        ),
        forall|path: Seq<int>|
            path.len() > 0 && #[trigger] dest.has_path(path) && !dest.at(path).label.is_none()
                ==> out.equivs.contains((dest.at(path).label, src.at(path).label)),
        forall|i: int|
            0 <= i < out.equivs.len() ==> pairs_nested_position(dest, src, #[trigger] out.equivs[i]),
{
    let nested = LTy::paired_args(dest.args@, src.args@, dest.args.len() as int);
    assert(out.equivs =~= nested);
    assert(out.constraints =~= (if dest.label.is_none() {
        Seq::<Constraint>::empty()
    } else {
        seq![Constraint::Subset(dest.label, src.label)]
    }));
    assert forall|path: Seq<int>|
        path.len() > 0 && #[trigger] dest.has_path(path) && !dest.at(path).label.is_none() implies
        out.equivs.contains((dest.at(path).label, src.at(path).label)) by {
        let j = path[0];
        dest.args[j].lemma_paired_covers(src.args[j], path.drop_first());
        LTy::lemma_paired_args_hold(
            dest.args@,
            src.args@,
            dest.args.len() as int,
            j,
            (dest.at(path).label, src.at(path).label),
        );
    }
    assert forall|i: int| 0 <= i < out.equivs.len() implies pairs_nested_position(
        dest,
        src,
        #[trigger] out.equivs[i],
    ) by {
        let (j, sub) = LTy::lemma_paired_args_origin(
            dest.args@,
            src.args@,
            dest.args.len() as int,
            i,
        );
        let path = seq![j] + sub;
        assert(path.drop_first() =~= sub);
        assert(dest.has_path(path));
    }
}

} // verus!
