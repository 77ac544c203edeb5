use ptr_analysis::analysis::{AnalysisCtxt, FieldTy, FnSigEntry, RvalueTy};
use ptr_analysis::constraints::Constraint;
use ptr_analysis::context::{Permission, PermissionSet, PointerId};
use ptr_analysis::defs::{CommonTypes, FnDef, TyCtxt};
use ptr_analysis::error::{AnalysisError, Inconsistent, Unsupported};
use ptr_analysis::mir::{
    AggregateKind, BasicBlockData, BinOp, Body, Location, Operand, Place, PlaceElem, Rvalue,
    Statement, Terminator,
};
use ptr_analysis::ty::{DefId, FnSig, LFnSig, LTy, Mutability, Ty, TyKind};
use ptr_analysis::type_check::{visit, TypeChecker};

type Gathered = (Vec<Constraint>, Vec<(PointerId, PointerId)>);

fn id(index: u32) -> PointerId {
    PointerId::new(index)
}

fn plain(kind: TyKind, args: Vec<LTy>) -> LTy {
    LTy { kind, label: PointerId::none(), args }
}

fn int32() -> LTy {
    LTy::leaf(TyKind::Int(32))
}

fn byte() -> LTy {
    LTy::leaf(TyKind::Uint(8))
}

fn unit() -> LTy {
    plain(TyKind::Tuple, vec![])
}

fn ptr(label: u32, pointee: LTy) -> LTy {
    LTy { kind: TyKind::RawPtr(Mutability::Mut), label: id(label), args: vec![pointee] }
}

fn reference(label: u32, pointee: LTy) -> LTy {
    LTy { kind: TyKind::Ref(Mutability::Not), label: id(label), args: vec![pointee] }
}

fn unlabeled_ptr(pointee: LTy) -> LTy {
    plain(TyKind::RawPtr(Mutability::Mut), vec![pointee])
}

fn raw(pointee: Ty) -> Ty {
    Ty { kind: TyKind::RawPtr(Mutability::Mut), args: vec![pointee] }
}

fn void() -> Ty {
    Ty { kind: TyKind::Tuple, args: vec![] }
}

fn read() -> PermissionSet {
    PermissionSet::single(Permission::Read)
}

fn read_write() -> PermissionSet {
    PermissionSet::single(Permission::Read).union(PermissionSet::single(Permission::Write))
}

fn free() -> PermissionSet {
    PermissionSet::single(Permission::Free)
}

fn offsets() -> PermissionSet {
    PermissionSet::single(Permission::OffsetAdd).union(PermissionSet::single(Permission::OffsetSub))
}

fn local(index: usize) -> Place {
    Place { local: index, projection: vec![] }
}

fn deref(index: usize) -> Place {
    Place { local: index, projection: vec![PlaceElem::Deref] }
}

fn copy(index: usize) -> Operand {
    Operand::Copy(local(index))
}

fn constant() -> Operand {
    Operand::Constant(LTy::leaf(TyKind::Uint(0)))
}

const MALLOC: DefId = DefId { krate: 0, index: 1 };
const REALLOC: DefId = DefId { krate: 0, index: 2 };
const FREE: DefId = DefId { krate: 0, index: 3 };
const OFFSET: DefId = DefId { krate: 2, index: 4 };
const IS_NULL: DefId = DefId { krate: 2, index: 5 };
const SLICE_AS_PTR: DefId = DefId { krate: 2, index: 6 };
const STR_AS_PTR: DefId = DefId { krate: 2, index: 7 };
const WALK: DefId = DefId { krate: 0, index: 8 };
const ABS: DefId = DefId { krate: 0, index: 9 };
const MEMCPY: DefId = DefId { krate: 0, index: 10 };
const CALLOC: DefId = DefId { krate: 0, index: 11 };

fn def(def_id: DefId, path: &str, parent_impl_ty: Option<Ty>, foreign: bool) -> FnDef {
    FnDef {
        def_id,
        path: path.to_string(),
        sig: FnSig { inputs: vec![raw(void())], output: raw(void()) },
        parent_impl_ty,
        parent_is_foreign_mod: foreign,
    }
}

fn tcx() -> TyCtxt {
    let slice = Ty { kind: TyKind::Slice, args: vec![Ty::leaf(TyKind::Int(32))] };
    let mut abs = def(ABS, "crate::abs", None, false);
    abs.sig = FnSig { inputs: vec![Ty::leaf(TyKind::Int(32))], output: Ty::leaf(TyKind::Int(32)) };
    TyCtxt {
        types: CommonTypes { u8: Ty::leaf(TyKind::Uint(8)) },
        fn_defs: vec![
            def(MALLOC, "crate::{{extern}}::malloc", None, true),
            def(CALLOC, "crate::{{extern}}::calloc", None, true),
            def(REALLOC, "crate::{{extern}}::realloc", None, true),
            def(FREE, "crate::{{extern}}::free", None, true),
            def(OFFSET, "core::ptr::mut_ptr::offset", Some(raw(Ty::leaf(TyKind::Int(32)))), false),
            def(IS_NULL, "core::ptr::mut_ptr::is_null", Some(raw(void())), false),
            def(SLICE_AS_PTR, "core::slice::as_mut_ptr", Some(slice), false),
            def(STR_AS_PTR, "core::str::as_ptr", Some(Ty::leaf(TyKind::Str)), false),
            def(WALK, "crate::walk", None, false),
            abs,
            def(MEMCPY, "crate::{{extern}}::memcpy", None, true),
        ],
    }
}

fn acx(local_tys: Vec<LTy>) -> AnalysisCtxt {
    AnalysisCtxt { tcx: tcx(), local_tys, field_tys: vec![], rvalue_tys: vec![], fn_sigs: vec![] }
}

fn at(block: usize, statement_index: usize) -> Location {
    Location { block, statement_index }
}

/// A context for a body of one block whose statements assign values of the
/// given labelled types.
fn acx_assigning(local_tys: Vec<LTy>, values: Vec<LTy>) -> AnalysisCtxt {
    let mut acx = acx(local_tys);
    for (i, lty) in values.into_iter().enumerate() {
        acx.rvalue_tys.push(RvalueTy { loc: at(0, i), lty });
    }
    acx
}

fn block(statements: Vec<Statement>, terminator: Terminator) -> Body {
    Body { basic_blocks: vec![BasicBlockData { statements, terminator }] }
}

fn assigns(statements: Vec<(Place, Rvalue)>) -> Body {
    block(
        statements.into_iter().map(|(pl, rv)| Statement::Assign(pl, rv)).collect(),
        Terminator::Other,
    )
}

fn call(func: DefId, args: Vec<Operand>, destination: Place) -> Body {
    block(vec![], Terminator::Call { func: Ty::leaf(TyKind::FnDef(func)), args, destination })
}

fn run(acx: &AnalysisCtxt, body: &Body) -> Result<Gathered, AnalysisError> {
    visit(acx, body).map(|(constraints, equivs)| (constraints.constraints, equivs))
}

fn gathered(acx: &AnalysisCtxt, body: &Body) -> Gathered {
    run(acx, body).unwrap()
}

fn stopped(acx: &AnalysisCtxt, body: &Body) -> AnalysisError {
    run(acx, body).unwrap_err()
}

#[test]
fn empty_body_gathers_nothing() {
    let a = acx(vec![]);
    assert_eq!(gathered(&a, &Body { basic_blocks: vec![] }), (vec![], vec![]));
    assert_eq!(gathered(&a, &block(vec![Statement::Other], Terminator::Other)), (vec![], vec![]));
}

#[test]
fn assignment_makes_destination_a_subset_of_source() {
    // _0 = _1
    let a = acx_assigning(vec![ptr(1, int32()), ptr(2, int32())], vec![ptr(2, int32())]);
    let b = assigns(vec![(local(0), Rvalue::Use(copy(1)))]);
    assert_eq!(gathered(&a, &b), (vec![Constraint::Subset(id(1), id(2))], vec![]));
    // Never the reverse.
    assert!(!gathered(&a, &b).0.contains(&Constraint::Subset(id(2), id(1))));
}

#[test]
fn assignment_of_plain_values_gathers_nothing() {
    let a = acx_assigning(vec![int32(), int32()], vec![int32()]);
    let b = assigns(vec![(local(0), Rvalue::Use(copy(1)))]);
    assert_eq!(gathered(&a, &b), (vec![], vec![]));
}

#[test]
fn nested_pointers_are_made_equivalent() {
    // _0 = _1, both pointers to pointers to pointers
    let a = acx_assigning(
        vec![ptr(1, ptr(3, ptr(5, int32()))), ptr(2, ptr(4, ptr(6, int32())))],
        vec![ptr(2, ptr(4, ptr(6, int32())))],
    );
    let b = assigns(vec![(local(0), Rvalue::Use(copy(1)))]);
    assert_eq!(
        gathered(&a, &b),
        (vec![Constraint::Subset(id(1), id(2))], vec![(id(3), id(4)), (id(5), id(6))])
    );
}

#[test]
fn equivalences_come_outermost_first_then_argument_by_argument() {
    let pair = |a: u32, b: u32, c: u32| {
        plain(TyKind::Tuple, vec![ptr(a, ptr(b, int32())), int32(), ptr(c, int32())])
    };
    let a = acx_assigning(vec![pair(1, 2, 3), pair(4, 5, 6)], vec![pair(4, 5, 6)]);
    let b = assigns(vec![(local(0), Rvalue::Use(Operand::Move(local(1))))]);
    assert_eq!(
        gathered(&a, &b),
        (vec![], vec![(id(1), id(4)), (id(2), id(5)), (id(3), id(6))])
    );
}

#[test]
fn store_through_pointer_needs_read_and_write() {
    // *_0 = _1
    let a = acx_assigning(vec![ptr(1, ptr(3, int32())), ptr(2, int32())], vec![ptr(2, int32())]);
    let b = assigns(vec![(deref(0), Rvalue::Use(copy(1)))]);
    assert_eq!(
        gathered(&a, &b),
        (
            vec![Constraint::AllPerms(id(1), read_write()), Constraint::Subset(id(3), id(2))],
            vec![]
        )
    );
}

#[test]
fn load_through_pointers_needs_read_at_every_level() {
    // _1 = **_0
    let a = acx_assigning(vec![ptr(1, ptr(3, int32())), int32()], vec![int32()]);
    let source = Place { local: 0, projection: vec![PlaceElem::Deref, PlaceElem::Deref] };
    let b = assigns(vec![(local(1), Rvalue::Use(Operand::Copy(source)))]);
    assert_eq!(
        gathered(&a, &b),
        (vec![Constraint::AllPerms(id(1), read()), Constraint::AllPerms(id(3), read())], vec![])
    );
}

#[test]
fn write_through_two_levels_needs_write_at_both() {
    // **_0 = _1
    let a = acx_assigning(vec![ptr(1, ptr(3, int32())), int32()], vec![int32()]);
    let dest = Place { local: 0, projection: vec![PlaceElem::Deref, PlaceElem::Deref] };
    let b = assigns(vec![(dest, Rvalue::Use(copy(1)))]);
    assert_eq!(
        gathered(&a, &b),
        (
            vec![
                Constraint::AllPerms(id(1), read_write()),
                Constraint::AllPerms(id(3), read_write())
            ],
            vec![]
        )
    );
}

#[test]
fn pointer_without_label_is_not_recorded() {
    // _1 = *_0, where the pointer carries no label
    let a = acx_assigning(vec![unlabeled_ptr(int32()), int32()], vec![int32()]);
    let b = assigns(vec![(local(1), Rvalue::Use(Operand::Copy(deref(0))))]);
    assert_eq!(gathered(&a, &b), (vec![], vec![]));
}

#[test]
fn address_of_field_through_pointer_is_no_access() {
    // _1 = &(*_0).1
    let pair = || plain(TyKind::Tuple, vec![int32(), int32()]);
    let a = acx_assigning(vec![ptr(1, pair()), ptr(2, int32())], vec![ptr(5, int32())]);
    let place = Place { local: 0, projection: vec![PlaceElem::Deref, PlaceElem::Field(1)] };
    let b = assigns(vec![(local(1), Rvalue::Ref(Mutability::Not, place))]);
    assert_eq!(gathered(&a, &b), (vec![Constraint::Subset(id(2), id(5))], vec![]));
}

#[test]
fn address_through_two_pointers_loads_the_first() {
    // _1 = &raw (**_0).1
    let pair = || plain(TyKind::Tuple, vec![int32(), int32()]);
    let a = acx_assigning(vec![ptr(7, ptr(1, pair())), ptr(2, int32())], vec![ptr(5, int32())]);
    let place = Place {
        local: 0,
        projection: vec![PlaceElem::Deref, PlaceElem::Deref, PlaceElem::Field(1)],
    };
    let b = assigns(vec![(local(1), Rvalue::AddressOf(Mutability::Mut, place))]);
    assert_eq!(
        gathered(&a, &b),
        (vec![Constraint::AllPerms(id(7), read()), Constraint::Subset(id(2), id(5))], vec![])
    );
}

#[test]
fn address_of_local_gathers_only_the_assignment() {
    let a = acx_assigning(vec![int32(), ptr(2, int32())], vec![ptr(5, int32())]);
    let b = assigns(vec![(local(1), Rvalue::Ref(Mutability::Mut, local(0)))]);
    assert_eq!(gathered(&a, &b), (vec![Constraint::Subset(id(2), id(5))], vec![]));
}

#[test]
fn fields_of_algebraic_types_come_from_the_table() {
    // _1 = (*_0).3, where the field is a pointer
    let adt = DefId { krate: 0, index: 50 };
    let record = || plain(TyKind::Adt(adt), vec![]);
    let mut a = acx_assigning(vec![ptr(1, record()), ptr(2, int32())], vec![ptr(9, int32())]);
    a.field_tys.push(FieldTy { adt, field: 3, lty: ptr(9, int32()) });
    let place = Place { local: 0, projection: vec![PlaceElem::Deref, PlaceElem::Field(3)] };
    let b = assigns(vec![(local(1), Rvalue::Use(Operand::Copy(place)))]);
    assert_eq!(
        gathered(&a, &b),
        (vec![Constraint::AllPerms(id(1), read()), Constraint::Subset(id(2), id(9))], vec![])
    );

    // *((*_0).3) = _2
    let mut a = acx_assigning(vec![ptr(1, record()), ptr(2, int32()), int32()], vec![int32()]);
    a.field_tys.push(FieldTy { adt, field: 3, lty: ptr(9, int32()) });
    let place = Place {
        local: 0,
        projection: vec![PlaceElem::Deref, PlaceElem::Field(3), PlaceElem::Deref],
    };
    let b = assigns(vec![(place, Rvalue::Use(copy(2)))]);
    assert_eq!(
        gathered(&a, &b),
        (
            vec![
                Constraint::AllPerms(id(1), read_write()),
                Constraint::AllPerms(id(9), read_write())
            ],
            vec![]
        )
    );
}

#[test]
fn operations_read_their_operands() {
    // _2 = *_0 + *_1; _2 = -*_0; _2 = *_0 as _; _2 = len(*_1)
    let a = acx_assigning(
        vec![ptr(1, int32()), ptr(2, int32()), int32()],
        vec![int32(), int32(), int32(), int32(), int32()],
    );
    let b = assigns(vec![
        (
            local(2),
            Rvalue::BinaryOp(BinOp::Add, Operand::Copy(deref(0)), Operand::Copy(deref(1))),
        ),
        (local(2), Rvalue::UnaryOp(Operand::Copy(deref(0)))),
        (local(2), Rvalue::Cast(Operand::Move(deref(0)))),
        (local(2), Rvalue::Len(deref(1))),
        (
            local(2),
            Rvalue::CheckedBinaryOp(BinOp::Mul, constant(), Operand::Copy(deref(1))),
        ),
    ]);
    assert_eq!(
        gathered(&a, &b),
        (
            vec![
                Constraint::AllPerms(id(1), read()),
                Constraint::AllPerms(id(2), read()),
                Constraint::AllPerms(id(1), read()),
                Constraint::AllPerms(id(1), read()),
                Constraint::AllPerms(id(2), read()),
                Constraint::AllPerms(id(2), read()),
            ],
            vec![]
        )
    );
}

#[test]
fn constants_and_nullary_operations_gather_nothing() {
    let a = acx_assigning(vec![int32()], vec![int32(), int32()]);
    let b = assigns(vec![
        (local(0), Rvalue::Use(constant())),
        (local(0), Rvalue::NullaryOp),
    ]);
    assert_eq!(gathered(&a, &b), (vec![], vec![]));
}

#[test]
fn array_operands_are_assigned_to_the_element_type() {
    // _0 = [_1, _2]
    let array = |label: u32| plain(TyKind::Array(2), vec![ptr(label, int32())]);
    let a = acx_assigning(vec![array(1), ptr(2, int32()), ptr(3, int32())], vec![array(9)]);
    let b = assigns(vec![(
        local(0),
        Rvalue::Aggregate(AggregateKind::Array, vec![copy(1), copy(2)]),
    )]);
    assert_eq!(
        gathered(&a, &b),
        (
            vec![Constraint::Subset(id(9), id(2)), Constraint::Subset(id(9), id(3))],
            vec![(id(1), id(9))]
        )
    );
}

#[test]
fn statements_are_visited_in_order_across_blocks() {
    let mut a = acx(vec![ptr(1, int32()), ptr(2, int32()), ptr(3, int32())]);
    a.rvalue_tys.push(RvalueTy { loc: at(0, 0), lty: ptr(2, int32()) });
    a.rvalue_tys.push(RvalueTy { loc: at(0, 1), lty: ptr(3, int32()) });
    a.rvalue_tys.push(RvalueTy { loc: at(1, 0), lty: ptr(1, int32()) });
    // The first entry for a location counts.
    a.rvalue_tys.push(RvalueTy { loc: at(0, 0), lty: int32() });
    let b = Body {
        basic_blocks: vec![
            BasicBlockData {
                statements: vec![
                    Statement::Assign(local(0), Rvalue::Use(copy(1))),
                    Statement::Assign(local(1), Rvalue::Use(copy(2))),
                ],
                terminator: Terminator::Other,
            },
            BasicBlockData {
                statements: vec![Statement::Assign(local(2), Rvalue::Use(copy(0)))],
                terminator: Terminator::Other,
            },
        ],
    };
    assert_eq!(
        gathered(&a, &b),
        (
            vec![
                Constraint::Subset(id(1), id(2)),
                Constraint::Subset(id(2), id(3)),
                Constraint::Subset(id(3), id(1)),
            ],
            vec![]
        )
    );
}

#[test]
fn trivial_call_gathers_nothing() {
    // _1 = abs(*_0): the signature holds no pointer, so not even the
    // argument is visited.
    let a = acx(vec![ptr(1, int32()), int32()]);
    let b = call(ABS, vec![Operand::Copy(deref(0))], deref(0));
    assert_eq!(gathered(&a, &b), (vec![], vec![]));
}

#[test]
fn allocation_writes_its_destination() {
    // *_0 = malloc(..)
    let a = acx(vec![ptr(1, ptr(3, unit()))]);
    let b = call(MALLOC, vec![constant()], deref(0));
    assert_eq!(gathered(&a, &b), (vec![Constraint::AllPerms(id(1), read_write())], vec![]));
    let b = call(CALLOC, vec![constant(), constant()], deref(0));
    assert_eq!(gathered(&a, &b), (vec![Constraint::AllPerms(id(1), read_write())], vec![]));
    // _0 = malloc(..)
    let b = call(MALLOC, vec![constant()], local(0));
    assert_eq!(gathered(&a, &b), (vec![], vec![]));
}

#[test]
fn free_needs_the_permission_to_free() {
    // _0 = free(_1)
    let a = acx(vec![unit(), ptr(2, unit())]);
    let b = call(FREE, vec![copy(1)], local(0));
    assert_eq!(gathered(&a, &b), (vec![Constraint::AllPerms(id(2), free())], vec![]));
    assert!(free().contains(Permission::Free));

    // _0 = free(*_2)
    let a = acx(vec![unit(), ptr(2, unit()), ptr(4, ptr(5, unit()))]);
    let b = call(FREE, vec![Operand::Move(deref(2))], local(0));
    assert_eq!(
        gathered(&a, &b),
        (vec![Constraint::AllPerms(id(4), read()), Constraint::AllPerms(id(5), free())], vec![])
    );
}

#[test]
fn free_of_something_without_label_is_recorded_as_it_is() {
    // _0 = free(_1), where the argument carries no label
    let a = acx(vec![unit(), unlabeled_ptr(unit())]);
    let b = call(FREE, vec![copy(1)], local(0));
    assert_eq!(gathered(&a, &b), (vec![Constraint::AllPerms(PointerId::none(), free())], vec![]));
}

#[test]
fn realloc_frees_its_input_and_keeps_the_inner_shape() {
    // _0 = realloc(_1, ..)
    let a = acx(vec![ptr(1, ptr(3, int32())), ptr(2, ptr(4, int32()))]);
    let b = call(REALLOC, vec![copy(1), constant()], local(0));
    // The outer pointers are not linked: what comes out is a new pointer.
    assert_eq!(
        gathered(&a, &b),
        (vec![Constraint::AllPerms(id(2), free())], vec![(id(3), id(4))])
    );
}

#[test]
fn offset_needs_both_directions() {
    // _0 = _1.offset(..)
    let a = acx(vec![ptr(1, ptr(3, int32())), ptr(2, ptr(4, int32()))]);
    let b = call(OFFSET, vec![copy(1), constant()], local(0));
    assert_eq!(
        gathered(&a, &b),
        (
            vec![Constraint::Subset(id(1), id(2)), Constraint::AllPerms(id(2), offsets())],
            vec![(id(3), id(4))]
        )
    );
    assert!(offsets().contains(Permission::OffsetAdd));
    assert!(offsets().contains(Permission::OffsetSub));
    assert_eq!(offsets().bits, 0x30);
}

#[test]
fn null_test_reads_its_argument() {
    // _0 = (*_1).is_null()
    let a = acx(vec![plain(TyKind::Bool, vec![]), ptr(2, ptr(4, unit()))]);
    let b = call(IS_NULL, vec![Operand::Copy(deref(1))], deref(1));
    // The destination is not visited.
    assert_eq!(gathered(&a, &b), (vec![Constraint::AllPerms(id(2), read())], vec![]));
}

#[test]
fn slice_as_ptr_links_pointer_and_slice() {
    // _0 = _1.as_mut_ptr(), a slice of pointers
    let slice = plain(TyKind::Slice, vec![ptr(4, int32())]);
    let a = acx(vec![ptr(1, ptr(3, int32())), reference(2, slice)]);
    let b = call(SLICE_AS_PTR, vec![copy(1)], local(0));
    assert_eq!(
        gathered(&a, &b),
        (vec![Constraint::Subset(id(1), id(2))], vec![(id(3), id(4))])
    );

    // an array of integers
    let array = plain(TyKind::Array(8), vec![int32()]);
    let a = acx(vec![ptr(1, int32()), reference(2, array)]);
    assert_eq!(gathered(&a, &b), (vec![Constraint::Subset(id(1), id(2))], vec![]));
}

#[test]
fn str_as_ptr_yields_a_pointer_to_bytes() {
    let a = acx(vec![ptr(1, byte()), reference(2, LTy::leaf(TyKind::Str))]);
    let b = call(STR_AS_PTR, vec![copy(1)], local(0));
    assert_eq!(gathered(&a, &b), (vec![Constraint::Subset(id(1), id(2))], vec![]));

    let a = acx(vec![ptr(1, int32()), reference(2, LTy::leaf(TyKind::Str))]);
    assert_eq!(stopped(&a, &b), AnalysisError::Inconsistent(Inconsistent::TypeMismatch));

    let labelled_byte = LTy { kind: TyKind::Uint(8), label: id(6), args: vec![] };
    let a = acx(vec![ptr(1, labelled_byte), reference(2, LTy::leaf(TyKind::Str))]);
    assert_eq!(stopped(&a, &b), AnalysisError::Inconsistent(Inconsistent::LabelMismatch));
}

#[test]
fn slice_as_ptr_on_something_else_is_a_defect() {
    let b = call(SLICE_AS_PTR, vec![copy(1)], local(0));
    let a = acx(vec![ptr(1, int32()), reference(2, int32())]);
    assert_eq!(stopped(&a, &b), AnalysisError::Inconsistent(Inconsistent::Projection));
    let a = acx(vec![ptr(1, int32()), int32()]);
    assert_eq!(stopped(&a, &b), AnalysisError::Inconsistent(Inconsistent::Projection));
    let a = acx(vec![int32(), reference(2, plain(TyKind::Slice, vec![int32()]))]);
    assert_eq!(stopped(&a, &b), AnalysisError::Inconsistent(Inconsistent::Projection));
}

#[test]
fn local_call_assigns_arguments_and_result() {
    // _0 = walk(_1, *_2)
    let mut a = acx(vec![ptr(1, int32()), ptr(2, int32()), ptr(3, ptr(4, int32()))]);
    a.fn_sigs.push(FnSigEntry {
        def_id: WALK,
        sig: LFnSig { inputs: vec![ptr(10, int32()), ptr(12, int32())], output: ptr(11, int32()) },
    });
    let b = call(WALK, vec![copy(1), Operand::Copy(deref(2))], local(0));
    assert_eq!(
        gathered(&a, &b),
        (
            vec![
                Constraint::Subset(id(10), id(2)),
                Constraint::AllPerms(id(3), read()),
                Constraint::Subset(id(12), id(4)),
                Constraint::Subset(id(1), id(11)),
            ],
            vec![]
        )
    );

    // More arguments than parameters: the surplus is passed over.
    let b = call(WALK, vec![copy(1), copy(1), Operand::Copy(deref(2))], local(0));
    assert_eq!(
        gathered(&a, &b),
        (
            vec![
                Constraint::Subset(id(10), id(2)),
                Constraint::Subset(id(12), id(2)),
                Constraint::Subset(id(1), id(11)),
            ],
            vec![]
        )
    );
}

#[test]
fn constraints_speak_only_of_labels_that_the_types_hold() {
    let mut a = acx(vec![ptr(1, ptr(3, int32())), ptr(2, ptr(4, int32())), unlabeled_ptr(int32())]);
    a.rvalue_tys.push(RvalueTy { loc: at(0, 0), lty: ptr(4, int32()) });
    a.rvalue_tys.push(RvalueTy { loc: at(0, 1), lty: int32() });
    let b = block(
        vec![
            Statement::Assign(deref(0), Rvalue::Use(Operand::Copy(deref(1)))),
            Statement::Assign(deref(2), Rvalue::Use(constant())),
        ],
        Terminator::Call {
            func: Ty::leaf(TyKind::FnDef(REALLOC)),
            args: vec![copy(1), constant()],
            destination: local(0),
        },
    );
    let (constraints, equivs) = gathered(&a, &b);
    let known = [id(1), id(2), id(3), id(4)];
    assert!(!constraints.is_empty());
    for c in &constraints {
        match c {
            Constraint::Subset(x, y) => {
                assert!(known.contains(x) && known.contains(y));
                assert!(!x.is_none() && !y.is_none());
            }
            Constraint::AllPerms(x, _) => {
                assert!(known.contains(x));
                assert!(!x.is_none());
            }
        }
    }
    assert!(!equivs.is_empty());
    for (x, y) in &equivs {
        assert!(known.contains(x) && known.contains(y));
        assert!(!x.is_none() && !y.is_none());
    }
}

#[test]
fn unsupported_value_expressions() {
    let case = |rv: Rvalue| {
        let a = acx_assigning(vec![ptr(1, int32()), ptr(2, int32())], vec![ptr(2, int32())]);
        stopped(&a, &assigns(vec![(local(0), rv)]))
    };
    assert_eq!(case(Rvalue::Repeat(copy(1))), AnalysisError::Unsupported(Unsupported::Repeat));
    assert_eq!(
        case(Rvalue::ThreadLocalRef(DefId { krate: 0, index: 1 })),
        AnalysisError::Unsupported(Unsupported::ThreadLocalRef)
    );
    assert_eq!(
        case(Rvalue::BinaryOp(BinOp::Offset, copy(1), constant())),
        AnalysisError::Unsupported(Unsupported::OffsetOperator)
    );
    assert_eq!(
        case(Rvalue::CheckedBinaryOp(BinOp::Offset, copy(1), constant())),
        AnalysisError::Unsupported(Unsupported::OffsetOperator)
    );
    assert_eq!(
        case(Rvalue::Aggregate(AggregateKind::Tuple, vec![copy(1)])),
        AnalysisError::Unsupported(Unsupported::Aggregate)
    );
    assert_eq!(
        case(Rvalue::Aggregate(AggregateKind::Adt(DefId { krate: 0, index: 1 }), vec![])),
        AnalysisError::Unsupported(Unsupported::Aggregate)
    );
    assert_eq!(
        case(Rvalue::Discriminant(local(1))),
        AnalysisError::Unsupported(Unsupported::Rvalue)
    );
    assert_eq!(
        case(Rvalue::ShallowInitBox(copy(1))),
        AnalysisError::Unsupported(Unsupported::Rvalue)
    );
    assert_eq!(
        case(Rvalue::CopyForDeref(local(1))),
        AnalysisError::Unsupported(Unsupported::Rvalue)
    );
}

#[test]
fn unsupported_projections() {
    let slice = || plain(TyKind::Slice, vec![int32()]);
    let a = acx_assigning(vec![slice(), int32()], vec![int32()]);
    let subslice = Place { local: 0, projection: vec![PlaceElem::Subslice] };
    let b = assigns(vec![(local(1), Rvalue::Use(Operand::Copy(subslice)))]);
    assert_eq!(stopped(&a, &b), AnalysisError::Unsupported(Unsupported::Subslice));
    let downcast = Place { local: 0, projection: vec![PlaceElem::Downcast] };
    let b = assigns(vec![(downcast, Rvalue::Use(copy(1)))]);
    assert_eq!(stopped(&a, &b), AnalysisError::Unsupported(Unsupported::Downcast));
}

#[test]
fn unsupported_calls() {
    let a = acx(vec![ptr(1, int32()), ptr(2, int32())]);
    // A local function whose signature has not been computed.
    let b = call(WALK, vec![copy(1)], local(0));
    assert_eq!(stopped(&a, &b), AnalysisError::Unsupported(Unsupported::UnknownSignature));
    // A foreign function that takes a pointer.
    let b = call(MEMCPY, vec![copy(1)], local(0));
    assert_eq!(stopped(&a, &b), AnalysisError::Unsupported(Unsupported::UnknownCallee));
    // A function pointer that takes a pointer.
    let b = block(
        vec![],
        Terminator::Call {
            func: Ty { kind: TyKind::FnPtr, args: vec![raw(void()), void()] },
            args: vec![copy(1)],
            destination: local(0),
        },
    );
    assert_eq!(stopped(&a, &b), AnalysisError::Unsupported(Unsupported::UnknownCallee));
    // A generic instantiation of a local function.
    let b = block(
        vec![],
        Terminator::Call {
            func: Ty { kind: TyKind::FnDef(WALK), args: vec![Ty::leaf(TyKind::Int(32))] },
            args: vec![copy(1)],
            destination: local(0),
        },
    );
    assert_eq!(stopped(&a, &b), AnalysisError::Unsupported(Unsupported::GenericCall));
}

#[test]
fn mismatched_types_are_a_defect() {
    // _0 = _1, pointers to different types
    let a = acx_assigning(
        vec![ptr(1, int32()), ptr(2, plain(TyKind::Bool, vec![]))],
        vec![ptr(2, plain(TyKind::Bool, vec![]))],
    );
    let b = assigns(vec![(local(0), Rvalue::Use(copy(1)))]);
    assert_eq!(stopped(&a, &b), AnalysisError::Inconsistent(Inconsistent::TypeMismatch));

    // An array expression whose type is no array.
    let a = acx_assigning(vec![ptr(1, int32()), ptr(2, int32())], vec![ptr(2, int32())]);
    let b = assigns(vec![(local(0), Rvalue::Aggregate(AggregateKind::Array, vec![copy(1)]))]);
    assert_eq!(stopped(&a, &b), AnalysisError::Inconsistent(Inconsistent::TypeMismatch));
}

#[test]
fn pointer_paired_with_none_is_a_defect() {
    // At the outermost position.
    let a = acx_assigning(vec![ptr(1, int32()), unlabeled_ptr(int32())], vec![unlabeled_ptr(int32())]);
    let b = assigns(vec![(local(0), Rvalue::Use(copy(1)))]);
    assert_eq!(stopped(&a, &b), AnalysisError::Inconsistent(Inconsistent::LabelMismatch));
    // At a nested position.
    let a = acx_assigning(
        vec![ptr(1, ptr(3, int32())), ptr(2, unlabeled_ptr(int32()))],
        vec![ptr(2, unlabeled_ptr(int32()))],
    );
    assert_eq!(stopped(&a, &b), AnalysisError::Inconsistent(Inconsistent::LabelMismatch));
}

#[test]
fn projection_that_does_not_fit_is_a_defect() {
    let a = acx_assigning(vec![int32(), int32()], vec![int32()]);
    let b = assigns(vec![(deref(0), Rvalue::Use(copy(1)))]);
    assert_eq!(stopped(&a, &b), AnalysisError::Inconsistent(Inconsistent::Projection));
}

#[test]
fn missing_entries_are_a_defect() {
    // A local that has no type.
    let a = acx_assigning(vec![int32()], vec![int32()]);
    let b = assigns(vec![(local(1), Rvalue::Use(copy(0)))]);
    assert_eq!(stopped(&a, &b), AnalysisError::Inconsistent(Inconsistent::MissingEntry));
    // An assignment whose value has no type.
    let a = acx(vec![int32(), int32()]);
    let b = assigns(vec![(local(1), Rvalue::Use(copy(0)))]);
    assert_eq!(stopped(&a, &b), AnalysisError::Inconsistent(Inconsistent::MissingEntry));
    // A field that is not in the table.
    let adt = DefId { krate: 0, index: 50 };
    let a = acx_assigning(vec![plain(TyKind::Adt(adt), vec![]), int32()], vec![int32()]);
    let place = Place { local: 0, projection: vec![PlaceElem::Field(0)] };
    let b = assigns(vec![(local(1), Rvalue::Use(Operand::Copy(place)))]);
    assert_eq!(stopped(&a, &b), AnalysisError::Inconsistent(Inconsistent::MissingEntry));
    // A function item that has no definition.
    let a = acx(vec![int32()]);
    let b = call(DefId { krate: 0, index: 999 }, vec![], local(0));
    assert_eq!(stopped(&a, &b), AnalysisError::Inconsistent(Inconsistent::MissingEntry));
}

#[test]
fn wrong_number_of_arguments_is_a_defect() {
    let a = acx(vec![ptr(1, int32()), ptr(2, int32())]);
    let wrong = AnalysisError::Inconsistent(Inconsistent::ArgumentCount);
    assert_eq!(stopped(&a, &call(FREE, vec![copy(1), copy(1)], local(0))), wrong);
    assert_eq!(stopped(&a, &call(FREE, vec![], local(0))), wrong);
    assert_eq!(stopped(&a, &call(REALLOC, vec![copy(1)], local(0))), wrong);
    assert_eq!(stopped(&a, &call(OFFSET, vec![copy(1)], local(0))), wrong);
    assert_eq!(stopped(&a, &call(IS_NULL, vec![], local(0))), wrong);
    assert_eq!(stopped(&a, &call(SLICE_AS_PTR, vec![], local(0))), wrong);
}

#[test]
fn first_failure_stops_the_walk() {
    let a = acx_assigning(vec![ptr(1, int32()), ptr(2, int32())], vec![ptr(2, int32()), ptr(2, int32())]);
    let b = assigns(vec![
        (local(0), Rvalue::Repeat(copy(1))),
        (local(0), Rvalue::ThreadLocalRef(DefId { krate: 0, index: 1 })),
    ]);
    assert_eq!(stopped(&a, &b), AnalysisError::Unsupported(Unsupported::Repeat));
}

#[test]
fn walk_step_by_step() {
    let mut a = acx(vec![ptr(1, ptr(3, int32())), ptr(2, int32()), unit()]);
    a.rvalue_tys.push(RvalueTy { loc: at(4, 2), lty: ptr(2, int32()) });
    let mut tc = TypeChecker::new(&a);

    assert_eq!(tc.visit_place(&deref(0), Mutability::Not), Ok(()));
    assert_eq!(tc.visit_place_ref(deref(0).as_ref(), Mutability::Mut), Ok(()));
    assert_eq!(tc.visit_operand(&Operand::Move(deref(0))), Ok(()));
    assert_eq!(tc.visit_operand(&constant()), Ok(()));
    assert_eq!(tc.visit_rvalue(&Rvalue::Len(deref(0)), &int32()), Ok(()));
    assert_eq!(
        tc.visit_statement(&Statement::Assign(deref(0), Rvalue::Use(copy(1))), at(4, 2)),
        Ok(())
    );
    assert_eq!(tc.visit_statement(&Statement::Other, at(4, 3)), Ok(()));
    assert_eq!(
        tc.visit_terminator(&Terminator::Call {
            func: Ty::leaf(TyKind::FnDef(FREE)),
            args: vec![copy(1)],
            destination: local(2),
        }),
        Ok(())
    );
    assert_eq!(tc.visit_terminator(&Terminator::Other), Ok(()));
    assert_eq!(
        tc.visit_rvalue(&Rvalue::Repeat(copy(1)), &int32()),
        Err(AnalysisError::Unsupported(Unsupported::Repeat))
    );

    let (constraints, equivs) = tc.finish();
    assert_eq!(
        constraints.constraints,
        vec![
            Constraint::AllPerms(id(1), read()),
            Constraint::AllPerms(id(1), read_write()),
            Constraint::AllPerms(id(1), read()),
            Constraint::AllPerms(id(1), read()),
            Constraint::AllPerms(id(1), read_write()),
            Constraint::Subset(id(3), id(2)),
            Constraint::AllPerms(id(2), free()),
        ]
    );
    assert_eq!(equivs, vec![]);
}

#[test]
fn places_and_operands_are_typed() {
    let adt = DefId { krate: 0, index: 50 };
    let mut a = acx(vec![ptr(1, plain(TyKind::Tuple, vec![int32(), ptr(3, byte())]))]);
    a.field_tys.push(FieldTy { adt, field: 0, lty: int32() });
    let place = Place {
        local: 0,
        projection: vec![PlaceElem::Deref, PlaceElem::Field(1), PlaceElem::Deref],
    };
    assert_eq!(a.type_of_place(place.as_ref()).unwrap().kind, TyKind::Uint(8));
    assert_eq!(a.type_of_local(0).unwrap().label, id(1));
    assert_eq!(a.type_of_operand(&Operand::Copy(place)).unwrap().kind, TyKind::Uint(8));
    assert_eq!(a.type_of_operand(&constant()).unwrap().kind, TyKind::Uint(0));
    assert_eq!(a.type_of_field(adt, 0).unwrap().kind, TyKind::Int(32));
    assert_eq!(
        a.type_of_field(adt, 1).unwrap_err(),
        AnalysisError::Inconsistent(Inconsistent::MissingEntry)
    );
    assert_eq!(
        a.type_of_rvalue(at(0, 0)).unwrap_err(),
        AnalysisError::Inconsistent(Inconsistent::MissingEntry)
    );
    assert!(a.fn_sig(WALK).is_none());
}

#[test]
fn labelled_types_are_compared_and_stripped() {
    assert!(ptr(1, int32()).has_same_type(&ptr(2, int32())));
    assert!(!ptr(1, int32()).has_same_type(&ptr(1, byte())));
    assert!(!ptr(1, int32()).has_same_type(&reference(1, int32())));
    assert!(!plain(TyKind::Tuple, vec![int32()]).has_same_type(&plain(TyKind::Tuple, vec![])));

    let ty = Ty {
        kind: TyKind::Tuple,
        args: vec![raw(Ty::leaf(TyKind::Bool)), Ty::leaf(TyKind::Char)],
    };
    let stripped = LTy::unlabeled(&ty);
    assert_eq!(stripped.kind, TyKind::Tuple);
    assert!(stripped.label.is_none());
    assert_eq!(stripped.args.len(), 2);
    assert_eq!(stripped.args[0].kind, TyKind::RawPtr(Mutability::Mut));
    assert!(stripped.args[0].label.is_none());
    assert_eq!(stripped.args[0].args[0].kind, TyKind::Bool);
    assert_eq!(stripped.args[1].kind, TyKind::Char);
}
