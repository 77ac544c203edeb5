//! Classification of value expressions and call targets, and projection of
//! labelled types.

use crate::defs::{FnDef, TyCtxt};
use crate::error::{AnalysisError, Inconsistent, Unsupported};
use crate::mir::{Local, Operand, Place, PlaceElem, PlaceRef, Rvalue};
use crate::ty::{DefId, LTy, Mutability, Ty, TyKind};
use vstd::prelude::*;
use vstd::slice::slice_subrange;
use vstd::string::StringExecFns;

verus! {

/// A value expression that yields a pointer into a place.
#[derive(Debug)]
pub enum RvalueDesc<'a> {
    /// A pointer projection, such as `&(*x.y).z`: a base pointer (`x.y`)
    /// and a projection from its pointee (`.z`).  The base may hold
    /// dereferences; the projection holds none.
    Project { base: PlaceRef<'a>, proj: &'a [PlaceElem] },
    /// The address of a local or of a part of it, such as `&x.y`: the local
    /// and a projection that holds no dereference.
    AddrOfLocal { local: Local, proj: &'a [PlaceElem] },
}

/// The index of the last dereference among the first `k` steps.
pub open spec fn last_deref(proj: Seq<PlaceElem>, k: int) -> Option<int>
    decreases k,
{
    if k <= 0 {
        None
    } else if proj[k - 1] is Deref {
        Some(k - 1)
    } else {
        last_deref(proj, k - 1)
    }
}

/// `last_deref` finds a dereference after which none follows, or there is
/// none at all.
pub proof fn lemma_last_deref(proj: Seq<PlaceElem>, k: int)
    requires
        0 <= k <= proj.len(),
    ensures
        match last_deref(proj, k) {
            Some(i) => 0 <= i < k && proj[i] is Deref && forall|j: int|
                i < j < k ==> !(#[trigger] proj[j] is Deref),
            None => forall|j: int| 0 <= j < k ==> !(#[trigger] proj[j] is Deref),
        },
    decreases k,
{
    if k > 0 && !(proj[k - 1] is Deref) {
        lemma_last_deref(proj, k - 1);
    }
}

/// What `describe_rvalue` makes of a place of which the address is taken:
/// the place is split at its last dereference; without one it is a part of
/// a local.
pub open spec fn describes_address(place: Place, d: RvalueDesc<'_>) -> bool {
    let steps = place.projection@;
    match last_deref(steps, steps.len() as int) {
        Some(i) => d matches RvalueDesc::Project { base, proj } && base.local == place.local
            && base.projection@ == steps.subrange(0, i) && proj@ == steps.subrange(
            i + 1,
            steps.len() as int,
        ),
        None => d matches RvalueDesc::AddrOfLocal { local, proj } && local == place.local
            && proj@ == steps,
    }
}

/// What `describe_rvalue` makes of a place that is used as a value: the
/// whole place is the base pointer, and nothing is projected from it.
pub open spec fn describes_use(place: Place, d: RvalueDesc<'_>) -> bool {
    d matches RvalueDesc::Project { base, proj } && base.local == place.local && base.projection@
        == place.projection@ && proj@ == Seq::<PlaceElem>::empty()
}

/// Splits a place of which the address is taken at its last dereference.
fn split_at_last_deref<'a>(pl: &'a Place) -> (d: RvalueDesc<'a>)
    ensures
        describes_address(*pl, d),
{
    let projection = pl.projection.as_slice();
    let len = projection.len();
    let mut k: usize = len;
    while k > 0
        invariant
            projection@ == pl.projection@,
            len == projection@.len(),
            k <= len,
            last_deref(projection@, len as int) == last_deref(projection@, k as int),
        decreases k,
    {
        match projection[k - 1] {
            PlaceElem::Deref => {
                let i = k - 1;
                return RvalueDesc::Project {
                    base: PlaceRef { local: pl.local, projection: slice_subrange(projection, 0, i) },
                    proj: slice_subrange(projection, i + 1, len),
                };
            },
            _ => {},
        }
        k = k - 1;
    }
    RvalueDesc::AddrOfLocal { local: pl.local, proj: projection }
}

/// Describes a value expression that yields a pointer into a place.  A place
/// used as a value and the address of a place are described; a constant and
/// every other expression are not.
pub fn describe_rvalue<'a>(rv: &'a Rvalue) -> (r: Option<RvalueDesc<'a>>)
    ensures
        match *rv {
            Rvalue::Use(Operand::Copy(pl)) | Rvalue::Use(Operand::Move(pl)) => r is Some
                && describes_use(pl, r.unwrap()),
            Rvalue::Ref(_, pl) | Rvalue::AddressOf(_, pl) => r is Some && describes_address(
                pl,
                r.unwrap(),
            ),
            _ => r is None,
        },
{
    match rv {
        Rvalue::Use(op) => match op {
            Operand::Move(pl) | Operand::Copy(pl) => {
                let base = pl.as_ref();
                let proj = slice_subrange(base.projection, 0, 0);
                assert(proj@ =~= Seq::<PlaceElem>::empty());
                Some(RvalueDesc::Project { base, proj })
            },
            Operand::Constant(_) => None,
        },
        Rvalue::Ref(_, pl) | Rvalue::AddressOf(_, pl) => Some(split_at_last_deref(pl)),
        _ => None,
    }
}

/// The target of a call, classified.
#[derive(Debug)]
pub enum Callee<'a> {
    /// A function that neither takes nor returns anything from which a raw
    /// pointer can be reached.  A call of it has no effect on permissions.
    Trivial,
    /// A function whose definition cannot be had: a foreign item, a function
    /// of another crate, a function pointer, or no function at all.
    UnknownDef { ty: &'a Ty },
    /// A function of the crate under analysis that is known statically, is
    /// not trivial and is no built-in.
    LocalDef { def_id: DefId, substs: &'a Vec<Ty> },
    /// The `offset` method of a raw pointer.
    PtrOffset { pointee_ty: &'a Ty, mutbl: Mutability },
    /// The `as_ptr` and `as_mut_ptr` methods of a slice, an array or a
    /// string: the type pointed to, its element type (a byte for a string),
    /// and the mutability of the pointer that comes out.
    SliceAsPtr { pointee_ty: &'a Ty, elem_ty: &'a Ty, mutbl: Mutability },
    Malloc,
    Calloc,
    Free,
    Realloc,
    /// The `is_null` method of a raw pointer.
    IsNull,
}

/// A function that the analysis knows by its path.
#[derive(Clone, Copy, Debug, PartialEq, Eq, Structural, Hash)]
pub enum Builtin {
    PtrOffset(Mutability),
    SliceAsPtr(Mutability),
    StrAsPtr(Mutability),
    IsNull,
    Malloc,
    Calloc,
    Realloc,
    Free,
}

/// The closed table of the paths that name a built-in.
pub open spec fn builtin_of(path: Seq<char>) -> Option<Builtin> {
    if path == "core::ptr::const_ptr::offset"@ {
        Some(Builtin::PtrOffset(Mutability::Not))
    } else if path == "core::ptr::mut_ptr::offset"@ {
        Some(Builtin::PtrOffset(Mutability::Mut))
    } else if path == "core::slice::as_ptr"@ {
        Some(Builtin::SliceAsPtr(Mutability::Not))
    } else if path == "core::slice::as_mut_ptr"@ {
        Some(Builtin::SliceAsPtr(Mutability::Mut))
    } else if path == "core::str::as_ptr"@ {
        Some(Builtin::StrAsPtr(Mutability::Not))
    } else if path == "core::str::as_mut_ptr"@ {
        Some(Builtin::StrAsPtr(Mutability::Mut))
    } else if path == "core::ptr::const_ptr::is_null"@ || path == "core::ptr::mut_ptr::is_null"@ {
        Some(Builtin::IsNull)
    } else if path == "crate::{{extern}}::malloc"@ || path
        == "crate::{{extern}}::c2rust_test_typed_malloc"@ {
        Some(Builtin::Malloc)
    } else if path == "crate::{{extern}}::calloc"@ || path
        == "crate::{{extern}}::c2rust_test_typed_calloc"@ {
        Some(Builtin::Calloc)
    } else if path == "crate::{{extern}}::realloc"@ || path
        == "crate::{{extern}}::c2rust_test_typed_realloc"@ {
        Some(Builtin::Realloc)
    } else if path == "crate::{{extern}}::free"@ || path
        == "crate::{{extern}}::c2rust_test_typed_free"@ {
        Some(Builtin::Free)
    } else {
        None
    }
}

/// Whether a path is the given name.
fn path_is(path: &String, name: &str) -> (b: bool)
    ensures
        b == (path@ == name@),
{
    let other = String::from_str(name);
    *path == other
}

/// Looks a path up in the table of built-ins.
pub fn builtin(path: &String) -> (b: Option<Builtin>)
    ensures
        b == builtin_of(path@),
{
    if path_is(path, "core::ptr::const_ptr::offset") {
        Some(Builtin::PtrOffset(Mutability::Not))
    } else if path_is(path, "core::ptr::mut_ptr::offset") {
        Some(Builtin::PtrOffset(Mutability::Mut))
    } else if path_is(path, "core::slice::as_ptr") {
        Some(Builtin::SliceAsPtr(Mutability::Not))
    } else if path_is(path, "core::slice::as_mut_ptr") {
        Some(Builtin::SliceAsPtr(Mutability::Mut))
    } else if path_is(path, "core::str::as_ptr") {
        Some(Builtin::StrAsPtr(Mutability::Not))
    } else if path_is(path, "core::str::as_mut_ptr") {
        Some(Builtin::StrAsPtr(Mutability::Mut))
    } else if path_is(path, "core::ptr::const_ptr::is_null") || path_is(
        path,
        "core::ptr::mut_ptr::is_null",
    ) {
        Some(Builtin::IsNull)
    } else if path_is(path, "crate::{{extern}}::malloc") || path_is(
        path,
        "crate::{{extern}}::c2rust_test_typed_malloc",
    ) {
        Some(Builtin::Malloc)
    } else if path_is(path, "crate::{{extern}}::calloc") || path_is(
        path,
        "crate::{{extern}}::c2rust_test_typed_calloc",
    ) {
        Some(Builtin::Calloc)
    } else if path_is(path, "crate::{{extern}}::realloc") || path_is(
        path,
        "crate::{{extern}}::c2rust_test_typed_realloc",
    ) {
        Some(Builtin::Realloc)
    } else if path_is(path, "crate::{{extern}}::free") || path_is(
        path,
        "crate::{{extern}}::c2rust_test_typed_free",
    ) {
        Some(Builtin::Free)
    } else {
        None
    }
}

/// A pointer, a reference, an array or a slice has one type inside.
pub open spec fn has_inner_ty(ty: Ty) -> bool {
    (ty.kind is Array || ty.kind is Slice || ty.kind is RawPtr || ty.kind is Ref) && ty.args.len()
        > 0
}

/// The one type inside a pointer, a reference, an array or a slice.
fn inner_ty<'a>(ty: &'a Ty) -> (r: Result<&'a Ty, AnalysisError>)
    ensures
        match r {
            Ok(t) => has_inner_ty(*ty) && *t == ty.args[0],
            Err(e) => !has_inner_ty(*ty) && e == AnalysisError::Inconsistent(
                Inconsistent::InnerType,
            ),
        },
{
    match ty.kind {
        TyKind::Array(_) | TyKind::Slice | TyKind::RawPtr(_) | TyKind::Ref(_) => {
            if ty.args.len() > 0 {
                Ok(&ty.args[0])
            } else {
                Err(AnalysisError::Inconsistent(Inconsistent::InnerType))
            }
        },
        _ => Err(AnalysisError::Inconsistent(Inconsistent::InnerType)),
    }
}

/// None of the types can reach a raw pointer.
pub open spec fn all_pointer_free(tys: Seq<Ty>) -> bool {
    forall|i: int| 0 <= i < tys.len() ==> (#[trigger] tys[i]).pointer_free()
}

/// Whether none of the types can reach a raw pointer.
fn all_trivial(tys: &Vec<Ty>) -> (b: bool)
    ensures
        b == all_pointer_free(tys@),
{
    let len = tys.len();
    let mut i: usize = 0;
    while i < len
        invariant
            len == tys.len(),
            i <= len,
            forall|j: int| 0 <= j < i ==> (#[trigger] tys[j]).pointer_free(),
        decreases len - i,
    {
        if !tys[i].is_trivial() {
            return false;
        }
        i = i + 1;
    }
    true
}

/// The class of a built-in whose definition is `def`.
pub open spec fn classify_builtin<'a>(tcx: &'a TyCtxt, def: &'a FnDef, b: Builtin) -> Result<
    Callee<'a>,
    AnalysisError,
> {
    match b {
        Builtin::IsNull => Ok(Callee::IsNull),
        Builtin::Malloc => Ok(Callee::Malloc),
        Builtin::Calloc => Ok(Callee::Calloc),
        Builtin::Realloc => Ok(Callee::Realloc),
        Builtin::Free => Ok(Callee::Free),
        _ => match def.parent_impl_ty {
            None => Err(AnalysisError::Inconsistent(Inconsistent::MissingEntry)),
            Some(self_ty) => match b {
                Builtin::StrAsPtr(mutbl) => Ok(
                    Callee::SliceAsPtr { pointee_ty: &self_ty, elem_ty: &tcx.types.u8, mutbl },
                ),
                _ => if !has_inner_ty(self_ty) {
                    Err(AnalysisError::Inconsistent(Inconsistent::InnerType))
                } else {
                    match b {
                        Builtin::PtrOffset(mutbl) => Ok(
                            Callee::PtrOffset { pointee_ty: &self_ty.args[0], mutbl },
                        ),
                        Builtin::SliceAsPtr(mutbl) => Ok(
                            Callee::SliceAsPtr {
                                pointee_ty: &self_ty,
                                elem_ty: &self_ty.args[0],
                                mutbl,
                            },
                        ),
                        _ => Ok(Callee::IsNull),
                    }
                },
            },
        },
    }
}

/// The class of a call target of the given type.
///
/// A function item or function pointer whose signature is free of pointers
/// is trivial.  Else a function item is looked up by its path in the table
/// of built-ins.  Else it is a local definition if it belongs to the crate
/// under analysis, stands in no block of foreign items and is not
/// instantiated with generic arguments; with generic arguments it is not
/// supported.  Anything else has no known definition.
pub open spec fn classify<'a>(tcx: &'a TyCtxt, ty: &'a Ty) -> Result<Callee<'a>, AnalysisError> {
    match ty.kind {
        TyKind::FnDef(did) => match tcx.def_of(did) {
            None => Err(AnalysisError::Inconsistent(Inconsistent::MissingEntry)),
            Some(def) => if def.sig.pointer_free() {
                Ok(Callee::Trivial)
            } else {
                match builtin_of(def.path@) {
                    Some(b) => classify_builtin(tcx, &def, b),
                    None => if !did.is_local() || def.parent_is_foreign_mod {
                        Ok(Callee::UnknownDef { ty })
                    } else if ty.args.len() > 0 {
                        Err(AnalysisError::Unsupported(Unsupported::GenericCall))
                    } else {
                        Ok(Callee::LocalDef { def_id: did, substs: &ty.args })
                    },
                }
            },
        },
        TyKind::FnPtr => if all_pointer_free(ty.args@) {
            Ok(Callee::Trivial)
        } else {
            Ok(Callee::UnknownDef { ty })
        },
        _ => Ok(Callee::UnknownDef { ty }),
    }
}

/// Classifies a built-in whose definition is `def`.
fn builtin_callee<'a>(tcx: &'a TyCtxt, def: &'a FnDef, b: Builtin) -> (r: Result<
    Callee<'a>,
    AnalysisError,
>)
    ensures
        r == classify_builtin(tcx, def, b),
{
    match b {
        Builtin::IsNull => Ok(Callee::IsNull),
        Builtin::Malloc => Ok(Callee::Malloc),
        Builtin::Calloc => Ok(Callee::Calloc),
        Builtin::Realloc => Ok(Callee::Realloc),
        Builtin::Free => Ok(Callee::Free),
        Builtin::StrAsPtr(mutbl) => match &def.parent_impl_ty {
            None => Err(AnalysisError::Inconsistent(Inconsistent::MissingEntry)),
            Some(self_ty) => Ok(
                Callee::SliceAsPtr { pointee_ty: self_ty, elem_ty: &tcx.types.u8, mutbl },
            ),
        },
        Builtin::PtrOffset(mutbl) => match &def.parent_impl_ty {
            None => Err(AnalysisError::Inconsistent(Inconsistent::MissingEntry)),
            Some(self_ty) => match inner_ty(self_ty) {
                Ok(pointee_ty) => Ok(Callee::PtrOffset { pointee_ty, mutbl }),
                Err(e) => Err(e),
            },
        },
        Builtin::SliceAsPtr(mutbl) => match &def.parent_impl_ty {
            None => Err(AnalysisError::Inconsistent(Inconsistent::MissingEntry)),
            Some(self_ty) => match inner_ty(self_ty) {
                Ok(elem_ty) => Ok(Callee::SliceAsPtr { pointee_ty: self_ty, elem_ty, mutbl }),
                Err(e) => Err(e),
            },
        },
    }
}

/// Classifies the target of a call by the type of the expression that is
/// called.
pub fn ty_callee<'a>(tcx: &'a TyCtxt, ty: &'a Ty) -> (r: Result<Callee<'a>, AnalysisError>)
    ensures
        r == classify(tcx, ty),
{
    match ty.kind {
        TyKind::FnDef(did) => match tcx.fn_def(did) {
            None => Err(AnalysisError::Inconsistent(Inconsistent::MissingEntry)),
            Some(def) => {
                if def.sig.is_trivial() {
                    return Ok(Callee::Trivial);
                }
                match builtin(&def.path) {
                    Some(b) => builtin_callee(tcx, def, b),
                    None => {
                        if !did.is_local() || def.parent_is_foreign_mod {
                            Ok(Callee::UnknownDef { ty })
                        } else if ty.args.len() > 0 {
                            Err(AnalysisError::Unsupported(Unsupported::GenericCall))
                        } else {
                            Ok(Callee::LocalDef { def_id: did, substs: &ty.args })
                        }
                    },
                }
            },
        },
        TyKind::FnPtr => {
            if all_trivial(&ty.args) {
                Ok(Callee::Trivial)
            } else {
                Ok(Callee::UnknownDef { ty })
            }
        },
        _ => Ok(Callee::UnknownDef { ty }),
    }
}

/// Unwraps the reference in a projection result.
pub open spec fn owned(r: Result<&LTy, AnalysisError>) -> Result<LTy, AnalysisError> {
    match r {
        Ok(t) => Ok(*t),
        Err(e) => Err(e),
    }
}

/// The labelled type that one step leads to, where the step is not a field
/// of an algebraic type.
pub open spec fn projected(lty: LTy, proj: PlaceElem) -> Result<LTy, AnalysisError> {
    match proj {
        PlaceElem::Deref => if (lty.kind is Ref || lty.kind is RawPtr) && lty.args.len() == 1 {
            Ok(lty.args[0])
        } else {
            Err(AnalysisError::Inconsistent(Inconsistent::Projection))
        },
        PlaceElem::Field(f) => if lty.kind is Tuple && f < lty.args.len() {
            Ok(lty.args[f as int])
        } else {
            Err(AnalysisError::Inconsistent(Inconsistent::Projection))
        },
        PlaceElem::Index(_) | PlaceElem::ConstantIndex => if (lty.kind is Array
            || lty.kind is Slice) && lty.args.len() == 1 {
            Ok(lty.args[0])
        } else {
            Err(AnalysisError::Inconsistent(Inconsistent::Projection))
        },
        PlaceElem::Subslice => Err(AnalysisError::Unsupported(Unsupported::Subslice)),
        PlaceElem::Downcast => Err(AnalysisError::Unsupported(Unsupported::Downcast)),
    }
}

/// The step is a field of an algebraic type: the caller's strategy decides
/// where it leads.
pub open spec fn is_adt_field(lty: LTy, proj: PlaceElem) -> bool {
    proj is Field && lty.kind is Adt
}

/// Follows one step of a place through a labelled type.
///
/// A dereference leads to the pointee of a pointer or reference, a field to
/// the field of a tuple, an index to the element of an array or slice.  For
/// a field of an algebraic type the caller's `adt_func` is asked, once.  A
/// step that the type does not have is a defect of the input; subslices and
/// downcasts are not supported.
pub fn lty_project<'a, F: FnOnce(&'a LTy, DefId, u32) -> Result<&'a LTy, AnalysisError>>(
    lty: &'a LTy,
    proj: &PlaceElem,
    adt_func: F,
) -> (r: Result<&'a LTy, AnalysisError>)
    requires
        is_adt_field(*lty, *proj) ==> adt_func.requires((lty, lty.kind->Adt_0, proj->Field_0)),
    ensures
        is_adt_field(*lty, *proj) ==> adt_func.ensures((lty, lty.kind->Adt_0, proj->Field_0), r),
        !is_adt_field(*lty, *proj) ==> owned(r) == projected(*lty, *proj),
{
    match *proj {
        PlaceElem::Deref => match lty.kind {
            TyKind::Ref(_) | TyKind::RawPtr(_) => {
                if lty.args.len() == 1 {
                    Ok(&lty.args[0])
                } else {
                    Err(AnalysisError::Inconsistent(Inconsistent::Projection))
                }
            },
            _ => Err(AnalysisError::Inconsistent(Inconsistent::Projection)),
        },
        PlaceElem::Field(f) => match lty.kind {
            TyKind::Tuple => {
                if (f as usize) < lty.args.len() {
                    Ok(&lty.args[f as usize])
                } else {
                    Err(AnalysisError::Inconsistent(Inconsistent::Projection))
                }
            },
            TyKind::Adt(def) => adt_func(lty, def, f),
            _ => Err(AnalysisError::Inconsistent(Inconsistent::Projection)),
        },
        PlaceElem::Index(_) | PlaceElem::ConstantIndex => match lty.kind {
            TyKind::Array(_) | TyKind::Slice => {
                if lty.args.len() == 1 {
                    Ok(&lty.args[0])
                } else {
                    Err(AnalysisError::Inconsistent(Inconsistent::Projection))
                }
            },
            _ => Err(AnalysisError::Inconsistent(Inconsistent::Projection)),
        },
        PlaceElem::Subslice => Err(AnalysisError::Unsupported(Unsupported::Subslice)),
        PlaceElem::Downcast => Err(AnalysisError::Unsupported(Unsupported::Downcast)),
    }
}

} // verus!
