//! The labelled types of one function under analysis, and the typing of
//! places and operands.

use crate::defs::TyCtxt;
use crate::error::{AnalysisError, Inconsistent};
use crate::mir::{Local, Location, Operand, PlaceElem, PlaceRef};
use crate::ty::{DefId, LFnSig, LTy};
use crate::util::{is_adt_field, lty_project, owned, projected};
use vstd::prelude::*;

verus! {

/// The labelled type of one field of an algebraic type.
#[derive(Debug)]
pub struct FieldTy {
    pub adt: DefId,
    pub field: u32,
    pub lty: LTy,
}

/// The labelled type of the value that the assignment at a location
/// computes.
#[derive(Debug)]
pub struct RvalueTy {
    pub loc: Location,
    pub lty: LTy,
}

/// The labelled signature of a function that has been analysed.
#[derive(Debug)]
pub struct FnSigEntry {
    pub def_id: DefId,
    pub sig: LFnSig,
}

/// All that the analysis of one function body is given: the definitions of
/// the program, the labelled types of the locals, of the fields of the
/// algebraic types and of the assigned values, and the labelled signatures
/// of the functions analysed before.  In each table the first entry for a
/// key counts.
#[derive(Debug)]
pub struct AnalysisCtxt {
    pub tcx: TyCtxt,
    pub local_tys: Vec<LTy>,
    pub field_tys: Vec<FieldTy>,
    pub rvalue_tys: Vec<RvalueTy>,
    pub fn_sigs: Vec<FnSigEntry>,
}

/// The index, at or after `i`, of the first entry for the field; the number
/// of entries if there is none.
pub open spec fn find_field(table: Seq<FieldTy>, adt: DefId, field: u32, i: int) -> int
    decreases table.len() - i,
{
    if i < 0 || i >= table.len() {
        table.len() as int
    } else if table[i].adt == adt && table[i].field == field {
        i
    } else {
        find_field(table, adt, field, i + 1)
    }
}

/// The index, at or after `i`, of the first entry for the location; the
/// number of entries if there is none.
pub open spec fn find_rvalue(table: Seq<RvalueTy>, loc: Location, i: int) -> int
    decreases table.len() - i,
{
    if i < 0 || i >= table.len() {
        table.len() as int
    } else if table[i].loc == loc {
        i
    } else {
        find_rvalue(table, loc, i + 1)
    }
}

/// The index, at or after `i`, of the first entry for the function; the
/// number of entries if there is none.
pub open spec fn find_sig(table: Seq<FnSigEntry>, id: DefId, i: int) -> int
    decreases table.len() - i,
{
    if i < 0 || i >= table.len() {
        table.len() as int
    } else if table[i].def_id == id {
        i
    } else {
        find_sig(table, id, i + 1)
    }
}

/// The search for a field stays within the table.
pub proof fn lemma_find_field_range(table: Seq<FieldTy>, adt: DefId, field: u32, i: int)
    requires
        0 <= i <= table.len(),
    ensures
        i <= find_field(table, adt, field, i) <= table.len(),
    decreases table.len() - i,
{
    if i < table.len() && !(table[i].adt == adt && table[i].field == field) {
        lemma_find_field_range(table, adt, field, i + 1);
    }
}

/// The search for a location stays within the table.
pub proof fn lemma_find_rvalue_range(table: Seq<RvalueTy>, loc: Location, i: int)
    requires
        0 <= i <= table.len(),
    ensures
        i <= find_rvalue(table, loc, i) <= table.len(),
    decreases table.len() - i,
{
    if i < table.len() && table[i].loc != loc {
        lemma_find_rvalue_range(table, loc, i + 1);
    }
}

/// The search for a signature stays within the table.
pub proof fn lemma_find_sig_range(table: Seq<FnSigEntry>, id: DefId, i: int)
    requires
        0 <= i <= table.len(),
    ensures
        i <= find_sig(table, id, i) <= table.len(),
    decreases table.len() - i,
{
    if i < table.len() && table[i].def_id != id {
        lemma_find_sig_range(table, id, i + 1);
    }
}

/// A missing entry, as an error.
pub open spec fn missing() -> AnalysisError {
    AnalysisError::Inconsistent(Inconsistent::MissingEntry)
}

impl AnalysisCtxt {
    /// The labelled type of a local.
    pub open spec fn local_ty(self, local: Local) -> Result<LTy, AnalysisError> {
        if local < self.local_tys.len() {
            Ok(self.local_tys[local as int])
        } else {
            Err(missing())
        }
    }

    /// The labelled type of a field of an algebraic type.
    pub open spec fn field_ty(self, adt: DefId, field: u32) -> Result<LTy, AnalysisError> {
        let i = find_field(self.field_tys@, adt, field, 0);
        if i < self.field_tys.len() {
            Ok(self.field_tys[i].lty)
        } else {
            Err(missing())
        }
    }

    /// The labelled type of the value assigned at a location.
    pub open spec fn rvalue_ty(self, loc: Location) -> Result<LTy, AnalysisError> {
        let i = find_rvalue(self.rvalue_tys@, loc, 0);
        if i < self.rvalue_tys.len() {
            Ok(self.rvalue_tys[i].lty)
        } else {
            Err(missing())
        }
    }

    /// The labelled signature of a function, if it is known.
    pub open spec fn sig_of(self, id: DefId) -> Option<LFnSig> {
        let i = find_sig(self.fn_sigs@, id, 0);
        if i < self.fn_sigs.len() {
            Some(self.fn_sigs[i].sig)
        } else {
            None
        }
    }

    /// The labelled type that one step leads to.  A field of an algebraic
    /// type is looked up in the table of fields.
    pub open spec fn step_ty(self, lty: LTy, proj: PlaceElem) -> Result<LTy, AnalysisError> {
        if is_adt_field(lty, proj) {
            self.field_ty(lty.kind->Adt_0, proj->Field_0)
        } else {
            projected(lty, proj)
        }
    }

    /// The labelled type of a place after the first `k` steps of its path.
    /// The first step that fails decides the error.
    pub open spec fn place_ty(self, local: Local, steps: Seq<PlaceElem>, k: int) -> Result<
        LTy,
        AnalysisError,
    >
        decreases k,
    {
        if k <= 0 {
            self.local_ty(local)
        } else {
            match self.place_ty(local, steps, k - 1) {
                Ok(lty) => self.step_ty(lty, steps[k - 1]),
                Err(e) => Err(e),
            }
        }
    }

    /// The labelled type of a place.
    pub open spec fn ty_of_place(self, local: Local, steps: Seq<PlaceElem>) -> Result<
        LTy,
        AnalysisError,
    > {
        self.place_ty(local, steps, steps.len() as int)
    }

    /// The labelled type of an operand: that of its place, or the one the
    /// constant carries.
    pub open spec fn operand_ty(self, op: Operand) -> Result<LTy, AnalysisError> {
        match op {
            Operand::Copy(pl) | Operand::Move(pl) => self.ty_of_place(pl.local, pl.projection@),
            Operand::Constant(lty) => Ok(lty),
        }
    }

    /// An error in the typing of a place stays the error of every longer
    /// path.
    pub proof fn lemma_place_ty_error(self, local: Local, steps: Seq<PlaceElem>, k: int, n: int)
        requires
            0 <= k <= n,
            self.place_ty(local, steps, k) is Err,
        ensures
            self.place_ty(local, steps, n) == self.place_ty(local, steps, k),
        decreases n - k,
    {
        if k < n {
            self.lemma_place_ty_error(local, steps, k, n - 1);
        }
    }

    /// Looks up the labelled type of a local.
    pub fn type_of_local(&self, local: Local) -> (r: Result<&LTy, AnalysisError>)
        ensures
            owned(r) == self.local_ty(local),
    {
        if local < self.local_tys.len() {
            Ok(&self.local_tys[local])
        } else {
            Err(AnalysisError::Inconsistent(Inconsistent::MissingEntry))
        }
    }

    /// Looks up the labelled type of a field of an algebraic type.
    pub fn type_of_field(&self, adt: DefId, field: u32) -> (r: Result<&LTy, AnalysisError>)
        ensures
            owned(r) == self.field_ty(adt, field),
    {
        let len = self.field_tys.len();
        let mut i: usize = 0;
        while i < len
            invariant
                len == self.field_tys.len(),
                i <= len,
                find_field(self.field_tys@, adt, field, 0) == find_field(
                    self.field_tys@,
                    adt,
                    field,
                    i as int,
                ),
            decreases len - i,
        {
            if self.field_tys[i].adt == adt && self.field_tys[i].field == field {
                return Ok(&self.field_tys[i].lty);
            }
            i = i + 1;
        }
        Err(AnalysisError::Inconsistent(Inconsistent::MissingEntry))
    }

    /// Looks up the labelled type of the value assigned at a location.
    pub fn type_of_rvalue(&self, loc: Location) -> (r: Result<&LTy, AnalysisError>)
        ensures
            owned(r) == self.rvalue_ty(loc),
    {
        let len = self.rvalue_tys.len();
        let mut i: usize = 0;
        while i < len
            invariant
                len == self.rvalue_tys.len(),
                i <= len,
                find_rvalue(self.rvalue_tys@, loc, 0) == find_rvalue(
                    self.rvalue_tys@,
                    loc,
                    i as int,
                ),
            decreases len - i,
        {
            if self.rvalue_tys[i].loc == loc {
                return Ok(&self.rvalue_tys[i].lty);
            }
            i = i + 1;
        }
        Err(AnalysisError::Inconsistent(Inconsistent::MissingEntry))
    }

    /// Looks up the labelled signature of a function.
    pub fn fn_sig(&self, id: DefId) -> (r: Option<&LFnSig>)
        ensures
            match r {
                Some(sig) => self.sig_of(id) == Some(*sig),
                None => self.sig_of(id).is_none(),
            },
    {
        let len = self.fn_sigs.len();
        let mut i: usize = 0;
        while i < len
            invariant
                len == self.fn_sigs.len(),
                i <= len,
                find_sig(self.fn_sigs@, id, 0) == find_sig(self.fn_sigs@, id, i as int),
            decreases len - i,
        {
            if self.fn_sigs[i].def_id == id {
                return Some(&self.fn_sigs[i].sig);
            }
            i = i + 1;
        }
        None
    }

    /// Follows one step of a place through a labelled type.
    pub fn project<'a>(&'a self, lty: &'a LTy, proj: &PlaceElem) -> (r: Result<
        &'a LTy,
        AnalysisError,
    >)
        ensures
            owned(r) == self.step_ty(*lty, *proj),
    {
        let adt_func = |_lty: &'a LTy, adt: DefId, field: u32| -> (r: Result<&'a LTy, AnalysisError>)
            ensures
                owned(r) == self.field_ty(adt, field),
            { self.type_of_field(adt, field) };
        lty_project(lty, proj, adt_func)
    }

    /// Computes the labelled type of a place.
    pub fn type_of_place<'a>(&'a self, pl: PlaceRef<'_>) -> (r: Result<&'a LTy, AnalysisError>)
        ensures
            owned(r) == self.ty_of_place(pl.local, pl.projection@),
    {
        let mut lty = match self.type_of_local(pl.local) {
            Ok(lty) => lty,
            Err(e) => {
                proof {
                    self.lemma_place_ty_error(pl.local, pl.projection@, 0, pl.projection@.len() as int);
                }
                return Err(e);
            },
        };
        let len = pl.projection.len();
        let mut i: usize = 0;
        while i < len
            invariant
                len == pl.projection@.len(),
                i <= len,
                self.place_ty(pl.local, pl.projection@, i as int) == Ok::<LTy, AnalysisError>(*lty),
            decreases len - i,
        {
            lty = match self.project(lty, &pl.projection[i]) {
                Ok(next) => next,
                Err(e) => {
                    proof {
                        self.lemma_place_ty_error(
                            pl.local,
                            pl.projection@,
                            i + 1,
                            pl.projection@.len() as int,
                        );
                    }
                    return Err(e);
                },
            };
            i = i + 1;
        }
        Ok(lty)
    }

    /// Computes the labelled type of an operand.
    pub fn type_of_operand<'a>(&'a self, op: &'a Operand) -> (r: Result<&'a LTy, AnalysisError>)
        ensures
            owned(r) == self.operand_ty(*op),
    {
        match op {
            Operand::Copy(pl) | Operand::Move(pl) => self.type_of_place(pl.as_ref()),
            Operand::Constant(lty) => Ok(lty),
        }
    }
}

} // verus!
