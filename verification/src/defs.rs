//! What is known about the function definitions of a program.

use crate::ty::{DefId, FnSig, Ty};
use vstd::prelude::*;

verus! {

/// What is known about one function definition.
#[derive(Debug)]
pub struct FnDef {
    pub def_id: DefId,
    /// The canonical path of the definition.
    pub path: String,
    pub sig: FnSig,
    /// The self type of the impl that holds the definition, if one does.
    pub parent_impl_ty: Option<Ty>,
    /// Whether the definition stands in a block of foreign items.
    pub parent_is_foreign_mod: bool,
}

/// The types that every program has.
#[derive(Debug)]
pub struct CommonTypes {
    /// The type of a byte.
    pub u8: Ty,
}

/// The definitions of a program.
#[derive(Debug)]
pub struct TyCtxt {
    pub types: CommonTypes,
    pub fn_defs: Vec<FnDef>,
}

/// The index, at or after `i`, of the first definition with the given
/// identity; the number of definitions if there is none.
pub open spec fn find_def(defs: Seq<FnDef>, id: DefId, i: int) -> int
    decreases defs.len() - i,
{
    if i < 0 || i >= defs.len() {
        defs.len() as int
    } else if defs[i].def_id == id {
        i
    } else {
        find_def(defs, id, i + 1)
    }
}

impl TyCtxt {
    /// The first definition with the given identity.
    pub open spec fn def_of(self, id: DefId) -> Option<FnDef> {
        let i = find_def(self.fn_defs@, id, 0);
        if i < self.fn_defs.len() {
            Some(self.fn_defs[i])
        } else {
            None
        }
    }

    /// Looks up the first definition with the given identity.
    pub fn fn_def(&self, id: DefId) -> (r: Option<&FnDef>)
        ensures
            match r {
                Some(d) => self.def_of(id) == Some(*d),
                None => self.def_of(id).is_none(),
            },
    {
        let len = self.fn_defs.len();
        let mut i: usize = 0;
        while i < len
            invariant
                len == self.fn_defs.len(),
                i <= len,
                find_def(self.fn_defs@, id, 0) == find_def(self.fn_defs@, id, i as int),
            decreases len - i,
        {
            if self.fn_defs[i].def_id == id {
                return Some(&self.fn_defs[i]);
            }
            i = i + 1;
        }
        None
    }
}

} // verus!
