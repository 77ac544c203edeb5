//! Pointer identities and permission sets.

use vstd::prelude::*;

verus! {

/// The index that stands for "not a pointer".
pub const NONE_INDEX: u32 = 0xffff_ffff;

/// Identity of one pointer-typed position of a labelled type.  The identity
/// with index [`NONE_INDEX`] marks a position that is not a pointer.
#[derive(Clone, Copy, Debug, PartialEq, Eq, Structural, Hash)]
pub struct PointerId {
    pub index: u32,
}

impl PointerId {
    /// The identity of the position numbered `index`.
    pub fn new(index: u32) -> (p: PointerId)
        ensures
            p.index == index,
    {
        PointerId { index }
    }

    /// The identity that marks a position that is not a pointer.
    pub open spec fn none_spec() -> PointerId {
        PointerId { index: NONE_INDEX }
    }

    #[verifier::when_used_as_spec(none_spec)]
    pub fn none() -> (p: PointerId)
        ensures
            p == Self::none_spec(),
    {
        PointerId { index: NONE_INDEX }
    }

    /// This marks a position that is not a pointer.
    pub open spec fn is_none_spec(self) -> bool {
        self.index == NONE_INDEX
    }

    /// Whether this marks a position that is not a pointer.
    #[verifier::when_used_as_spec(is_none_spec)]
    pub fn is_none(self) -> (b: bool)
        ensures
            b == self.is_none_spec(),
    {
        self.index == NONE_INDEX
    }
}

/// One capability that a pointer may need.
#[derive(Clone, Copy, Debug, PartialEq, Eq, Structural, Hash)]
pub enum Permission {
    /// The pointee is read.
    Read,
    /// The pointee is written.
    Write,
    /// No other pointer to the pointee is live.
    Unique,
    /// The pointer is used at most once.
    Linear,
    /// The pointer is offset forwards.
    OffsetAdd,
    /// The pointer is offset backwards.
    OffsetSub,
    /// The pointee is freed through the pointer.
    Free,
}

pub const READ: u16 = 0x0001;

pub const WRITE: u16 = 0x0002;

pub const UNIQUE: u16 = 0x0004;

pub const LINEAR: u16 = 0x0008;

pub const OFFSET_ADD: u16 = 0x0010;

pub const OFFSET_SUB: u16 = 0x0020;

pub const FREE: u16 = 0x0040;

/// All the bits that stand for a permission.
pub const ALL: u16 = 0x007f;

impl Permission {
    /// The bit that stands for the permission.
    pub open spec fn mask(self) -> u16 {
        match self {
            Permission::Read => READ,
            Permission::Write => WRITE,
            Permission::Unique => UNIQUE,
            Permission::Linear => LINEAR,
            Permission::OffsetAdd => OFFSET_ADD,
            Permission::OffsetSub => OFFSET_SUB,
            Permission::Free => FREE,
        }
    }

    /// The bit that stands for the permission.
    pub fn bit(self) -> (m: u16)
        ensures
            m == self.mask(),
    {
        match self {
            Permission::Read => READ,
            Permission::Write => WRITE,
            Permission::Unique => UNIQUE,
            Permission::Linear => LINEAR,
            Permission::OffsetAdd => OFFSET_ADD,
            Permission::OffsetSub => OFFSET_SUB,
            Permission::Free => FREE,
        }
    }
}

/// A set of permissions, kept as a bit set.  Sets are ordered by inclusion
/// and joined by union.
#[derive(Clone, Copy, Debug, PartialEq, Eq, Structural, Hash)]
pub struct PermissionSet {
    pub bits: u16,
}

impl PermissionSet {
    /// Only bits that stand for a permission are set.
    pub open spec fn wf(self) -> bool {
        self.bits & !ALL == 0
    }

    /// The set holds the permission.
    pub open spec fn has(self, p: Permission) -> bool {
        self.bits & p.mask() != 0
    }

    /// Every permission of `self` is one of `other`.
    pub open spec fn subset_of(self, other: PermissionSet) -> bool {
        forall|p: Permission| self.has(p) ==> other.has(p)
    }

    /// The set with the bits of `a` and of `b`.
    pub open spec fn join(a: PermissionSet, b: PermissionSet) -> PermissionSet {
        PermissionSet { bits: a.bits | b.bits }
    }

    /// The set that holds `p` alone.
    pub open spec fn only(p: Permission) -> PermissionSet {
        PermissionSet { bits: p.mask() }
    }

    /// The set that holds no permission.
    pub fn empty() -> (s: PermissionSet)
        ensures
            s.bits == 0,
            s.wf(),
            forall|p: Permission| !s.has(p),
    {
        let s = PermissionSet { bits: 0 };
        assert(0u16 & !0x007fu16 == 0) by (bit_vector);
        assert forall|p: Permission| !s.has(p) by {
            let m = p.mask();
            assert(0u16 & m == 0) by (bit_vector);
        }
        s
    }

    /// The set that holds `p` alone.
    pub fn single(p: Permission) -> (s: PermissionSet)
        ensures
            s == Self::only(p),
            s.wf(),
            forall|q: Permission| s.has(q) <==> q == p,
    {
        let s = PermissionSet { bits: p.bit() };
        proof {
            lemma_masks();
        }
        s
    }

    /// The union of two sets.
    pub fn union(self, other: PermissionSet) -> (s: PermissionSet)
        ensures
            s == Self::join(self, other),
            self.wf() && other.wf() ==> s.wf(),
            forall|p: Permission| s.has(p) <==> self.has(p) || other.has(p),
    {
        let s = PermissionSet { bits: self.bits | other.bits };
        proof {
            lemma_join(self, other);
        }
        s
    }

    /// Whether the set holds the permission.
    pub fn contains(self, p: Permission) -> (b: bool)
        ensures
            b == self.has(p),
    {
        self.bits & p.bit() != 0
    }

    /// Whether every permission of `self` is one of `other`.  Bits that
    /// stand for no permission do not count.
    pub fn is_subset(self, other: PermissionSet) -> (b: bool)
        ensures
            b == self.subset_of(other),
    {
        let known = self.bits & ALL;
        let b = known & other.bits == known;
        proof {
            lemma_subset_bits(self, other);
        }
        b
    }
}

/// Each permission has a bit of its own.
pub proof fn lemma_masks()
    ensures
        forall|p: Permission, q: Permission| #[trigger]
            PermissionSet::only(p).has(q) <==> q == p,
        forall|p: Permission| #[trigger] PermissionSet::only(p).wf(),
{
    assert(0x0001u16 & 0x0001u16 != 0 && 0x0001u16 & 0x0002u16 == 0 && 0x0001u16 & 0x0004u16 == 0
        && 0x0001u16 & 0x0008u16 == 0 && 0x0001u16 & 0x0010u16 == 0 && 0x0001u16 & 0x0020u16 == 0
        && 0x0001u16 & 0x0040u16 == 0) by (bit_vector);
    assert(0x0002u16 & 0x0001u16 == 0 && 0x0002u16 & 0x0002u16 != 0 && 0x0002u16 & 0x0004u16 == 0
        && 0x0002u16 & 0x0008u16 == 0 && 0x0002u16 & 0x0010u16 == 0 && 0x0002u16 & 0x0020u16 == 0
        && 0x0002u16 & 0x0040u16 == 0) by (bit_vector);
    assert(0x0004u16 & 0x0001u16 == 0 && 0x0004u16 & 0x0002u16 == 0 && 0x0004u16 & 0x0004u16 != 0
        && 0x0004u16 & 0x0008u16 == 0 && 0x0004u16 & 0x0010u16 == 0 && 0x0004u16 & 0x0020u16 == 0
        && 0x0004u16 & 0x0040u16 == 0) by (bit_vector);
    assert(0x0008u16 & 0x0001u16 == 0 && 0x0008u16 & 0x0002u16 == 0 && 0x0008u16 & 0x0004u16 == 0
        && 0x0008u16 & 0x0008u16 != 0 && 0x0008u16 & 0x0010u16 == 0 && 0x0008u16 & 0x0020u16 == 0
        && 0x0008u16 & 0x0040u16 == 0) by (bit_vector);
    assert(0x0010u16 & 0x0001u16 == 0 && 0x0010u16 & 0x0002u16 == 0 && 0x0010u16 & 0x0004u16 == 0
        && 0x0010u16 & 0x0008u16 == 0 && 0x0010u16 & 0x0010u16 != 0 && 0x0010u16 & 0x0020u16 == 0
        && 0x0010u16 & 0x0040u16 == 0) by (bit_vector);
    assert(0x0020u16 & 0x0001u16 == 0 && 0x0020u16 & 0x0002u16 == 0 && 0x0020u16 & 0x0004u16 == 0
        && 0x0020u16 & 0x0008u16 == 0 && 0x0020u16 & 0x0010u16 == 0 && 0x0020u16 & 0x0020u16 != 0
        && 0x0020u16 & 0x0040u16 == 0) by (bit_vector);
    assert(0x0040u16 & 0x0001u16 == 0 && 0x0040u16 & 0x0002u16 == 0 && 0x0040u16 & 0x0004u16 == 0
        && 0x0040u16 & 0x0008u16 == 0 && 0x0040u16 & 0x0010u16 == 0 && 0x0040u16 & 0x0020u16 == 0
        && 0x0040u16 & 0x0040u16 != 0) by (bit_vector);
    assert(0x0001u16 & !0x007fu16 == 0 && 0x0002u16 & !0x007fu16 == 0 && 0x0004u16 & !0x007fu16
        == 0 && 0x0008u16 & !0x007fu16 == 0 && 0x0010u16 & !0x007fu16 == 0 && 0x0020u16
        & !0x007fu16 == 0 && 0x0040u16 & !0x007fu16 == 0) by (bit_vector);
}

/// The union holds what either set holds, and stays within the known bits.
pub proof fn lemma_join(a: PermissionSet, b: PermissionSet)
    ensures
        forall|p: Permission| #[trigger]
            PermissionSet::join(a, b).has(p) <==> a.has(p) || b.has(p),
        a.wf() && b.wf() ==> PermissionSet::join(a, b).wf(),
{
    let x = a.bits;
    let y = b.bits;
    assert forall|p: Permission| #[trigger]
        PermissionSet::join(a, b).has(p) <==> a.has(p) || b.has(p) by {
        let m = p.mask();
        assert(((x | y) & m != 0) <==> (x & m != 0 || y & m != 0)) by (bit_vector);
    }
    assert((x & !0x007fu16 == 0 && y & !0x007fu16 == 0) ==> (x | y) & !0x007fu16 == 0)
        by (bit_vector);
}

/// Union is the join of the inclusion order: it is idempotent, commutative
/// and associative, and it is the least set above both.
pub proof fn lemma_join_semilattice(a: PermissionSet, b: PermissionSet, c: PermissionSet)
    ensures
        PermissionSet::join(a, a) == a,
        PermissionSet::join(a, b) == PermissionSet::join(b, a),
        PermissionSet::join(PermissionSet::join(a, b), c) == PermissionSet::join(
            a,
            PermissionSet::join(b, c),
        ),
        a.subset_of(PermissionSet::join(a, b)),
        b.subset_of(PermissionSet::join(a, b)),
        a.subset_of(c) && b.subset_of(c) ==> PermissionSet::join(a, b).subset_of(c),
{
    let x = a.bits;
    let y = b.bits;
    let z = c.bits;
    assert(x | x == x) by (bit_vector);
    assert(x | y == y | x) by (bit_vector);
    assert((x | y) | z == x | (y | z)) by (bit_vector);
    lemma_join(a, b);
}

/// Inclusion, by bits: the known bits of the one are all bits of the other.
proof fn lemma_subset_bits(a: PermissionSet, b: PermissionSet)
    ensures
        ((a.bits & ALL) & b.bits == (a.bits & ALL)) <==> a.subset_of(b),
{
    let x = a.bits;
    let y = b.bits;
    if (x & 0x007fu16) & y == (x & 0x007fu16) {
        assert forall|p: Permission| a.has(p) implies b.has(p) by {
            let m = p.mask();
            assert(((x & 0x007fu16) & y == (x & 0x007fu16) && x & m != 0 && m & !0x007fu16 == 0)
                ==> y & m != 0) by (bit_vector);
            lemma_masks();
            assert(PermissionSet::only(p).wf());
        }
    }
    if a.subset_of(b) {
        assert(a.has(Permission::Read) ==> b.has(Permission::Read));
        assert(a.has(Permission::Write) ==> b.has(Permission::Write));
        assert(a.has(Permission::Unique) ==> b.has(Permission::Unique));
        assert(a.has(Permission::Linear) ==> b.has(Permission::Linear));
        assert(a.has(Permission::OffsetAdd) ==> b.has(Permission::OffsetAdd));
        assert(a.has(Permission::OffsetSub) ==> b.has(Permission::OffsetSub));
        assert(a.has(Permission::Free) ==> b.has(Permission::Free));
        assert(((x & 0x0001u16 != 0 ==> y & 0x0001u16 != 0) && (x & 0x0002u16 != 0 ==> y
            & 0x0002u16 != 0) && (x & 0x0004u16 != 0 ==> y & 0x0004u16 != 0) && (x & 0x0008u16
            != 0 ==> y & 0x0008u16 != 0) && (x & 0x0010u16 != 0 ==> y & 0x0010u16 != 0) && (x
            & 0x0020u16 != 0 ==> y & 0x0020u16 != 0) && (x & 0x0040u16 != 0 ==> y & 0x0040u16
            != 0)) ==> (x & 0x007fu16) & y == (x & 0x007fu16)) by (bit_vector);
    }
}

} // verus!
