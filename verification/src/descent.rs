//! What the flow summaries mean, stated over the descent relation of the
//! forest.

use crate::graph::{Link, NodeId, NodeKind};
use crate::info::{
    does_load, does_mutation, does_neg_offset, does_pos_offset, flow_from, flow_of,
    GraphTraverseInfo,
};
use vstd::prelude::*;

verus! {

/// `m` is `n`, or was derived from `n` through one or more sources.
pub open spec fn descends_from(g: Seq<Link>, m: int, n: int) -> bool
    decreases m,
{
    if m == n {
        0 <= n < g.len()
    } else if 0 <= n < m < g.len() {
        match g[m].source {
            Some(p) => p < m && descends_from(g, p as int, n),
            None => false,
        }
    } else {
        false
    }
}

/// The four events that a summary tracks.
pub enum Event {
    Load,
    Store,
    PosOffset,
    NegOffset,
}

/// A node of this kind is itself the event.
pub open spec fn happens_at(kind: NodeKind, e: Event) -> bool {
    match e {
        Event::Load => does_load(kind),
        Event::Store => does_mutation(kind),
        Event::PosOffset => does_pos_offset(kind),
        Event::NegOffset => does_neg_offset(kind),
    }
}

/// The witness that a summary holds for the event.
pub open spec fn flow_to(info: GraphTraverseInfo, e: Event) -> Option<NodeId> {
    match e {
        Event::Load => info.flows_to_load,
        Event::Store => info.flows_to_store,
        Event::PosOffset => info.flows_to_pos_offset,
        Event::NegOffset => info.flows_to_neg_offset,
    }
}

/// What descends from a child descends from its parent.
pub proof fn lemma_descends_through_child(g: Seq<Link>, m: int, c: int, n: int)
    requires
        g.len() <= usize::MAX,
        descends_from(g, m, c),
        0 <= n < c,
        g[c].source == Some(n as usize),
    ensures
        descends_from(g, m, n),
    decreases m,
{
    if m == c {
        assert(descends_from(g, n, n));
    } else {
        let p = g[m].source.unwrap() as int;
        lemma_descends_through_child(g, p, c, n);
    }
}

/// Descent is transitive.
pub proof fn lemma_descends_transitive(g: Seq<Link>, a: int, b: int, c: int)
    requires
        descends_from(g, a, b),
        descends_from(g, b, c),
    ensures
        descends_from(g, a, c),
    decreases a,
{
    if a != b && b != c {
        let p = g[a].source.unwrap() as int;
        lemma_descends_transitive(g, p, b, c);
    }
}

/// A descendant is never earlier than its ancestor.
pub proof fn lemma_descends_bounds(g: Seq<Link>, m: int, n: int)
    requires
        descends_from(g, m, n),
    ensures
        0 <= n <= m < g.len(),
{
}

/// However many children are folded in, the last descendant is not before the
/// node.
proof fn lemma_fold_last_at_least(g: Seq<Link>, n: int, k: int)
    requires
        g.len() <= usize::MAX,
        0 <= n < g.len(),
        0 <= k,
    ensures
        flow_from(g, n, k).last_descendent >= n,
    decreases g.len() - k,
{
    if k < g.len() {
        lemma_fold_last_at_least(g, n, k + 1);
    }
}

/// Once a child is folded in, the last descendant is not before that of the
/// child.
proof fn lemma_fold_covers_child(g: Seq<Link>, n: int, c: int, k: int)
    requires
        g.len() <= usize::MAX,
        0 <= n < c < g.len(),
        0 <= k <= c,
        g[c].source == Some(n as usize),
    ensures
        flow_from(g, n, k).last_descendent >= flow_of(g, c).last_descendent,
    decreases c - k,
{
    if k < c {
        lemma_fold_covers_child(g, n, c, k + 1);
    }
}

/// The last descendant of a node is not before that of any of its descendants.
proof fn lemma_last_bounds_descendants(g: Seq<Link>, m: int, n: int)
    requires
        g.len() <= usize::MAX,
        descends_from(g, m, n),
    ensures
        flow_of(g, m).last_descendent <= flow_of(g, n).last_descendent,
    decreases m,
{
    if m != n {
        let p = g[m].source.unwrap() as int;
        lemma_last_bounds_descendants(g, p, n);
        lemma_fold_covers_child(g, p, m, p + 1);
    }
}

/// However many children are folded in, the last descendant descends from the
/// node.
proof fn lemma_fold_last_descends(g: Seq<Link>, n: int, k: int)
    requires
        g.len() <= usize::MAX,
        0 <= n < g.len(),
        0 <= k,
    ensures
        descends_from(g, flow_from(g, n, k).last_descendent as int, n),
    decreases g.len() - n, g.len() - k,
{
    if k < g.len() {
        lemma_fold_last_descends(g, n, k + 1);
        if k > n && g[k].source == Some(n as usize) {
            lemma_fold_last_descends(g, k, k + 1);
            lemma_descends_through_child(g, flow_of(g, k).last_descendent as int, k, n);
        }
    }
}

/// The last descendant of a node is the latest node that descends from it:
/// it descends from the node, and no descendant comes after it.  So it is
/// never earlier than the node itself.
pub proof fn lemma_last_descendent(g: Seq<Link>, n: int)
    requires
        g.len() <= usize::MAX,
        0 <= n < g.len(),
    ensures
        n <= flow_of(g, n).last_descendent < g.len(),
        descends_from(g, flow_of(g, n).last_descendent as int, n),
        forall|m: int| descends_from(g, m, n) ==> m <= flow_of(g, n).last_descendent,
{
    lemma_fold_last_descends(g, n, n + 1);
    assert forall|m: int| descends_from(g, m, n) implies m <= flow_of(g, n).last_descendent by {
        lemma_last_bounds_descendants(g, m, n);
        lemma_fold_last_at_least(g, m, m + 1);
    }
}

/// However many children are folded in, a witness descends from the node and
/// is the event; without witness the node is not the event itself.
proof fn lemma_fold_witness(g: Seq<Link>, n: int, k: int, e: Event)
    requires
        g.len() <= usize::MAX,
        0 <= n < g.len(),
        0 <= k,
    ensures
        match flow_to(flow_from(g, n, k), e) {
            Some(m) => descends_from(g, m as int, n) && happens_at(g[m as int].kind, e),
            None => !happens_at(g[n].kind, e),
        },
    decreases g.len() - n, g.len() - k,
{
    if k < g.len() {
        lemma_fold_witness(g, n, k + 1, e);
        if k > n && g[k].source == Some(n as usize) {
            lemma_fold_witness(g, k, k + 1, e);
            if let Some(m) = flow_to(flow_of(g, k), e) {
                lemma_descends_through_child(g, m as int, k, n);
            }
        }
    }
}

/// Where a node has no witness once a child is folded in, the child has none.
proof fn lemma_fold_absent(g: Seq<Link>, n: int, c: int, k: int, e: Event)
    requires
        g.len() <= usize::MAX,
        0 <= n < c < g.len(),
        0 <= k <= c,
        g[c].source == Some(n as usize),
        flow_to(flow_from(g, n, k), e) is None,
    ensures
        flow_to(flow_of(g, c), e) is None,
    decreases c - k,
{
    if k < c {
        lemma_fold_absent(g, n, c, k + 1, e);
    }
}

/// Where a node has no witness, none of its descendants has one.
proof fn lemma_absent_below(g: Seq<Link>, m: int, n: int, e: Event)
    requires
        g.len() <= usize::MAX,
        descends_from(g, m, n),
        flow_to(flow_of(g, n), e) is None,
    ensures
        flow_to(flow_of(g, m), e) is None,
    decreases m,
{
    if m != n {
        let p = g[m].source.unwrap() as int;
        lemma_absent_below(g, p, n, e);
        lemma_fold_absent(g, p, m, p + 1, e);
    }
}

/// A flow field of a finished summary is present exactly when the event
/// happens at the node or at one of its descendants, and the node it names
/// is such a node.
pub proof fn lemma_flow_witness(g: Seq<Link>, n: int, e: Event)
    requires
        g.len() <= usize::MAX,
        0 <= n < g.len(),
    ensures
        match flow_to(flow_of(g, n), e) {
            Some(m) => descends_from(g, m as int, n) && happens_at(g[m as int].kind, e),
            None => forall|m: int| descends_from(g, m, n) ==> !happens_at(g[m].kind, e),
        },
{
    lemma_fold_witness(g, n, n + 1, e);
    if flow_to(flow_of(g, n), e) is None {
        assert forall|m: int| descends_from(g, m, n) implies !happens_at(g[m].kind, e) by {
            lemma_absent_below(g, m, n, e);
            lemma_fold_witness(g, m, m + 1, e);
        }
    }
}

} // verus!
