//! What the scan over siblings finds.
//!
//! Siblings are pointers derived from the same place: the movable children
//! of one node, or the field projections of one alias set.  The live range
//! of a sibling runs from the sibling to its last descendant.  Two siblings
//! whose live ranges interleave conflict; siblings that are used one after
//! the other do not.

use crate::descent::{descends_from, lemma_descends_bounds};
use crate::graph::{forest, Link, NodeId, source_precedes};
use crate::info::{
    GraphTraverseInfo, is_anchor, place_path, same_place, scan_siblings, sibling_conflicts,
};
use vstd::prelude::*;

verus! {

/// Every sibling has a summary, and its last descendant is not before it.
pub open spec fn ranges_known(siblings: Seq<NodeId>, flow: Map<NodeId, GraphTraverseInfo>) -> bool {
    forall|i: int|
        0 <= i < siblings.len() ==> flow.contains_key(#[trigger] siblings[i])
            && flow[siblings[i]].last_descendent >= siblings[i]
}

/// The scan keeps the latest last descendant seen so far: it is not before
/// the first sibling nor before the last descendant of any sibling scanned,
/// and it is one of these.
proof fn lemma_scan_max(
    siblings: Seq<NodeId>,
    flow: Map<NodeId, GraphTraverseInfo>,
    found: Map<NodeId, NodeId>,
    j: int,
)
    requires
        0 <= j <= siblings.len(),
        siblings.len() > 0,
    ensures
        scan_siblings(siblings, flow, found, j).max_desc >= siblings[0],
        forall|i: int|
            0 <= i < j ==> scan_siblings(siblings, flow, found, j).max_desc
                >= flow[#[trigger] siblings[i]].last_descendent,
        scan_siblings(siblings, flow, found, j).max_desc == siblings[0] || exists|i: int|
            0 <= i < j && scan_siblings(siblings, flow, found, j).max_desc
                == flow[#[trigger] siblings[i]].last_descendent,
    decreases j,
{
    if j > 0 {
        lemma_scan_max(siblings, flow, found, j - 1);
    }
}

/// The scan only adds to what was on record.
proof fn lemma_scan_grows(
    siblings: Seq<NodeId>,
    flow: Map<NodeId, GraphTraverseInfo>,
    found: Map<NodeId, NodeId>,
    j: int,
    k: int,
    key: NodeId,
)
    requires
        0 <= j <= k,
        scan_siblings(siblings, flow, found, j).found.contains_key(key),
    ensures
        scan_siblings(siblings, flow, found, k).found.contains_key(key),
    decreases k - j,
{
    if j < k {
        lemma_scan_grows(siblings, flow, found, j, k - 1, key);
    }
}

/// Siblings that are used one after the other do not conflict: where the
/// last descendant of every sibling comes no later than the next sibling
/// starts, the scan records nothing.
pub proof fn lemma_sequential_siblings(
    siblings: Seq<NodeId>,
    flow: Map<NodeId, GraphTraverseInfo>,
    found: Map<NodeId, NodeId>,
)
    requires
        siblings.len() > 0,
        ranges_known(siblings, flow),
        forall|i: int, j: int|
            0 <= i < j < siblings.len() ==> flow[#[trigger] siblings[i]].last_descendent
                <= #[trigger] siblings[j],
    ensures
        sibling_conflicts(siblings, flow, found) == found,
{
    lemma_sequential_prefix(siblings, flow, found, siblings.len() as int);
}

/// Where the siblings are used one after the other, the scan has recorded
/// nothing after any number of them.
proof fn lemma_sequential_prefix(
    siblings: Seq<NodeId>,
    flow: Map<NodeId, GraphTraverseInfo>,
    found: Map<NodeId, NodeId>,
    j: int,
)
    requires
        siblings.len() > 0,
        0 <= j <= siblings.len(),
        ranges_known(siblings, flow),
        forall|i: int, j: int|
            0 <= i < j < siblings.len() ==> flow[#[trigger] siblings[i]].last_descendent
                <= #[trigger] siblings[j],
    ensures
        scan_siblings(siblings, flow, found, j).found == found,
    decreases j,
{
    if j > 0 {
        lemma_sequential_prefix(siblings, flow, found, j - 1);
        lemma_scan_max(siblings, flow, found, j - 1);
    }
}

/// Siblings whose live ranges interleave conflict: a sibling that starts
/// before the last descendant of an earlier sibling gets a witness, and so
/// does a sibling that it conflicts with.
pub proof fn lemma_interleaved_siblings(
    siblings: Seq<NodeId>,
    flow: Map<NodeId, GraphTraverseInfo>,
    found: Map<NodeId, NodeId>,
    i: int,
    j: int,
)
    requires
        0 <= i < j < siblings.len(),
        siblings[j] < flow[siblings[i]].last_descendent,
    ensures
        sibling_conflicts(siblings, flow, found).contains_key(siblings[j]),
        exists|w: int|
            0 <= w < j && #[trigger] sibling_conflicts(siblings, flow, found).contains_key(
                siblings[w],
            ),
{
    lemma_scan_max(siblings, flow, found, j);
    lemma_scan_owner(siblings, flow, found, j);
    let before = scan_siblings(siblings, flow, found, j);
    lemma_scan_grows(siblings, flow, found, j + 1, siblings.len() as int, siblings[j]);
    lemma_scan_grows(siblings, flow, found, j + 1, siblings.len() as int, before.owner);
}

/// The owner of the latest last descendant is a sibling scanned before.
proof fn lemma_scan_owner(
    siblings: Seq<NodeId>,
    flow: Map<NodeId, GraphTraverseInfo>,
    found: Map<NodeId, NodeId>,
    j: int,
)
    requires
        0 < j <= siblings.len(),
    ensures
        exists|w: int|
            0 <= w < j && scan_siblings(siblings, flow, found, j).owner == #[trigger] siblings[w],
    decreases j,
{
    if j == 1 {
        assert(scan_siblings(siblings, flow, found, 0).owner == siblings[0]);
    } else {
        lemma_scan_owner(siblings, flow, found, j - 1);
    }
}

/// On the way down from a node the field path only grows.
proof fn lemma_path_grows(g: Seq<Link>, m: int, n: int)
    requires
        descends_from(g, m, n),
    ensures
        place_path(g, m).len() >= place_path(g, n).len(),
        m != n && g[m].kind is Field ==> place_path(g, m).len() > place_path(g, n).len(),
    decreases m,
{
    if m != n {
        let p = g[m].source.unwrap() as int;
        lemma_path_grows(g, p, n);
    }
}

/// No member of an alias set descends from another: what is derived from a
/// root or a field projection points to the same place only if it is no
/// root and no field projection itself.  So within an alias set, as among
/// the children of one node, to start before the last descendant of an
/// earlier sibling is to interleave with it, never to be nested in it.
pub proof fn lemma_alias_set_members_unrelated(g: Seq<Link>, a: int, b: int)
    requires
        0 <= a < b < g.len(),
        is_anchor(g[a]),
        is_anchor(g[b]),
        same_place(g, a, b),
    ensures
        !descends_from(g, b, a),
{
    if descends_from(g, b, a) {
        lemma_path_grows(g, b, a);
    }
}

/// Of two children of one node neither descends from the other.
pub proof fn lemma_children_unrelated(g: Seq<Link>, a: int, b: int)
    requires
        forest(g),
        0 <= a < b < g.len(),
        g[a].source == g[b].source,
    ensures
        !descends_from(g, b, a),
{
    if descends_from(g, b, a) {
        let p = g[b].source.unwrap() as int;
        lemma_descends_bounds(g, p, a);
        assert(source_precedes(g, a));
    }
}

} // verus!
