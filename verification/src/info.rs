//! Flow and uniqueness summaries of the nodes of a provenance graph.
//!
//! For every node the analysis finds out whether the pointer, or a pointer
//! derived from it, is loaded from, stored to, or offset forwards or
//! backwards, and whether the place it points to may be reached through
//! another live pointer derived from the same root.

use crate::graph::{forest, Graph, Graphs, Link, Node, NodeId, NodeKind, source_precedes};
use std::collections::HashMap;
use vstd::prelude::*;

verus! {

broadcast use vstd::std_specs::hash::group_hash_axioms;

/// What the analysis found out about one node.  Each flow field names a node
/// at or below this one at which the event happens; `non_unique` names a node
/// that this one conflicts with.
#[derive(Clone, Copy, Debug, PartialEq, Eq, Hash)]
pub struct NodeInfo {
    pub flows_to_mutation: Option<NodeId>,
    pub flows_to_load: Option<NodeId>,
    pub flows_to_pos_offset: Option<NodeId>,
    pub flows_to_neg_offset: Option<NodeId>,
    pub non_unique: Option<NodeId>,
}

/// The running summary of a node while its descendants are folded into it.
#[derive(Clone, Copy, Debug, Hash)]
pub struct GraphTraverseInfo {
    pub last_descendent: NodeId,
    pub flows_to_load: Option<NodeId>,
    pub flows_to_store: Option<NodeId>,
    pub flows_to_pos_offset: Option<NodeId>,
    pub flows_to_neg_offset: Option<NodeId>,
}

/// The node is anything but a field projection: it stands for the same place
/// as its source.
pub open spec fn is_copy_or_offset(kind: NodeKind) -> bool {
    !(kind is Field)
}

/// The node stores through the pointer.
pub open spec fn does_mutation(kind: NodeKind) -> bool {
    kind is StoreAddr || kind is StoreValue
}

/// The node loads through the pointer.
pub open spec fn does_load(kind: NodeKind) -> bool {
    kind is LoadAddr || kind is LoadValue
}

/// The node offsets the pointer forwards.
pub open spec fn does_pos_offset(kind: NodeKind) -> bool {
    kind matches NodeKind::Offset(x) && x > 0
}

/// The node offsets the pointer backwards.
pub open spec fn does_neg_offset(kind: NodeKind) -> bool {
    kind matches NodeKind::Offset(x) && x < 0
}

/// Whether the node is anything but a field projection.
pub fn copy_or_offset(n: &Node) -> (b: bool)
    ensures
        b == is_copy_or_offset(n.kind),
{
    match n.kind {
        NodeKind::Field(_) => false,
        _ => true,
    }
}

/// Whether the node stores through the pointer.
pub fn node_does_mutation(n: &Node) -> (b: bool)
    ensures
        b == does_mutation(n.kind),
{
    match n.kind {
        NodeKind::StoreAddr | NodeKind::StoreValue => true,
        _ => false,
    }
}

/// Whether the node loads through the pointer.
pub fn node_does_load(n: &Node) -> (b: bool)
    ensures
        b == does_load(n.kind),
{
    match n.kind {
        NodeKind::LoadAddr | NodeKind::LoadValue => true,
        _ => false,
    }
}

/// Whether the node offsets the pointer forwards.
pub fn node_does_pos_offset(n: &Node) -> (b: bool)
    ensures
        b == does_pos_offset(n.kind),
{
    match n.kind {
        NodeKind::Offset(x) => x > 0,
        _ => false,
    }
}

/// Whether the node offsets the pointer backwards.
pub fn node_does_neg_offset(n: &Node) -> (b: bool)
    ensures
        b == does_neg_offset(n.kind),
{
    match n.kind {
        NodeKind::Offset(x) => x < 0,
        _ => false,
    }
}

/// The summary of a node before any descendant is folded in: it is its own
/// last descendant, and it flows to the events that it is itself.
pub open spec fn init_info(id: NodeId, kind: NodeKind) -> GraphTraverseInfo {
    GraphTraverseInfo {
        last_descendent: id,
        flows_to_load: if does_load(kind) {
            Some(id)
        } else {
            None
        },
        flows_to_store: if does_mutation(kind) {
            Some(id)
        } else {
            None
        },
        flows_to_pos_offset: if does_pos_offset(kind) {
            Some(id)
        } else {
            None
        },
        flows_to_neg_offset: if does_neg_offset(kind) {
            Some(id)
        } else {
            None
        },
    }
}

/// `a` if it is present, else `b`.
pub open spec fn or_else(a: Option<NodeId>, b: Option<NodeId>) -> Option<NodeId> {
    if a is Some {
        a
    } else {
        b
    }
}

/// Folds the finished summary of a child into the summary of its parent:
/// the later last descendant wins, and a flow that the parent already has is
/// kept.
pub open spec fn merge_info(parent: GraphTraverseInfo, child: GraphTraverseInfo) -> GraphTraverseInfo {
    GraphTraverseInfo {
        last_descendent: if child.last_descendent > parent.last_descendent {
            child.last_descendent
        } else {
            parent.last_descendent
        },
        flows_to_load: or_else(parent.flows_to_load, child.flows_to_load),
        flows_to_store: or_else(parent.flows_to_store, child.flows_to_store),
        flows_to_pos_offset: or_else(parent.flows_to_pos_offset, child.flows_to_pos_offset),
        flows_to_neg_offset: or_else(parent.flows_to_neg_offset, child.flows_to_neg_offset),
    }
}

/// The summary of node `n` once its children numbered `k` and above have been
/// folded in, latest child first.
pub open spec fn flow_from(g: Seq<Link>, n: int, k: int) -> GraphTraverseInfo
    decreases g.len() - n, g.len() - k,
{
    if 0 <= n < g.len() && 0 <= k < g.len() {
        let rest = flow_from(g, n, k + 1);
        if k > n && g[k].source == Some(n as usize) {
            merge_info(rest, flow_from(g, k, k + 1))
        } else {
            rest
        }
    } else {
        init_info(n as usize, g[n].kind)
    }
}

/// The finished summary of node `n`: all its children are folded in.
pub open spec fn flow_of(g: Seq<Link>, n: int) -> GraphTraverseInfo {
    flow_from(g, n, n + 1)
}

/// Children come after their parent, so starting the fold at or before the
/// node itself changes nothing.
pub proof fn lemma_flow_from_start(g: Seq<Link>, n: int, k: int)
    requires
        0 <= n < g.len(),
        0 <= k <= n + 1,
    ensures
        flow_from(g, n, k) == flow_of(g, n),
    decreases n + 1 - k,
{
    if k < n + 1 {
        lemma_flow_from_start(g, n, k + 1);
    }
}

/// The summary of a node before any descendant is folded in.
pub fn init_traverse_info(n_id: NodeId, n: &Node) -> (info: GraphTraverseInfo)
    ensures
        info == init_info(n_id, n.kind),
{
    GraphTraverseInfo {
        last_descendent: n_id,
        flows_to_store: if node_does_mutation(n) {
            Some(n_id)
        } else {
            None
        },
        flows_to_load: if node_does_load(n) {
            Some(n_id)
        } else {
            None
        },
        flows_to_pos_offset: if node_does_pos_offset(n) {
            Some(n_id)
        } else {
            None
        },
        flows_to_neg_offset: if node_does_neg_offset(n) {
            Some(n_id)
        } else {
            None
        },
    }
}

/// `m` holds exactly one entry for every node of a graph of `len` nodes.
pub open spec fn covers<V>(m: Map<NodeId, V>, len: nat) -> bool {
    forall|n: NodeId| m.contains_key(n) <==> n < len
}

/// Folds the finished summary of a child into that of its parent.
fn merge_traverse_info(parent: GraphTraverseInfo, child: GraphTraverseInfo) -> (merged:
    GraphTraverseInfo)
    ensures
        merged == merge_info(parent, child),
{
    GraphTraverseInfo {
        last_descendent: if child.last_descendent > parent.last_descendent {
            child.last_descendent
        } else {
            parent.last_descendent
        },
        flows_to_load: if parent.flows_to_load.is_some() {
            parent.flows_to_load
        } else {
            child.flows_to_load
        },
        flows_to_store: if parent.flows_to_store.is_some() {
            parent.flows_to_store
        } else {
            child.flows_to_store
        },
        flows_to_pos_offset: if parent.flows_to_pos_offset.is_some() {
            parent.flows_to_pos_offset
        } else {
            child.flows_to_pos_offset
        },
        flows_to_neg_offset: if parent.flows_to_neg_offset.is_some() {
            parent.flows_to_neg_offset
        } else {
            child.flows_to_neg_offset
        },
    }
}

/// Computes the finished summary of every node, bottom-up: the nodes are
/// taken latest first, and each is folded into its source.
pub fn create_flow_info(g: &Graph) -> (f: HashMap<NodeId, GraphTraverseInfo>)
    requires
        g.wf(),
    ensures
        covers(f@, g@.len()),
        forall|n: NodeId| n < g@.len() ==> f@[n] == flow_of(g@, n as int),
{
    let len = g.len();
    let mut f: HashMap<NodeId, GraphTraverseInfo> = HashMap::new();
    let mut i: usize = 0;
    while i < len
        invariant
            len == g@.len(),
            i <= len,
            forall|n: NodeId| f@.contains_key(n) <==> n < i,
            forall|n: NodeId| n < i ==> f@[n] == init_info(n, g@[n as int].kind),
        decreases len - i,
    {
        let node = g.node(i);
        f.insert(i, init_traverse_info(i, &node));
        i = i + 1;
    }
    let mut i: usize = len;
    while i > 0
        invariant
            len == g@.len(),
            forest(g@),
            i <= len,
            covers(f@, g@.len()),
            forall|n: NodeId| n < len ==> f@[n] == flow_from(g@, n as int, i as int),
        decreases i,
    {
        i = i - 1;
        let node = g.node(i);
        let cur: GraphTraverseInfo = *f.get(&i).unwrap();
        assert(source_precedes(g@, i as int));
        match node.source {
            Some(p_id) => {
                let parent: GraphTraverseInfo = *f.get(&p_id).unwrap();
                f.insert(p_id, merge_traverse_info(parent, cur));
            },
            None => {},
        }
    }
    proof {
        assert forall|n: NodeId| n < g@.len() implies f@[n] == flow_of(g@, n as int) by {
            lemma_flow_from_start(g@, n as int, 0);
        }
    }
    f
}

/// The children of node `n` among the first `k` nodes, earliest first.
pub open spec fn children_upto(g: Seq<Link>, n: NodeId, k: int) -> Seq<NodeId>
    decreases k,
{
    if k <= 0 {
        Seq::empty()
    } else {
        let rest = children_upto(g, n, k - 1);
        if g[k - 1].source == Some(n) {
            rest.push((k - 1) as usize)
        } else {
            rest
        }
    }
}

/// The children of node `n`, earliest first.
pub open spec fn children_of(g: Seq<Link>, n: NodeId) -> Seq<NodeId> {
    children_upto(g, n, g.len() as int)
}

/// `m` lists, for every node, its children in ascending order.
pub open spec fn is_children_map(m: Map<NodeId, Vec<NodeId>>, g: Seq<Link>) -> bool {
    &&& covers(m, g.len())
    &&& forall|n: NodeId| n < g.len() ==> (#[trigger] m[n])@ == children_of(g, n)
}

/// The children among the first `k` nodes are among the first `k` nodes,
/// each has `n` as its source, and they ascend strictly.
pub proof fn lemma_children_upto(g: Seq<Link>, n: NodeId, k: int)
    requires
        0 <= k <= g.len() <= usize::MAX,
    ensures
        forall|j: int|
            0 <= j < children_upto(g, n, k).len() ==> {
                let c = #[trigger] children_upto(g, n, k)[j];
                c < k && g[c as int].source == Some(n)
            },
        forall|i: int, j: int|
            0 <= i < j < children_upto(g, n, k).len() ==> children_upto(g, n, k)[i]
                < children_upto(g, n, k)[j],
    decreases k,
{
    if k > 0 {
        lemma_children_upto(g, n, k - 1);
    }
}

/// Lists the children of every node, in ascending order.  A node without
/// children gets an empty list.
pub fn collect_children(g: &Graph) -> (m: HashMap<NodeId, Vec<NodeId>>)
    requires
        g.wf(),
    ensures
        is_children_map(m@, g@),
{
    let len = g.len();
    let mut m: HashMap<NodeId, Vec<NodeId>> = HashMap::new();
    let mut i: usize = 0;
    while i < len
        invariant
            len == g@.len(),
            i <= len,
            forall|n: NodeId| m@.contains_key(n) <==> n < i,
            forall|n: NodeId| n < i ==> (#[trigger] m@[n])@ == Seq::<NodeId>::empty(),
        decreases len - i,
    {
        m.insert(i, Vec::new());
        i = i + 1;
    }
    let mut i: usize = 0;
    while i < len
        invariant
            len == g@.len(),
            forest(g@),
            i <= len,
            covers(m@, g@.len()),
            forall|n: NodeId| n < len ==> (#[trigger] m@[n])@ == children_upto(g@, n, i as int),
        decreases len - i,
    {
        let node = g.node(i);
        assert(source_precedes(g@, i as int));
        match node.source {
            Some(par) => {
                let mut kids = m.remove(&par).unwrap();
                kids.push(i);
                m.insert(par, kids);
            },
            None => {},
        }
        i = i + 1;
    }
    m
}

/// The node opens or joins an alias set: it is a root or a field projection.
/// Every other node stands for the place of its source and is compared with
/// its siblings instead.
pub open spec fn is_anchor(l: Link) -> bool {
    l.source is None || l.kind is Field
}

/// The root that node `n` was derived from.
pub open spec fn place_root(g: Seq<Link>, n: int) -> NodeId
    decreases n,
{
    if g[n].source is Some && 0 <= g[n].source.unwrap() < n {
        place_root(g, g[n].source.unwrap() as int)
    } else {
        n as usize
    }
}

/// The fields projected on the way from the root to node `n`, outermost
/// first.  Only field projections add to the path.
pub open spec fn place_path(g: Seq<Link>, n: int) -> Seq<u32>
    decreases n,
{
    if g[n].source is Some && 0 <= g[n].source.unwrap() < n {
        let up = place_path(g, g[n].source.unwrap() as int);
        match g[n].kind {
            NodeKind::Field(f) => up.push(f),
            _ => up,
        }
    } else {
        Seq::empty()
    }
}

/// Two nodes point to the same place: same root, same field path.
pub open spec fn same_place(g: Seq<Link>, a: int, b: int) -> bool {
    place_root(g, a) == place_root(g, b) && place_path(g, a) == place_path(g, b)
}

/// The index, at or after `i`, of the first set whose members point to the
/// place of node `n`; the number of sets if there is none.
pub open spec fn find_set(g: Seq<Link>, sets: Seq<Seq<NodeId>>, n: int, i: int) -> int
    decreases sets.len() - i,
{
    if i < 0 || i >= sets.len() {
        sets.len() as int
    } else if same_place(g, sets[i][0] as int, n) {
        i
    } else {
        find_set(g, sets, n, i + 1)
    }
}

/// The alias sets of the first `k` nodes, in the order in which they were
/// opened.  A root opens a set.  A field projection joins the set of its
/// place, or opens it.  Within a set the members ascend.
pub open spec fn alias_sets_upto(g: Seq<Link>, k: int) -> Seq<Seq<NodeId>>
    decreases k,
{
    if k <= 0 {
        Seq::empty()
    } else {
        let sets = alias_sets_upto(g, k - 1);
        let n = k - 1;
        if g[n].source is None {
            sets.push(seq![n as usize])
        } else if g[n].kind is Field {
            let i = find_set(g, sets, n, 0);
            if i < sets.len() {
                sets.update(i, sets[i].push(n as usize))
            } else {
                sets.push(seq![n as usize])
            }
        } else {
            sets
        }
    }
}

/// The alias sets of a graph.
pub open spec fn alias_sets(g: Seq<Link>) -> Seq<Seq<NodeId>> {
    alias_sets_upto(g, g.len() as int)
}

/// The sequences that a vector of vectors holds.
pub open spec fn seqs(v: Seq<Vec<NodeId>>) -> Seq<Seq<NodeId>> {
    Seq::new(v.len(), |i: int| v[i]@)
}

/// `find_set` returns an index within the sets or their number, never one
/// before `i`.
pub proof fn lemma_find_set_range(g: Seq<Link>, sets: Seq<Seq<NodeId>>, n: int, i: int)
    requires
        0 <= i <= sets.len(),
    ensures
        i <= find_set(g, sets, n, i) <= sets.len(),
    decreases sets.len() - i,
{
    if i < sets.len() && !same_place(g, sets[i][0] as int, n) {
        lemma_find_set_range(g, sets, n, i + 1);
    }
}

/// No alias set is empty, its members are nodes among the first `k`, and
/// they ascend strictly.
pub proof fn lemma_alias_sets_members(g: Seq<Link>, k: int)
    requires
        0 <= k <= g.len() <= usize::MAX,
    ensures
        forall|i: int|
            0 <= i < alias_sets_upto(g, k).len() ==> (#[trigger] alias_sets_upto(g, k)[i]).len()
                > 0,
        forall|i: int, j: int|
            0 <= i < alias_sets_upto(g, k).len() && 0 <= j < alias_sets_upto(g, k)[i].len()
                ==> #[trigger] alias_sets_upto(g, k)[i][j] < k,
        forall|i: int, a: int, b: int|
            0 <= i < alias_sets_upto(g, k).len() && 0 <= a < b < alias_sets_upto(g, k)[i].len()
                ==> #[trigger] alias_sets_upto(g, k)[i][a] < #[trigger] alias_sets_upto(
                g,
                k,
            )[i][b],
    decreases k,
{
    if k > 0 {
        lemma_alias_sets_members(g, k - 1);
        let sets = alias_sets_upto(g, k - 1);
        lemma_find_set_range(g, sets, k - 1, 0);
    }
}

/// The root of a node is the node itself or an earlier one.
pub proof fn lemma_place_root_bound(g: Seq<Link>, n: int)
    requires
        0 <= n < g.len() <= usize::MAX,
    ensures
        place_root(g, n) <= n,
    decreases n,
{
    if g[n].source is Some && 0 <= g[n].source.unwrap() < n {
        lemma_place_root_bound(g, g[n].source.unwrap() as int);
    }
}

/// A search that finds no set has met no set of the place of the node.
pub proof fn lemma_find_set_none(g: Seq<Link>, sets: Seq<Seq<NodeId>>, n: int, i: int)
    requires
        0 <= i <= sets.len(),
        find_set(g, sets, n, i) >= sets.len(),
    ensures
        forall|j: int| i <= j < sets.len() ==> !same_place(g, (#[trigger] sets[j])[0] as int, n),
    decreases sets.len() - i,
{
    if i < sets.len() {
        lemma_find_set_none(g, sets, n, i + 1);
    }
}

/// A search that finds a set has found one of the place of the node.
pub proof fn lemma_find_set_some(g: Seq<Link>, sets: Seq<Seq<NodeId>>, n: int, i: int)
    requires
        0 <= i <= sets.len(),
        find_set(g, sets, n, i) < sets.len(),
    ensures
        i <= find_set(g, sets, n, i),
        same_place(g, sets[find_set(g, sets, n, i)][0] as int, n),
    decreases sets.len() - i,
{
    if i < sets.len() && !same_place(g, sets[i][0] as int, n) {
        lemma_find_set_some(g, sets, n, i + 1);
    }
}

/// Node `n` is a member of set `i`.
pub open spec fn in_set(sets: Seq<Seq<NodeId>>, i: int, n: int) -> bool {
    0 <= i < sets.len() && exists|j: int| 0 <= j < sets[i].len() && #[trigger] sets[i][j] == n
}

/// The alias sets of the first `k` nodes partition their roots and field
/// projections by place.
pub open spec fn partitions(g: Seq<Link>, sets: Seq<Seq<NodeId>>, k: int) -> bool {
    &&& forall|i: int, j: int|
        0 <= i < sets.len() && 0 <= j < sets[i].len() ==> {
            let m = #[trigger] sets[i][j];
            m < k && is_anchor(g[m as int]) && same_place(g, m as int, sets[i][0] as int)
        }
    &&& forall|i: int| 0 <= i < sets.len() ==> (#[trigger] sets[i]).len() > 0
    &&& forall|n: int|
        0 <= n < k && is_anchor(#[trigger] g[n]) ==> exists|i: int| #[trigger] in_set(sets, i, n)
    &&& forall|a: int, b: int|
        0 <= a < b < sets.len() ==> !same_place(
            g,
            (#[trigger] sets[a])[0] as int,
            (#[trigger] sets[b])[0] as int,
        )
}

/// The alias sets partition the roots and field projections of a forest by
/// place.  Every member of a set is a root or a field projection and points
/// to the place of the first member; every root and every field projection
/// is in a set; and no two sets are of the same place.  So two of them share
/// a set exactly when they point to the same place.
pub proof fn lemma_alias_sets_partition(g: Seq<Link>, k: int)
    requires
        forest(g),
        0 <= k <= g.len() <= usize::MAX,
    ensures
        partitions(g, alias_sets_upto(g, k), k),
    decreases k,
{
    if k > 0 {
        lemma_alias_sets_partition(g, k - 1);
        let prev = alias_sets_upto(g, k - 1);
        let sets = alias_sets_upto(g, k);
        let n = k - 1;
        if g[n].source is None {
            assert forall|a: int, b: int| 0 <= a < b < sets.len() implies !same_place(
                g,
                (#[trigger] sets[a])[0] as int,
                (#[trigger] sets[b])[0] as int,
            ) by {
                if b == prev.len() {
                    let m = prev[a][0];
                    lemma_place_root_bound(g, m as int);
                }
            }
            assert forall|m: int| 0 <= m < k && is_anchor(#[trigger] g[m]) implies exists|i: int| #[trigger]
                in_set(sets, i, m) by {
                if m < n {
                    let i = choose|i: int| #[trigger] in_set(prev, i, m);
                    let j = choose|j: int| 0 <= j < prev[i].len() && #[trigger] prev[i][j] == m;
                    assert(sets[i][j] == m);
                    assert(in_set(sets, i, m));
                } else {
                    assert(sets[prev.len() as int][0] == n);
                    assert(in_set(sets, prev.len() as int, m));
                }
            }
        } else if g[n].kind is Field {
            let found = find_set(g, prev, n, 0);
            if found < prev.len() {
                lemma_find_set_some(g, prev, n, 0);
                assert forall|m: int| 0 <= m < k && is_anchor(#[trigger] g[m]) implies exists|
                    i: int,
                | #[trigger] in_set(sets, i, m) by {
                    if m < n {
                        let i = choose|i: int| #[trigger] in_set(prev, i, m);
                        let j = choose|j: int| 0 <= j < prev[i].len() && #[trigger] prev[i][j] == m;
                        assert(sets[i][j] == m);
                        assert(in_set(sets, i, m));
                    } else {
                        assert(sets[found][prev[found].len() as int] == n);
                        assert(in_set(sets, found, m));
                    }
                }
            } else {
                lemma_find_set_none(g, prev, n, 0);
                assert forall|m: int| 0 <= m < k && is_anchor(#[trigger] g[m]) implies exists|
                    i: int,
                | #[trigger] in_set(sets, i, m) by {
                    if m < n {
                        let i = choose|i: int| #[trigger] in_set(prev, i, m);
                        let j = choose|j: int| 0 <= j < prev[i].len() && #[trigger] prev[i][j] == m;
                        assert(sets[i][j] == m);
                        assert(in_set(sets, i, m));
                    } else {
                        assert(sets[prev.len() as int][0] == n);
                        assert(in_set(sets, prev.len() as int, m));
                    }
                }
            }
        }
    }
}

/// Two roots or field projections share an alias set exactly when they
/// point to the same place.
pub proof fn lemma_share_set_iff_same_place(g: Seq<Link>, a: int, b: int)
    requires
        forest(g),
        g.len() <= usize::MAX,
        0 <= a < g.len() && is_anchor(g[a]),
        0 <= b < g.len() && is_anchor(g[b]),
    ensures
        (exists|i: int| in_set(alias_sets(g), i, a) && in_set(alias_sets(g), i, b)) <==> same_place(
            g,
            a,
            b,
        ),
{
    let sets = alias_sets(g);
    lemma_alias_sets_partition(g, g.len() as int);
    let ia = choose|i: int| #[trigger] in_set(sets, i, a);
    let ib = choose|i: int| #[trigger] in_set(sets, i, b);
    assert(in_set(sets, ia, a) && in_set(sets, ib, b));
    assert(same_place(g, a, sets[ia][0] as int));
    assert(same_place(g, b, sets[ib][0] as int));
    if same_place(g, a, b) {
        if ia < ib {
            assert(!same_place(g, sets[ia][0] as int, sets[ib][0] as int));
        } else if ib < ia {
            assert(!same_place(g, sets[ib][0] as int, sets[ia][0] as int));
        }
        assert(in_set(sets, ia, a) && in_set(sets, ia, b));
    }
    if exists|i: int| in_set(sets, i, a) && in_set(sets, i, b) {
        let i = choose|i: int| in_set(sets, i, a) && in_set(sets, i, b);
        assert(same_place(g, a, sets[i][0] as int));
        assert(same_place(g, b, sets[i][0] as int));
    }
}

/// The place of a node, as the partition keeps it while it runs.
pub struct PlaceKey {
    pub root: NodeId,
    pub path: Vec<u32>,
}

impl PlaceKey {
    /// The key names the place of node `n`.
    pub open spec fn names(&self, g: Seq<Link>, n: int) -> bool {
        self.root == place_root(g, n) && self.path@ == place_path(g, n)
    }

    /// Whether two keys name the same place.
    pub fn same(&self, other: &PlaceKey) -> (b: bool)
        ensures
            b == (self.root == other.root && self.path@ == other.path@),
    {
        if self.root != other.root || self.path.len() != other.path.len() {
            return false;
        }
        let len = self.path.len();
        let mut i: usize = 0;
        while i < len
            invariant
                len == self.path@.len(),
                len == other.path@.len(),
                i <= len,
                forall|j: int| 0 <= j < i ==> self.path@[j] == other.path@[j],
            decreases len - i,
        {
            if self.path[i] != other.path[i] {
                return false;
            }
            i = i + 1;
        }
        assert(self.path@ =~= other.path@);
        true
    }

    /// The key of a node derived from the node of this key: the same place,
    /// or the place of one of its fields.
    pub fn derive(&self, field: Option<u32>) -> (k: PlaceKey)
        ensures
            k.root == self.root,
            k.path@ == (match field {
                Some(f) => self.path@.push(f),
                None => self.path@,
            }),
    {
        let len = self.path.len();
        let mut path: Vec<u32> = Vec::new();
        let mut i: usize = 0;
        while i < len
            invariant
                len == self.path@.len(),
                i <= len,
                path@ == self.path@.take(i as int),
            decreases len - i,
        {
            path.push(self.path[i]);
            i = i + 1;
        }
        match field {
            Some(f) => path.push(f),
            None => {},
        }
        PlaceKey { root: self.root, path }
    }
}

/// Partitions the roots and field projections of a graph into alias sets:
/// two of them share a set exactly when they point to the same place.  The
/// sets come in the order of their first members, and each ascends.
pub fn partition_into_alias_sets(g: &Graph) -> (sets: Vec<Vec<NodeId>>)
    requires
        g.wf(),
    ensures
        seqs(sets@) == alias_sets(g@),
        partitions(g@, alias_sets(g@), g@.len() as int),
        forall|i: int| 0 <= i < sets@.len() ==> (#[trigger] sets@[i])@.len() > 0,
        forall|i: int, j: int|
            0 <= i < sets@.len() && 0 <= j < sets@[i]@.len() ==> #[trigger] sets@[i]@[j]
                < g@.len(),
{
    let len = g.len();
    let mut keys: Vec<PlaceKey> = Vec::new();
    let mut sets: Vec<Vec<NodeId>> = Vec::new();
    let mut n: usize = 0;
    while n < len
        invariant
            len == g@.len(),
            forest(g@),
            n <= len,
            keys@.len() == n,
            forall|m: int| 0 <= m < n ==> (#[trigger] keys@[m]).names(g@, m),
            seqs(sets@) == alias_sets_upto(g@, n as int),
        decreases len - n,
    {
        let node = g.node(n);
        proof {
            assert(source_precedes(g@, n as int));
            lemma_alias_sets_members(g@, n as int);
        }
        let ghost before = seqs(sets@);
        match node.source {
            None => {
                let mut fresh: Vec<NodeId> = Vec::new();
                fresh.push(n);
                sets.push(fresh);
                keys.push(PlaceKey { root: n, path: Vec::new() });
            },
            Some(p) => {
                match node.kind {
                    NodeKind::Field(f) => {
                        let key = keys[p].derive(Some(f));
                        let count = sets.len();
                        let mut i: usize = 0;
                        while i < count
                            invariant
                                count == sets@.len(),
                                i <= count,
                                n < len,
                                keys@.len() == n,
                                forall|m: int| 0 <= m < n ==> (#[trigger] keys@[m]).names(g@, m),
                                key.names(g@, n as int),
                                before == seqs(sets@),
                                forall|a: int| 0 <= a < before.len() ==> (#[trigger] before[a]).len() > 0,
                                forall|a: int, b: int|
                                    0 <= a < before.len() && 0 <= b < before[a].len()
                                        ==> #[trigger] before[a][b] < n,
                                find_set(g@, before, n as int, 0) == find_set(
                                    g@,
                                    before,
                                    n as int,
                                    i as int,
                                ),
                            ensures
                                i <= count,
                                i == find_set(g@, before, n as int, 0),
                            decreases count - i,
                        {
                            let first = sets[i][0];
                            if keys[first].same(&key) {
                                break ;
                            }
                            i = i + 1;
                        }
                        if i < count {
                            sets[i].push(n);
                        } else {
                            let mut fresh: Vec<NodeId> = Vec::new();
                            fresh.push(n);
                            sets.push(fresh);
                        }
                        keys.push(key);
                    },
                    _ => {
                        let key = keys[p].derive(None);
                        keys.push(key);
                    },
                }
            },
        }
        n = n + 1;
    }
    proof {
        lemma_alias_sets_partition(g@, len as int);
        assert forall|i: int| 0 <= i < sets@.len() implies (#[trigger] sets@[i])@.len() > 0 by {
            assert(seqs(sets@)[i] == sets@[i]@);
        }
        assert forall|i: int, j: int|
            0 <= i < sets@.len() && 0 <= j < sets@[i]@.len() implies #[trigger] sets@[i]@[j]
            < g@.len() by {
            assert(alias_sets_upto(g@, len as int)[i][j] < len);
        }
    }
    sets
}

/// The state of a scan over siblings: the latest last descendant seen so
/// far, the sibling that has it, and the conflicts found.
pub struct Scan {
    pub max_desc: NodeId,
    pub owner: NodeId,
    pub found: Map<NodeId, NodeId>,
}

/// One step of the scan.  A sibling that comes before the latest last
/// descendant of an earlier sibling is live at the same time as that
/// sibling: the two conflict, and each is recorded as the witness of the
/// other.  Then the sibling takes over as owner if its own last descendant
/// is later still.
pub open spec fn scan_step(st: Scan, id: NodeId, flow: Map<NodeId, GraphTraverseInfo>) -> Scan {
    let found = if id < st.max_desc {
        st.found.insert(st.owner, id).insert(id, st.owner)
    } else {
        st.found
    };
    if flow[id].last_descendent > st.max_desc {
        Scan { max_desc: flow[id].last_descendent, owner: id, found }
    } else {
        Scan { max_desc: st.max_desc, owner: st.owner, found }
    }
}

/// The scan after the first `j` siblings.  It starts at the first sibling
/// itself.
pub open spec fn scan_siblings(
    siblings: Seq<NodeId>,
    flow: Map<NodeId, GraphTraverseInfo>,
    found: Map<NodeId, NodeId>,
    j: int,
) -> Scan
    decreases j,
{
    if j <= 0 {
        Scan { max_desc: siblings[0], owner: siblings[0], found }
    } else {
        scan_step(scan_siblings(siblings, flow, found, j - 1), siblings[j - 1], flow)
    }
}

/// The conflicts on record after all the siblings have been scanned.
pub open spec fn sibling_conflicts(
    siblings: Seq<NodeId>,
    flow: Map<NodeId, GraphTraverseInfo>,
    found: Map<NodeId, NodeId>,
) -> Map<NodeId, NodeId> {
    scan_siblings(siblings, flow, found, siblings.len() as int).found
}

/// Scans siblings, which the caller hands over in ascending order, and
/// records every pair whose live ranges interleave.  The siblings stay as
/// they are.
pub fn check_sibling_conflict(
    siblings: &mut Vec<NodeId>,
    flow_info: &HashMap<NodeId, GraphTraverseInfo>,
    conflict_result: &mut HashMap<NodeId, NodeId>,
)
    requires
        old(siblings)@.len() > 0,
        forall|i: int|
            0 <= i < old(siblings)@.len() ==> flow_info@.contains_key(#[trigger] old(siblings)@[i]),
    ensures
        final(siblings)@ == old(siblings)@,
        final(conflict_result)@ == sibling_conflicts(
            old(siblings)@,
            flow_info@,
            old(conflict_result)@,
        ),
{
    let mut max_desc: NodeId = siblings[0];
    let mut max_desc_parent: NodeId = siblings[0];
    let len = siblings.len();
    let mut i: usize = 0;
    while i < len
        invariant
            len == siblings@.len(),
            siblings@ == old(siblings)@,
            i <= len,
            forall|j: int| 0 <= j < len ==> flow_info@.contains_key(#[trigger] siblings@[j]),
            scan_siblings(siblings@, flow_info@, old(conflict_result)@, i as int) == (Scan {
                max_desc,
                owner: max_desc_parent,
                found: conflict_result@,
            }),
        decreases len - i,
    {
        let id = siblings[i];
        if id < max_desc {
            conflict_result.insert(max_desc_parent, id);
            conflict_result.insert(id, max_desc_parent);
        }
        let last = flow_info.get(&id).unwrap().last_descendent;
        if last > max_desc {
            max_desc = last;
            max_desc_parent = id;
        }
        i = i + 1;
    }
}

/// Those of the first `j` children that are not field projections, in the
/// order given.
pub open spec fn movable_upto(g: Seq<Link>, kids: Seq<NodeId>, j: int) -> Seq<NodeId>
    decreases j,
{
    if j <= 0 {
        Seq::empty()
    } else {
        let rest = movable_upto(g, kids, j - 1);
        if is_copy_or_offset(g[kids[j - 1] as int].kind) {
            rest.push(kids[j - 1])
        } else {
            rest
        }
    }
}

/// The children of node `n` that are not field projections: the pointers
/// that stand for the very place of `n`.
pub open spec fn movable_children(g: Seq<Link>, n: NodeId) -> Seq<NodeId> {
    movable_upto(g, children_of(g, n), children_of(g, n).len() as int)
}

/// The conflicts on record after the first `k` alias sets have been scanned.
pub open spec fn after_alias_sets(
    sets: Seq<Seq<NodeId>>,
    flow: Map<NodeId, GraphTraverseInfo>,
    k: int,
) -> Map<NodeId, NodeId>
    decreases k,
{
    if k <= 0 {
        Map::empty()
    } else {
        sibling_conflicts(sets[k - 1], flow, after_alias_sets(sets, flow, k - 1))
    }
}

/// The conflicts on record after the movable children of each of the first
/// `k` nodes have been scanned as siblings.
pub open spec fn after_children(
    g: Seq<Link>,
    flow: Map<NodeId, GraphTraverseInfo>,
    found: Map<NodeId, NodeId>,
    k: int,
) -> Map<NodeId, NodeId>
    decreases k,
{
    if k <= 0 {
        found
    } else {
        let prev = after_children(g, flow, found, k - 1);
        let kids = movable_children(g, (k - 1) as usize);
        if kids.len() > 0 {
            sibling_conflicts(kids, flow, prev)
        } else {
            prev
        }
    }
}

/// The first of `kids`, from index `j` on, that has a conflict on record.
pub open spec fn first_flagged(kids: Seq<NodeId>, found: Map<NodeId, NodeId>, j: int) -> Option<
    NodeId,
>
    decreases kids.len() - j,
{
    if j < 0 || j >= kids.len() {
        None
    } else if found.contains_key(kids[j]) {
        Some(kids[j])
    } else {
        first_flagged(kids, found, j + 1)
    }
}

/// The conflicts on record after each of the first `k` nodes, earliest
/// first, has taken over the witness of its first movable child that has
/// one.
pub open spec fn after_inherit_up(g: Seq<Link>, found: Map<NodeId, NodeId>, k: int) -> Map<
    NodeId,
    NodeId,
>
    decreases k,
{
    if k <= 0 {
        found
    } else {
        let prev = after_inherit_up(g, found, k - 1);
        match first_flagged(movable_children(g, (k - 1) as usize), prev, 0) {
            Some(c) => prev.insert((k - 1) as usize, prev[c]),
            None => prev,
        }
    }
}

/// The conflicts on record after each of the first `k` nodes, earliest
/// first, has taken over the witness of its source, if the source has one
/// and the node is not a field projection.
pub open spec fn after_inherit_down(g: Seq<Link>, found: Map<NodeId, NodeId>, k: int) -> Map<
    NodeId,
    NodeId,
>
    decreases k,
{
    if k <= 0 {
        found
    } else {
        let prev = after_inherit_down(g, found, k - 1);
        let n = g[k - 1];
        if n.source is Some && prev.contains_key(n.source.unwrap()) && is_copy_or_offset(n.kind) {
            prev.insert((k - 1) as usize, prev[n.source.unwrap()])
        } else {
            prev
        }
    }
}

/// The conflict witnesses of a graph, given the last descendants of its
/// nodes: the alias sets are scanned, then the movable children of every
/// node, then witnesses are handed up from children and down from sources.
/// A node without an entry is unique.
pub open spec fn conflicts(g: Seq<Link>, flow: Map<NodeId, GraphTraverseInfo>) -> Map<
    NodeId,
    NodeId,
> {
    let len = g.len() as int;
    let sets = alias_sets(g);
    let direct = after_children(g, flow, after_alias_sets(sets, flow, sets.len() as int), len);
    after_inherit_down(g, after_inherit_up(g, direct, len), len)
}

/// Leaves out the field projections among `kids`.
fn movable(g: &Graph, kids: &Vec<NodeId>) -> (out: Vec<NodeId>)
    requires
        forall|i: int| 0 <= i < kids@.len() ==> #[trigger] kids@[i] < g@.len(),
    ensures
        out@ == movable_upto(g@, kids@, kids@.len() as int),
        forall|i: int| 0 <= i < out@.len() ==> #[trigger] out@[i] < g@.len(),
{
    let mut out: Vec<NodeId> = Vec::new();
    let len = kids.len();
    let mut j: usize = 0;
    while j < len
        invariant
            len == kids@.len(),
            j <= len,
            forall|i: int| 0 <= i < kids@.len() ==> #[trigger] kids@[i] < g@.len(),
            out@ == movable_upto(g@, kids@, j as int),
            forall|i: int| 0 <= i < out@.len() ==> #[trigger] out@[i] < g@.len(),
        decreases len - j,
    {
        let kid = kids[j];
        let node = g.node(kid);
        if copy_or_offset(&node) {
            out.push(kid);
        }
        j = j + 1;
    }
    out
}

/// Finds the conflict witness of every node that is not unique.
///
/// `downward` lists the children of every node and `flow_info` holds a
/// summary for every node.  A node is absent from the result exactly when
/// no conflict reached it.
pub fn determine_non_conflicting(
    g: &Graph,
    downward: &HashMap<NodeId, Vec<NodeId>>,
    flow_info: &HashMap<NodeId, GraphTraverseInfo>,
) -> (result: HashMap<NodeId, NodeId>)
    requires
        g.wf(),
        is_children_map(downward@, g@),
        covers(flow_info@, g@.len()),
    ensures
        result@ == conflicts(g@, flow_info@),
{
    let len = g.len();
    let mut alias_sets = partition_into_alias_sets(g);
    let mut result: HashMap<NodeId, NodeId> = HashMap::new();
    let ghost sets = seqs(alias_sets@);
    let count = alias_sets.len();
    let mut k: usize = 0;
    while k < count
        invariant
            count == alias_sets@.len(),
            k <= count,
            sets == seqs(alias_sets@),
            covers(flow_info@, g@.len()),
            forall|i: int| 0 <= i < alias_sets@.len() ==> (#[trigger] alias_sets@[i])@.len() > 0,
            forall|i: int, j: int|
                0 <= i < alias_sets@.len() && 0 <= j < alias_sets@[i]@.len()
                    ==> #[trigger] alias_sets@[i]@[j] < g@.len(),
            result@ == after_alias_sets(sets, flow_info@, k as int),
        decreases count - k,
    {
        check_sibling_conflict(&mut alias_sets[k], flow_info, &mut result);
        k = k + 1;
    }
    let ghost from_sets = result@;
    let mut id: usize = 0;
    while id < len
        invariant
            len == g@.len(),
            id <= len,
            is_children_map(downward@, g@),
            covers(flow_info@, g@.len()),
            result@ == after_children(g@, flow_info@, from_sets, id as int),
        decreases len - id,
    {
        proof {
            lemma_children_upto(g@, id, len as int);
        }
        let mut children = movable(g, downward.get(&id).unwrap());
        if children.len() > 0 {
            check_sibling_conflict(&mut children, flow_info, &mut result);
        }
        id = id + 1;
    }
    let ghost direct = result@;
    let mut id: usize = 0;
    while id < len
        invariant
            len == g@.len(),
            id <= len,
            is_children_map(downward@, g@),
            result@ == after_inherit_up(g@, direct, id as int),
        decreases len - id,
    {
        proof {
            lemma_children_upto(g@, id, len as int);
        }
        let children = movable(g, downward.get(&id).unwrap());
        let count = children.len();
        let mut j: usize = 0;
        let mut failidx: Option<NodeId> = None;
        while j < count
            invariant_except_break
                failidx is None,
                first_flagged(children@, result@, 0) == first_flagged(children@, result@, j as int),
            invariant
                count == children@.len(),
                j <= count,
            ensures
                match first_flagged(children@, result@, 0) {
                    Some(c) => result@.contains_key(c) && failidx == Some(result@[c]),
                    None => failidx is None,
                },
            decreases count - j,
        {
            match result.get(&children[j]) {
                Some(witness) => {
                    failidx = Some(*witness);
                    break ;
                },
                None => {},
            }
            j = j + 1;
        }
        match failidx {
            Some(witness) => {
                result.insert(id, witness);
            },
            None => {},
        }
        id = id + 1;
    }
    let ghost handed_up = result@;
    let mut id: usize = 0;
    while id < len
        invariant
            len == g@.len(),
            id <= len,
            result@ == after_inherit_down(g@, handed_up, id as int),
        decreases len - id,
    {
        let n = g.node(id);
        match n.source {
            Some(par) => {
                let failidx = match result.get(&par) {
                    Some(witness) => Some(*witness),
                    None => None,
                };
                match failidx {
                    Some(witness) => {
                        if copy_or_offset(&n) {
                            result.insert(id, witness);
                        }
                    },
                    None => {},
                }
            },
            None => {},
        }
        id = id + 1;
    }
    result
}

/// The finished flow summary of every node of a graph.
pub open spec fn flow_map(g: Seq<Link>) -> Map<NodeId, GraphTraverseInfo> {
    Map::new(|n: NodeId| n < g.len(), |n: NodeId| flow_of(g, n as int))
}

/// The conflict witness on record for node `n`, if there is one.
pub open spec fn witness_of(found: Map<NodeId, NodeId>, n: NodeId) -> Option<NodeId> {
    if found.contains_key(n) {
        Some(found[n])
    } else {
        None
    }
}

/// The summary of node `n`: its flows, and its conflict witness if it is
/// not unique.  It depends on the structure of the graph and on nothing
/// else.
pub open spec fn node_info_of(g: Seq<Link>, n: NodeId) -> NodeInfo {
    let flow = flow_of(g, n as int);
    NodeInfo {
        flows_to_mutation: flow.flows_to_store,
        flows_to_load: flow.flows_to_load,
        flows_to_pos_offset: flow.flows_to_pos_offset,
        flows_to_neg_offset: flow.flows_to_neg_offset,
        non_unique: witness_of(conflicts(g, flow_map(g)), n),
    }
}

/// The summaries of all the nodes of a graph.
pub open spec fn annotation(g: Seq<Link>) -> Seq<Option<NodeInfo>> {
    Seq::new(g.len(), |n: int| Some(node_info_of(g, n as usize)))
}

/// `after` is `before` with every node of every graph summarised anew.
pub open spec fn augmented(before: Graphs, after: Graphs) -> bool {
    &&& after@ == before@
    &&& after.infos() == Seq::new(before@.len(), |i: int| annotation(before@[i]))
}

/// Summarising is idempotent.  The summaries are a function of the
/// structure, and summarising leaves the structure as it is: a second run
/// writes what the first one wrote.
pub proof fn lemma_augment_idempotent(before: Graphs, once: Graphs, twice: Graphs)
    requires
        augmented(before, once),
        augmented(once, twice),
    ensures
        twice@ == once@,
        twice.infos() == once.infos(),
{
}

/// Computes the summaries of one graph.
fn summarize(g: &Graph) -> (infos: Vec<NodeInfo>)
    requires
        g.wf(),
    ensures
        infos@.len() == g@.len(),
        forall|n: int| 0 <= n < g@.len() ==> #[trigger] infos@[n] == node_info_of(g@, n as usize),
{
    let flow_info = create_flow_info(g);
    let children = collect_children(g);
    let conflicting = determine_non_conflicting(g, &children, &flow_info);
    assert(flow_info@ =~= flow_map(g@));
    let len = g.len();
    let mut infos: Vec<NodeInfo> = Vec::new();
    let mut idx: usize = 0;
    while idx < len
        invariant
            len == g@.len(),
            idx <= len,
            covers(flow_info@, g@.len()),
            flow_info@ == flow_map(g@),
            conflicting@ == conflicts(g@, flow_map(g@)),
            infos@.len() == idx,
            forall|n: int| 0 <= n < idx ==> #[trigger] infos@[n] == node_info_of(g@, n as usize),
        decreases len - idx,
    {
        let node_flow = flow_info.get(&idx).unwrap();
        let non_unique = match conflicting.get(&idx) {
            Some(witness) => Some(*witness),
            None => None,
        };
        infos.push(
            NodeInfo {
                flows_to_mutation: node_flow.flows_to_store,
                flows_to_load: node_flow.flows_to_load,
                flows_to_pos_offset: node_flow.flows_to_pos_offset,
                flows_to_neg_offset: node_flow.flows_to_neg_offset,
                non_unique,
            },
        );
        idx = idx + 1;
    }
    infos
}

/// Attaches to every node of every graph its summary: the flows of the node
/// and, where the node is not unique, a node that it conflicts with.  The
/// structure of the graphs stays as it is.
pub fn augment_with_info(pdg: &mut Graphs)
    requires
        old(pdg).wf(),
    ensures
        final(pdg).wf(),
        augmented(*old(pdg), *final(pdg)),
{
    let count = pdg.len();
    let mut i: usize = 0;
    proof {
        pdg.lemma_wf();
    }
    while i < count
        invariant
            pdg.wf(),
            pdg@ == old(pdg)@,
            count == pdg@.len(),
            count == pdg.infos().len(),
            i <= count,
            forall|j: int| 0 <= j < i ==> #[trigger] pdg.infos()[j] == annotation(pdg@[j]),
        decreases count - i,
    {
        let infos = summarize(pdg.graph(i));
        pdg.set_infos(i, &infos);
        i = i + 1;
    }
    assert(pdg.infos() =~= Seq::new(old(pdg)@.len(), |i: int| annotation(old(pdg)@[i])));
}

} // verus!
