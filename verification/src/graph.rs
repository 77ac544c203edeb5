//! The provenance graph of one function.
//!
//! Every pointer-producing event of a function body is a [`Node`].  A node is
//! identified by its position in the graph, and positions follow program
//! order.  A node may name the node it was derived from (its `source`); the
//! source always comes earlier, so the nodes form a forest.
//!
//! The view of a graph is its structure: the kind and the source of every
//! node.  The summaries that the analysis attaches are kept apart from it,
//! under [`Graph::infos`], because the analysis never reads them.

use crate::info::NodeInfo;
use vstd::prelude::*;

verus! {

/// Identity of a node: its index in the graph that owns it.
pub type NodeId = usize;

/// Identity of a graph: its index in the [`Graphs`] collection.
pub type GraphId = usize;

/// What kind of event produced a pointer.
#[derive(Clone, Copy, Debug, PartialEq, Eq, Structural, Hash)]
pub enum NodeKind {
    /// The address of a local variable was taken.
    AddrOfLocal(u32),
    /// A pointer was copied.
    Copy,
    /// A pointer to a field, by index, was projected out of a pointer.
    Field(u32),
    /// Pointer arithmetic by a signed number of elements.
    Offset(isize),
    /// The pointer was the address of a load.
    LoadAddr,
    /// The pointer was the address of a store.
    StoreAddr,
    /// The pointer was the value that a load produced.
    LoadValue,
    /// The pointer was the value that a store wrote.
    StoreValue,
}

/// One pointer-producing event.
#[derive(Clone, Copy, Debug, PartialEq, Eq, Hash)]
pub struct Node {
    pub kind: NodeKind,
    /// The node this pointer was derived from; `None` for a root.
    pub source: Option<NodeId>,
    /// The summary that the analysis attaches; `None` before it has run.
    pub node_info: Option<NodeInfo>,
}

/// The structural part of a node: all that the analysis reads.
pub struct Link {
    pub kind: NodeKind,
    pub source: Option<NodeId>,
}

impl Node {
    /// The structural part of this node.
    pub open spec fn link(self) -> Link {
        Link { kind: self.kind, source: self.source }
    }
}

/// Node `i` is a root, or its source is a strictly earlier node.
pub open spec fn source_precedes(g: Seq<Link>, i: int) -> bool {
    match g[i].source {
        Some(p) => p < i,
        None => true,
    }
}

/// The forest invariant: every source is a strictly earlier node.
pub open spec fn forest(g: Seq<Link>) -> bool {
    forall|i: int| 0 <= i < g.len() ==> source_precedes(g, i)
}

/// The nodes of one function, in program order.
#[derive(Debug)]
pub struct Graph {
    nodes: Vec<Node>,
}

impl View for Graph {
    type V = Seq<Link>;

    closed spec fn view(&self) -> Seq<Link> {
        Seq::new(self.nodes@.len(), |i: int| self.nodes@[i].link())
    }
}

impl Graph {
    /// The summary attached to each node.
    pub closed spec fn infos(&self) -> Seq<Option<NodeInfo>> {
        Seq::new(self.nodes@.len(), |i: int| self.nodes@[i].node_info)
    }

    /// A graph is well formed when it is a forest and holds one summary slot
    /// per node.  `new` and `add_node` are the only ways to make a graph, and
    /// every method keeps it well formed.
    pub open spec fn wf(&self) -> bool {
        &&& forest(self@)
        &&& self.infos().len() == self@.len()
    }

    /// A graph without nodes.
    pub fn new() -> (g: Graph)
        ensures
            g.wf(),
            g@ == Seq::<Link>::empty(),
            g.infos() == Seq::<Option<NodeInfo>>::empty(),
    {
        let g = Graph { nodes: Vec::new() };
        g
    }

    /// The number of nodes.
    pub fn len(&self) -> (n: usize)
        ensures
            n == self@.len(),
            n == self.infos().len(),
    {
        self.nodes.len()
    }

    /// Reads node `id`.
    pub fn node(&self, id: NodeId) -> (n: Node)
        requires
            id < self@.len(),
        ensures
            n.link() == self@[id as int],
            n.node_info == self.infos()[id as int],
    {
        self.nodes[id]
    }

    /// Reads node `id` if there is one.
    pub fn get(&self, id: NodeId) -> (n: Option<Node>)
        ensures
            id < self@.len() ==> n.is_some() && n.unwrap().link() == self@[id as int]
                && n.unwrap().node_info == self.infos()[id as int],
            id >= self@.len() ==> n.is_none(),
    {
        if id < self.nodes.len() {
            Some(self.nodes[id])
        } else {
            None
        }
    }

    /// Appends a node without a summary and returns its identity.  A source
    /// that is not yet in the graph is refused, and the graph stays as it is.
    pub fn add_node(&mut self, kind: NodeKind, source: Option<NodeId>) -> (r: Option<NodeId>)
        requires
            old(self).wf(),
        ensures
            final(self).wf(),
            match source {
                Some(p) if p >= old(self)@.len() => {
                    &&& r.is_none()
                    &&& final(self)@ == old(self)@
                    &&& final(self).infos() == old(self).infos()
                },
                _ => {
                    &&& r == Some(old(self)@.len() as usize)
                    &&& final(self)@ == old(self)@.push(Link { kind, source })
                    &&& final(self).infos() == old(self).infos().push(None)
                },
            },
    {
        let n = self.nodes.len();
        match source {
            Some(p) if p >= n => None,
            _ => {
                self.nodes.push(Node { kind, source, node_info: None });
                proof {
                    assert forall|i: int| 0 <= i < self@.len() implies source_precedes(
                        self@,
                        i,
                    ) by {
                        if i < n {
                            assert(source_precedes(old(self)@, i));
                        }
                    }
                }
                Some(n)
            },
        }
    }

    /// Replaces the summary of every node.  The structure stays.
    pub(crate) fn set_infos(&mut self, infos: &Vec<NodeInfo>)
        requires
            old(self).wf(),
            infos@.len() == old(self)@.len(),
        ensures
            final(self).wf(),
            final(self)@ == old(self)@,
            final(self).infos() == infos@.map_values(|info: NodeInfo| Some(info)),
    {
        let n = self.nodes.len();
        let mut fresh: Vec<Node> = Vec::new();
        let mut i: usize = 0;
        while i < n
            invariant
                n == self.nodes@.len(),
                n == infos@.len(),
                i <= n,
                fresh@.len() == i,
                forall|j: int|
                    0 <= j < i ==> #[trigger] fresh@[j] == (Node {
                        kind: self.nodes@[j].kind,
                        source: self.nodes@[j].source,
                        node_info: Some(infos@[j]),
                    }),
            decreases n - i,
        {
            let old_node = self.nodes[i];
            fresh.push(
                Node { kind: old_node.kind, source: old_node.source, node_info: Some(infos[i]) },
            );
            i = i + 1;
        }
        self.nodes = fresh;
        proof {
            assert(self@ =~= old(self)@);
        }
    }
}

/// The graphs of a program, one per analysed function.
#[derive(Debug)]
pub struct Graphs {
    graphs: Vec<Graph>,
}

impl View for Graphs {
    type V = Seq<Seq<Link>>;

    closed spec fn view(&self) -> Seq<Seq<Link>> {
        Seq::new(self.graphs@.len(), |i: int| self.graphs@[i]@)
    }
}

impl Graphs {
    /// The summaries of each graph.
    pub closed spec fn infos(&self) -> Seq<Seq<Option<NodeInfo>>> {
        Seq::new(self.graphs@.len(), |i: int| self.graphs@[i].infos())
    }

    /// Every graph of the collection is well formed.
    pub closed spec fn wf(&self) -> bool {
        forall|i: int| 0 <= i < self.graphs@.len() ==> (#[trigger] self.graphs@[i]).wf()
    }

    /// In a well-formed collection every graph is a forest with one summary
    /// slot per node.
    pub proof fn lemma_wf(&self)
        requires
            self.wf(),
        ensures
            self.infos().len() == self@.len(),
            forall|i: int| 0 <= i < self@.len() ==> forest(#[trigger] self@[i]),
            forall|i: int|
                0 <= i < self@.len() ==> (#[trigger] self.infos()[i]).len() == self@[i].len(),
    {
    }

    /// A collection without graphs.
    pub fn new() -> (gs: Graphs)
        ensures
            gs.wf(),
            gs@ == Seq::<Seq<Link>>::empty(),
    {
        Graphs { graphs: Vec::new() }
    }

    /// The number of graphs.
    pub fn len(&self) -> (n: usize)
        ensures
            n == self@.len(),
    {
        self.graphs.len()
    }

    /// Appends a graph and returns its identity.
    pub fn push(&mut self, g: Graph) -> (id: GraphId)
        requires
            old(self).wf(),
            g.wf(),
        ensures
            final(self).wf(),
            id == old(self)@.len(),
            final(self)@ == old(self)@.push(g@),
            final(self).infos() == old(self).infos().push(g.infos()),
    {
        let id = self.graphs.len();
        self.graphs.push(g);
        id
    }

    /// Borrows graph `id`.
    pub fn graph(&self, id: GraphId) -> (g: &Graph)
        requires
            self.wf(),
            id < self@.len(),
        ensures
            g.wf(),
            g@ == self@[id as int],
            g.infos() == self.infos()[id as int],
    {
        &self.graphs[id]
    }

    /// Replaces the summaries of graph `id`.  Every structure stays, and so
    /// do the summaries of the other graphs.
    pub(crate) fn set_infos(&mut self, id: GraphId, infos: &Vec<NodeInfo>)
        requires
            old(self).wf(),
            id < old(self)@.len(),
            infos@.len() == old(self)@[id as int].len(),
        ensures
            final(self).wf(),
            final(self)@ == old(self)@,
            final(self).infos() == old(self).infos().update(
                id as int,
                infos@.map_values(|info: NodeInfo| Some(info)),
            ),
    {
        self.graphs[id].set_infos(infos);
    }
}

} // verus!
