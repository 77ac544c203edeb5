use ptr_analysis::graph::{Graph, Graphs, NodeId, NodeKind};
use ptr_analysis::info::{
    augment_with_info, check_sibling_conflict, collect_children, copy_or_offset, create_flow_info,
    determine_non_conflicting, init_traverse_info, node_does_load, node_does_mutation,
    node_does_neg_offset, node_does_pos_offset, partition_into_alias_sets, GraphTraverseInfo,
    NodeInfo,
};
use ptr_analysis::graph::Node;
use ptr_analysis::render::decimal_string;
use std::collections::HashMap;

fn node(kind: NodeKind, source: Option<NodeId>) -> Node {
    Node { kind, source, node_info: None }
}

fn graph_of(nodes: &[(NodeKind, Option<NodeId>)]) -> Graph {
    let mut g = Graph::new();
    for (i, (kind, source)) in nodes.iter().enumerate() {
        assert_eq!(g.add_node(*kind, *source), Some(i));
    }
    g
}

fn annotated(g: Graph) -> Graphs {
    let mut pdg = Graphs::new();
    pdg.push(g);
    augment_with_info(&mut pdg);
    pdg
}

fn info_of(pdg: &Graphs, id: NodeId) -> NodeInfo {
    pdg.graph(0).node(id).node_info.unwrap()
}

#[test]
fn kinds_are_told_apart() {
    assert!(copy_or_offset(&node(NodeKind::Copy, None)));
    assert!(copy_or_offset(&node(NodeKind::Offset(1), None)));
    assert!(copy_or_offset(&node(NodeKind::StoreAddr, None)));
    assert!(!copy_or_offset(&node(NodeKind::Field(0), None)));

    assert!(node_does_mutation(&node(NodeKind::StoreAddr, None)));
    assert!(node_does_mutation(&node(NodeKind::StoreValue, None)));
    assert!(!node_does_mutation(&node(NodeKind::LoadAddr, None)));

    assert!(node_does_load(&node(NodeKind::LoadAddr, None)));
    assert!(node_does_load(&node(NodeKind::LoadValue, None)));
    assert!(!node_does_load(&node(NodeKind::StoreValue, None)));

    assert!(node_does_pos_offset(&node(NodeKind::Offset(3), None)));
    assert!(!node_does_pos_offset(&node(NodeKind::Offset(0), None)));
    assert!(!node_does_pos_offset(&node(NodeKind::Offset(-3), None)));
    assert!(!node_does_pos_offset(&node(NodeKind::Copy, None)));

    assert!(node_does_neg_offset(&node(NodeKind::Offset(-1), None)));
    assert!(!node_does_neg_offset(&node(NodeKind::Offset(0), None)));
    assert!(!node_does_neg_offset(&node(NodeKind::Offset(1), None)));
}

#[test]
fn initial_summary_names_the_node_itself() {
    let info = init_traverse_info(7, &node(NodeKind::LoadAddr, Some(2)));
    assert_eq!(info.last_descendent, 7);
    assert_eq!(info.flows_to_load, Some(7));
    assert_eq!(info.flows_to_store, None);
    assert_eq!(info.flows_to_pos_offset, None);
    assert_eq!(info.flows_to_neg_offset, None);

    let info = init_traverse_info(4, &node(NodeKind::Offset(-2), Some(1)));
    assert_eq!(info.last_descendent, 4);
    assert_eq!(info.flows_to_neg_offset, Some(4));
    assert_eq!(info.flows_to_pos_offset, None);
    assert_eq!(info.flows_to_load, None);
    assert_eq!(info.flows_to_store, None);
}

#[test]
fn add_node_refuses_a_source_that_is_not_there() {
    let mut g = Graph::new();
    assert_eq!(g.add_node(NodeKind::Copy, Some(0)), None);
    assert_eq!(g.len(), 0);
    assert_eq!(g.add_node(NodeKind::AddrOfLocal(1), None), Some(0));
    assert_eq!(g.add_node(NodeKind::Copy, Some(1)), None);
    assert_eq!(g.add_node(NodeKind::Copy, Some(0)), Some(1));
    assert_eq!(g.len(), 2);
    assert_eq!(g.node(1).source, Some(0));
    assert_eq!(g.node(1).kind, NodeKind::Copy);
    assert_eq!(g.node(1).node_info, None);
    assert!(g.get(2).is_none());
    assert_eq!(g.get(0).unwrap().kind, NodeKind::AddrOfLocal(1));
}

#[test]
fn flows_are_folded_bottom_up() {
    // 0 root
    // +- 1 copy
    // |  +- 2 load
    // |  +- 4 store
    // +- 3 offset +1
    //    +- 5 offset -1
    // 6 root
    let g = graph_of(&[
        (NodeKind::AddrOfLocal(0), None),
        (NodeKind::Copy, Some(0)),
        (NodeKind::LoadAddr, Some(1)),
        (NodeKind::Offset(1), Some(0)),
        (NodeKind::StoreAddr, Some(1)),
        (NodeKind::Offset(-1), Some(3)),
        (NodeKind::AddrOfLocal(1), None),
    ]);
    let f = create_flow_info(&g);
    assert_eq!(f.len(), 7);

    let root = f[&0];
    assert_eq!(root.last_descendent, 5);
    // The later child that has a witness is folded in first.
    assert_eq!(root.flows_to_load, Some(2));
    assert_eq!(root.flows_to_store, Some(4));
    assert_eq!(root.flows_to_pos_offset, Some(3));
    assert_eq!(root.flows_to_neg_offset, Some(5));

    let copy = f[&1];
    assert_eq!(copy.last_descendent, 4);
    assert_eq!(copy.flows_to_load, Some(2));
    assert_eq!(copy.flows_to_store, Some(4));
    assert_eq!(copy.flows_to_pos_offset, None);
    assert_eq!(copy.flows_to_neg_offset, None);

    let offset = f[&3];
    assert_eq!(offset.last_descendent, 5);
    assert_eq!(offset.flows_to_pos_offset, Some(3));
    assert_eq!(offset.flows_to_neg_offset, Some(5));
    assert_eq!(offset.flows_to_load, None);

    let lone = f[&6];
    assert_eq!(lone.last_descendent, 6);
    assert_eq!(lone.flows_to_load, None);
    assert_eq!(lone.flows_to_store, None);
}

#[test]
fn nearer_witness_of_the_later_child_wins() {
    // 0 root, 1 load(0), 2 load(0): the later child is folded in first.
    let g = graph_of(&[
        (NodeKind::AddrOfLocal(0), None),
        (NodeKind::LoadAddr, Some(0)),
        (NodeKind::LoadAddr, Some(0)),
    ]);
    let f = create_flow_info(&g);
    assert_eq!(f[&0].flows_to_load, Some(2));
    assert_eq!(f[&0].last_descendent, 2);
}

#[test]
fn last_descendent_bounds_every_descendant() {
    let g = graph_of(&[
        (NodeKind::AddrOfLocal(0), None),
        (NodeKind::Copy, Some(0)),
        (NodeKind::Copy, Some(1)),
        (NodeKind::AddrOfLocal(1), None),
        (NodeKind::Copy, Some(2)),
        (NodeKind::Copy, Some(3)),
        (NodeKind::Copy, Some(0)),
    ]);
    let f = create_flow_info(&g);
    for id in 0..g.len() {
        assert!(f[&id].last_descendent >= id);
        // Walk up from every node: each ancestor's bound covers the node.
        let mut up = g.node(id).source;
        while let Some(p) = up {
            assert!(p < id);
            assert!(f[&p].last_descendent >= id);
            up = g.node(p).source;
        }
    }
    assert_eq!(f[&0].last_descendent, 6);
    assert_eq!(f[&1].last_descendent, 4);
    assert_eq!(f[&3].last_descendent, 5);
}

#[test]
fn children_are_listed_in_order() {
    let g = graph_of(&[
        (NodeKind::AddrOfLocal(0), None),
        (NodeKind::Copy, Some(0)),
        (NodeKind::Field(1), Some(0)),
        (NodeKind::Copy, Some(1)),
        (NodeKind::Copy, Some(0)),
    ]);
    let m = collect_children(&g);
    assert_eq!(m.len(), 5);
    assert_eq!(m[&0], vec![1, 2, 4]);
    assert_eq!(m[&1], vec![3]);
    assert_eq!(m[&2], Vec::<NodeId>::new());
    assert_eq!(m[&3], Vec::<NodeId>::new());
    assert_eq!(m[&4], Vec::<NodeId>::new());
}

#[test]
fn alias_sets_group_by_root_and_field_path() {
    // 0 root a
    // 1 = a.0        key (0, [0])
    // 2 = copy(a)    no set of its own
    // 3 = (copy a).0 key (0, [0]): a copy stands for the same place
    // 4 = a.1        key (0, [1])
    // 5 root b
    // 6 = b.0        key (5, [0])
    // 7 = (a.0).0    key (0, [0, 0])
    let g = graph_of(&[
        (NodeKind::AddrOfLocal(0), None),
        (NodeKind::Field(0), Some(0)),
        (NodeKind::Copy, Some(0)),
        (NodeKind::Field(0), Some(2)),
        (NodeKind::Field(1), Some(0)),
        (NodeKind::AddrOfLocal(1), None),
        (NodeKind::Field(0), Some(5)),
        (NodeKind::Field(0), Some(1)),
    ]);
    let sets = partition_into_alias_sets(&g);
    assert_eq!(sets, vec![vec![0], vec![1, 3], vec![4], vec![5], vec![6], vec![7]]);
}

#[test]
fn siblings_that_interleave_conflict() {
    let mut flow: HashMap<NodeId, GraphTraverseInfo> = HashMap::new();
    for (id, last) in [(1usize, 5usize), (3, 4), (6, 6)] {
        flow.insert(
            id,
            GraphTraverseInfo {
                last_descendent: last,
                flows_to_load: None,
                flows_to_store: None,
                flows_to_pos_offset: None,
                flows_to_neg_offset: None,
            },
        );
    }
    let mut siblings = vec![1, 3, 6];
    let mut found: HashMap<NodeId, NodeId> = HashMap::new();
    check_sibling_conflict(&mut siblings, &flow, &mut found);
    assert_eq!(siblings, vec![1, 3, 6]);
    // 3 starts before the last descendant of 1; 6 starts after everything.
    assert_eq!(found.len(), 2);
    assert_eq!(found[&1], 3);
    assert_eq!(found[&3], 1);
}

#[test]
fn siblings_in_sequence_do_not_conflict() {
    let mut flow: HashMap<NodeId, GraphTraverseInfo> = HashMap::new();
    for (id, last) in [(1usize, 2usize), (3, 5), (6, 6)] {
        flow.insert(
            id,
            GraphTraverseInfo {
                last_descendent: last,
                flows_to_load: None,
                flows_to_store: None,
                flows_to_pos_offset: None,
                flows_to_neg_offset: None,
            },
        );
    }
    let mut siblings = vec![1, 3, 6];
    let mut found: HashMap<NodeId, NodeId> = HashMap::new();
    found.insert(9, 8);
    check_sibling_conflict(&mut siblings, &flow, &mut found);
    assert_eq!(found.len(), 1);
    assert_eq!(found[&9], 8);
}

#[test]
fn fields_of_one_place_conflict_when_interleaved() {
    // 0 root
    // 1 = root.0
    // 2 = store through 1
    // 3 = root.0 again
    // 4 = store through 3
    // 5 = store through 1
    let g = graph_of(&[
        (NodeKind::AddrOfLocal(0), None),
        (NodeKind::Field(0), Some(0)),
        (NodeKind::StoreAddr, Some(1)),
        (NodeKind::Field(0), Some(0)),
        (NodeKind::StoreAddr, Some(3)),
        (NodeKind::StoreAddr, Some(1)),
    ]);
    let flow = create_flow_info(&g);
    let children = collect_children(&g);
    let found = determine_non_conflicting(&g, &children, &flow);
    assert_eq!(found.get(&1), Some(&3));
    assert_eq!(found.get(&3), Some(&1));
    // Stores stand for the place of their source and take over its witness.
    assert_eq!(found.get(&2), Some(&3));
    assert_eq!(found.get(&5), Some(&3));
    assert_eq!(found.get(&4), Some(&1));
    // A field projection hands nothing up to the pointer it projects from.
    assert_eq!(found.get(&0), None);
}

#[test]
fn fields_of_different_places_do_not_conflict() {
    let g = graph_of(&[
        (NodeKind::AddrOfLocal(0), None),
        (NodeKind::Field(0), Some(0)),
        (NodeKind::StoreAddr, Some(1)),
        (NodeKind::Field(1), Some(0)),
        (NodeKind::StoreAddr, Some(3)),
        (NodeKind::StoreAddr, Some(1)),
    ]);
    let pdg = annotated(g);
    for id in 0..6 {
        assert_eq!(info_of(&pdg, id).non_unique, None);
    }
}

#[test]
fn summaries_hold_flows_and_witnesses() {
    let g = graph_of(&[
        (NodeKind::AddrOfLocal(0), None),
        (NodeKind::Copy, Some(0)),
        (NodeKind::StoreAddr, Some(1)),
        (NodeKind::Copy, Some(0)),
        (NodeKind::LoadAddr, Some(3)),
        (NodeKind::StoreAddr, Some(1)),
    ]);
    let pdg = annotated(g);
    assert_eq!(
        info_of(&pdg, 0),
        NodeInfo {
            flows_to_mutation: Some(5),
            flows_to_load: Some(4),
            flows_to_pos_offset: None,
            flows_to_neg_offset: None,
            non_unique: Some(3),
        }
    );
    assert_eq!(
        info_of(&pdg, 1),
        NodeInfo {
            flows_to_mutation: Some(5),
            flows_to_load: None,
            flows_to_pos_offset: None,
            flows_to_neg_offset: None,
            non_unique: Some(3),
        }
    );
    assert_eq!(
        info_of(&pdg, 4),
        NodeInfo {
            flows_to_mutation: None,
            flows_to_load: Some(4),
            flows_to_pos_offset: None,
            flows_to_neg_offset: None,
            // The witness of the root, handed down through the copy.
            non_unique: Some(3),
        }
    );
    assert_eq!(pdg.graph(0).node(4).kind, NodeKind::LoadAddr);
    assert_eq!(pdg.graph(0).node(4).source, Some(3));
}

#[test]
fn summarising_twice_changes_nothing() {
    let g = graph_of(&[
        (NodeKind::AddrOfLocal(0), None),
        (NodeKind::Copy, Some(0)),
        (NodeKind::StoreAddr, Some(1)),
        (NodeKind::Copy, Some(0)),
        (NodeKind::Field(2), Some(3)),
        (NodeKind::Offset(-4), Some(4)),
        (NodeKind::StoreAddr, Some(1)),
        (NodeKind::LoadValue, Some(5)),
    ]);
    let mut pdg = annotated(g);
    let once: Vec<NodeInfo> = (0..8).map(|id| info_of(&pdg, id)).collect();
    augment_with_info(&mut pdg);
    let twice: Vec<NodeInfo> = (0..8).map(|id| info_of(&pdg, id)).collect();
    assert_eq!(once, twice);
    assert_eq!(pdg.graph(0).len(), 8);
}

#[test]
fn every_graph_of_a_collection_is_summarised() {
    let mut pdg = Graphs::new();
    assert_eq!(pdg.push(graph_of(&[(NodeKind::AddrOfLocal(0), None)])), 0);
    assert_eq!(
        pdg.push(graph_of(&[(NodeKind::AddrOfLocal(0), None), (NodeKind::LoadAddr, Some(0))])),
        1
    );
    assert_eq!(pdg.push(Graph::new()), 2);
    augment_with_info(&mut pdg);
    assert_eq!(pdg.len(), 3);
    assert_eq!(pdg.graph(0).node(0).node_info.unwrap().flows_to_load, None);
    assert_eq!(pdg.graph(1).node(0).node_info.unwrap().flows_to_load, Some(1));
    assert_eq!(pdg.graph(1).node(1).node_info.unwrap().flows_to_load, Some(1));
    assert_eq!(pdg.graph(2).len(), 0);
}

#[test]
fn summary_as_text() {
    let info = NodeInfo {
        flows_to_mutation: Some(3),
        flows_to_load: None,
        flows_to_pos_offset: Some(5),
        flows_to_neg_offset: Some(12),
        non_unique: Some(0),
    };
    assert_eq!(info.describe(), "mut n[3], +offset n[12], -offset n[12], non unique by n[0]");

    let nothing = NodeInfo {
        flows_to_mutation: None,
        flows_to_load: None,
        flows_to_pos_offset: Some(1),
        flows_to_neg_offset: None,
        non_unique: None,
    };
    assert_eq!(nothing.describe(), "");

    let one = NodeInfo {
        flows_to_mutation: None,
        flows_to_load: Some(1024),
        flows_to_pos_offset: None,
        flows_to_neg_offset: None,
        non_unique: None,
    };
    assert_eq!(one.describe(), "load n[1024]");
}

#[test]
fn numbers_in_decimal() {
    assert_eq!(decimal_string(0), "0");
    assert_eq!(decimal_string(7), "7");
    assert_eq!(decimal_string(10), "10");
    assert_eq!(decimal_string(12345), "12345");
    assert_eq!(decimal_string(9007199254740993), "9007199254740993");
}
