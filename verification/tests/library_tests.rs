use node_compiler::graph::{hash_label, FunctionDef, Graph, GraphData, InPinId, NodeId, OutPinId};
use node_compiler::library::{calls_later, delete_function, index_after_delete, remove_function_refs};
use node_compiler::types::{NodeKind, NodeValue, WireType};

fn wire(from: (usize, usize), to: (usize, usize)) -> (OutPinId, InPinId) {
    (
        OutPinId { node: NodeId(from.0), output: from.1 },
        InPinId { node: NodeId(to.0), input: to.1 },
    )
}

fn call(def_index: usize) -> NodeKind {
    NodeKind::FunctionCall {
        def_index,
        name: format!("f{def_index}"),
        in_types: vec![WireType::Byte],
        out_types: vec![WireType::Byte],
    }
}

fn def_index_of(k: &NodeKind) -> Option<usize> {
    match k {
        NodeKind::FunctionCall { def_index, .. } => Some(*def_index),
        _ => None,
    }
}

#[test]
fn new_function_has_source_and_sink() {
    let f = FunctionDef::new("adder");
    assert_eq!(f.name, "adder");
    assert_eq!(f.graph.nodes.len(), 2);
    assert_eq!(f.graph.nodes[0].0, 0);
    assert!(matches!(&f.graph.nodes[0].1, NodeKind::Source { filename } if filename == "args"));
    assert_eq!(f.graph.nodes[1].0, 1);
    assert!(matches!(f.graph.nodes[1].1, NodeKind::Sink));
    assert!(f.graph.wires.is_empty());
}

#[test]
fn call_types_follow_the_terminals() {
    let f = FunctionDef::new("id");
    let (ins, outs) = f.call_types();
    assert_eq!(ins, vec![WireType::Byte]);
    assert_eq!(outs, vec![WireType::Byte]);

    let mut g = FunctionDef::new("two in");
    g.graph.nodes.push((2, NodeKind::Source { filename: "more".to_string() }));
    g.graph.nodes.push((3, NodeKind::Add));
    let (ins, outs) = g.call_types();
    assert_eq!(ins, vec![WireType::Byte, WireType::Byte]);
    assert_eq!(outs, vec![WireType::Byte]);

    let empty = FunctionDef { name: "empty".to_string(), graph: GraphData::default() };
    assert_eq!(empty.call_types(), (vec![], vec![]));
}

#[test]
fn call_node_carries_name_and_types() {
    let f = FunctionDef::new("double");
    let k = f.call_node(4);
    match k {
        NodeKind::FunctionCall { def_index, name, in_types, out_types } => {
            assert_eq!(def_index, 4);
            assert_eq!(name, "double");
            assert_eq!(in_types, vec![WireType::Byte]);
            assert_eq!(out_types, vec![WireType::Byte]);
        }
        _ => panic!("not a call"),
    }
}

#[test]
fn display_name_prefers_the_name() {
    let f = FunctionDef::new("xor3");
    assert_eq!(f.display_name(), "xor3");
}

#[test]
fn display_name_of_an_unnamed_function_is_its_hash_label() {
    let f = FunctionDef::new("");
    let shown = f.display_name();
    assert_eq!(shown.len(), 9);
    assert!(shown.starts_with('#'));
    assert!(shown[1..].chars().all(|c| c.is_ascii_hexdigit() && !c.is_ascii_uppercase()));
    // The hash depends on the structure only, not on the order of the nodes.
    let mut g = FunctionDef::new("");
    g.graph.nodes.reverse();
    assert_eq!(g.display_name(), shown);
    // Another structure gives (here) another label.
    let mut h = FunctionDef::new("");
    h.graph.nodes.push((2, NodeKind::Not));
    assert_ne!(h.display_name(), shown);
}

#[test]
fn hash_labels() {
    assert_eq!(hash_label(0x1234), "#00001234");
    assert_eq!(hash_label(0xDEAD_BEEF), "#deadbeef");
    assert_eq!(hash_label(0x1_0000_00AB), "#000000ab");
    assert_eq!(hash_label(0), "#00000000");
}

#[test]
fn graph_view_of_graph_data() {
    let g = GraphData {
        nodes: vec![(7, NodeKind::Not), (3, NodeKind::Constant(vec![NodeValue::Byte(1)])), (7, NodeKind::Sink)],
        wires: vec![wire((3, 0), (7, 0)), wire((9, 2), (4, 1)), wire((3, 1), (7, 0))],
    };
    let nodes = g.nodes();
    assert_eq!(nodes.len(), 3);
    assert_eq!(nodes[0].0, NodeId(7));
    assert_eq!(nodes[1].0, NodeId(3));
    assert!(matches!(g.node(NodeId(7)), NodeKind::Not));
    assert!(matches!(g.node(NodeId(3)), NodeKind::Constant(_)));
    let sources = g.sources_of(InPinId { node: NodeId(7), input: 0 });
    assert_eq!(
        sources,
        vec![OutPinId { node: NodeId(3), output: 0 }, OutPinId { node: NodeId(3), output: 1 }]
    );
    assert!(g.sources_of(InPinId { node: NodeId(7), input: 1 }).is_empty());
    assert_eq!(g.find_node(NodeId(7)), Some(0));
    assert_eq!(g.find_node(NodeId(5)), None);
    assert_eq!(g.first_source(InPinId { node: NodeId(7), input: 0 }), Some(OutPinId { node: NodeId(3), output: 0 }));
    assert_eq!(g.first_source(InPinId { node: NodeId(3), input: 0 }), None);
}

#[test]
fn calls_later_detects_later_calls() {
    assert!(calls_later(&call(3), 1));
    assert!(!calls_later(&call(1), 1));
    assert!(!calls_later(&call(0), 1));
    assert!(!calls_later(&NodeKind::Add, 0));
}

#[test]
fn removing_refs_drops_calls_and_their_wires() {
    let mut g = GraphData {
        nodes: vec![
            (0, NodeKind::Constant(vec![NodeValue::Byte(1)])),
            (1, call(2)),
            (2, call(5)),
            (3, call(0)),
            (4, NodeKind::Sink),
        ],
        wires: vec![
            wire((0, 0), (1, 0)),
            wire((1, 0), (2, 0)),
            wire((2, 0), (3, 0)),
            wire((3, 0), (4, 0)),
        ],
    };
    remove_function_refs(&mut g, 2);
    let ids: Vec<usize> = g.nodes.iter().map(|e| e.0).collect();
    assert_eq!(ids, vec![0, 2, 3, 4]);
    assert_eq!(def_index_of(&g.nodes[1].1), Some(4));
    assert_eq!(def_index_of(&g.nodes[2].1), Some(0));
    assert_eq!(g.wires, vec![wire((2, 0), (3, 0)), wire((3, 0), (4, 0))]);
}

#[test]
fn deleting_a_function_shifts_the_rest() {
    let mut a = FunctionDef::new("a");
    a.graph.nodes.push((2, call(1)));
    a.graph.nodes.push((3, call(2)));
    a.graph.wires.push(wire((0, 0), (2, 0)));
    a.graph.wires.push(wire((2, 0), (3, 0)));
    a.graph.wires.push(wire((3, 0), (1, 0)));
    let b = FunctionDef::new("b");
    let mut c = FunctionDef::new("c");
    c.graph.nodes.push((7, call(1)));
    let mut functions = vec![a, b, c];
    delete_function(&mut functions, 1);
    assert_eq!(functions.len(), 2);
    assert_eq!(functions[0].name, "a");
    assert_eq!(functions[1].name, "c");
    let ids: Vec<usize> = functions[0].graph.nodes.iter().map(|e| e.0).collect();
    assert_eq!(ids, vec![0, 1, 3]);
    assert_eq!(def_index_of(&functions[0].graph.nodes[2].1), Some(1));
    assert_eq!(functions[0].graph.wires, vec![wire((3, 0), (1, 0))]);
    let ids: Vec<usize> = functions[1].graph.nodes.iter().map(|e| e.0).collect();
    assert_eq!(ids, vec![0, 1]);
}

#[test]
fn deleting_the_last_function() {
    let mut functions = vec![FunctionDef::new("only")];
    delete_function(&mut functions, 0);
    assert!(functions.is_empty());
}

#[test]
fn indices_after_a_deletion() {
    assert_eq!(index_after_delete(2, 2), None);
    assert_eq!(index_after_delete(3, 2), Some(2));
    assert_eq!(index_after_delete(1, 2), Some(1));
    assert_eq!(index_after_delete(0, 0), None);
}

#[test]
fn calls_stay_resolvable_after_a_deletion() {
    let mut functions = Vec::new();
    for n in 0..4 {
        let mut f = FunctionDef::new(&format!("f{n}"));
        for (slot, d) in (0..4).filter(|d| *d != n).enumerate() {
            f.graph.nodes.push((10 + slot, call(d)));
        }
        functions.push(f);
    }
    delete_function(&mut functions, 2);
    assert_eq!(functions.len(), 3);
    for f in &functions {
        for (_, k) in &f.graph.nodes {
            if let Some(d) = def_index_of(k) {
                assert!(d < functions.len());
            }
        }
    }
    // Function f3 moved to index 2; the calls of it follow.
    assert_eq!(functions[2].name, "f3");
    let calls_of_f3: Vec<usize> = functions[0]
        .graph
        .nodes
        .iter()
        .filter(|(_, k)| matches!(k, NodeKind::FunctionCall { name, .. } if name == "f3"))
        .map(|(_, k)| def_index_of(k).unwrap())
        .collect();
    assert_eq!(calls_of_f3, vec![2]);
}
