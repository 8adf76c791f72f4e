use node_compiler::editor::{
    add_concat_input, add_constant_output, connect_typed, dropped_wire_offer, graph_menu_offer,
    remove_concat_input, remove_constant_output, starter_graph, MenuSection,
};
use node_compiler::graph::FunctionDef;
use node_compiler::eval::eval_graph;
use node_compiler::graph::{GraphData, InPinId, NodeId, OutPinId};
use node_compiler::snarl_graph::{
    delete_function_everywhere, graph_from_snarl, remove_function_calls, snarl_from_graph,
};
use node_compiler::types::{NodeKind, NodeValue, WireType};

fn out(node: usize, output: usize) -> OutPinId {
    OutPinId { node: NodeId(node), output }
}

fn inp(node: usize, input: usize) -> InPinId {
    InPinId { node: NodeId(node), input }
}

fn titles(g: &GraphData) -> Vec<String> {
    g.nodes.iter().map(|e| e.1.node_title()).collect()
}

/// The key under which the node titled `title` is stored in the listed graph.
fn key_of(g: &GraphData, title: &str) -> usize {
    g.nodes.iter().find(|e| e.1.node_title() == title).expect("node present").0
}

fn sorted_wires(g: &GraphData) -> Vec<(OutPinId, InPinId)> {
    let mut w = g.wires.clone();
    w.sort_by_key(|(o, i)| (o.node.0, o.output, i.node.0, i.input));
    w
}

#[test]
fn starter_graph_wires_source_to_sink() {
    let g = starter_graph();
    assert_eq!(g.nodes.len(), 2);
    assert!(matches!(&g.nodes[0], (0, NodeKind::Source { filename }) if filename.is_empty()));
    assert!(matches!(g.nodes[1], (1, NodeKind::Sink)));
    assert_eq!(g.wires, vec![(out(0, 0), inp(1, 0))]);
}

#[test]
fn round_trip_keeps_nodes_and_wires() {
    let g = GraphData {
        nodes: vec![
            (5, NodeKind::Constant(vec![NodeValue::Byte(3)])),
            (9, NodeKind::Not),
            (12, NodeKind::Sink),
        ],
        wires: vec![(out(5, 0), inp(9, 0)), (out(9, 0), inp(12, 0))],
    };
    let s = snarl_from_graph(&g);
    let h = graph_from_snarl(&s);
    let mut got = titles(&h);
    got.sort();
    assert_eq!(got, vec!["CONSTANT", "NOT", "SINK"]);
    let c = key_of(&h, "CONSTANT");
    let n = key_of(&h, "NOT");
    let k = key_of(&h, "SINK");
    let mut expected = vec![(out(c, 0), inp(n, 0)), (out(n, 0), inp(k, 0))];
    expected.sort_by_key(|(o, i)| (o.node.0, o.output, i.node.0, i.input));
    assert_eq!(sorted_wires(&h), expected);
    // The listing is by increasing key.
    assert!(h.nodes.windows(2).all(|w| w[0].0 < w[1].0));
    // Both evaluate alike.
    let before = eval_graph(&g, &[]);
    let after = eval_graph(&h, &[]);
    let v0 = before.get(out(9, 0)).unwrap().as_ref().unwrap().short_display();
    let v1 = after.get(out(n, 0)).unwrap().as_ref().unwrap().short_display();
    assert_eq!(v0, "0xFC");
    assert_eq!(v0, v1);
}

#[test]
fn round_trip_drops_dangling_wires() {
    let g = GraphData {
        nodes: vec![(1, NodeKind::Not), (2, NodeKind::Sink)],
        wires: vec![(out(1, 0), inp(2, 0)), (out(42, 0), inp(1, 0))],
    };
    let h = graph_from_snarl(&snarl_from_graph(&g));
    assert_eq!(h.nodes.len(), 2);
    assert_eq!(h.wires.len(), 1);
}

#[test]
fn connect_replaces_the_wire_into_an_input() {
    let g = GraphData {
        nodes: vec![
            (0, NodeKind::Constant(vec![NodeValue::Byte(1), NodeValue::Byte(2)])),
            (1, NodeKind::Not),
        ],
        wires: vec![(out(0, 0), inp(1, 0))],
    };
    let mut s = snarl_from_graph(&g);
    let h = graph_from_snarl(&s);
    let c = key_of(&h, "CONSTANT");
    let n = key_of(&h, "NOT");
    assert!(connect_typed(&mut s, out(c, 1), inp(n, 0)));
    let h = graph_from_snarl(&s);
    assert_eq!(h.wires, vec![(out(c, 1), inp(n, 0))]);
    let cache = eval_graph(&h, &[]);
    assert_eq!(cache.get(out(n, 0)).unwrap().as_ref().unwrap().short_display(), "0xFD");
}

#[test]
fn connect_refuses_mismatched_types() {
    let g = GraphData {
        nodes: vec![
            (0, NodeKind::Unpack),
            (1, NodeKind::Sink),
            (2, NodeKind::Constant(vec![NodeValue::Byte(7)])),
        ],
        wires: vec![(out(2, 0), inp(1, 0))],
    };
    let mut s = snarl_from_graph(&g);
    let h = graph_from_snarl(&s);
    let u = key_of(&h, "UNPACK");
    let k = key_of(&h, "SINK");
    let c = key_of(&h, "CONSTANT");
    assert_eq!(h.nodes.iter().find(|e| e.0 == u).unwrap().1.output_wire_type(0), WireType::Bit);
    assert!(!connect_typed(&mut s, out(u, 3), inp(k, 0)));
    let after = graph_from_snarl(&s);
    assert_eq!(after.wires, vec![(out(c, 0), inp(k, 0))]);
    assert_eq!(after.nodes.len(), 3);
}

#[test]
fn connect_bits_into_pack() {
    let g = GraphData {
        nodes: vec![(0, NodeKind::Unpack), (1, NodeKind::Pack)],
        wires: vec![],
    };
    let mut s = snarl_from_graph(&g);
    let h = graph_from_snarl(&s);
    let u = key_of(&h, "UNPACK");
    let p = key_of(&h, "PACK");
    assert!(connect_typed(&mut s, out(u, 2), inp(p, 5)));
    assert!(!connect_typed(&mut s, out(p, 0), inp(p, 4)));
    assert!(connect_typed(&mut s, out(p, 0), inp(u, 0)));
    assert_eq!(sorted_wires(&graph_from_snarl(&s)).len(), 2);
}

#[test]
fn removing_calls_from_an_editor_graph() {
    let call = |d: usize| NodeKind::FunctionCall {
        def_index: d,
        name: format!("f{d}"),
        in_types: vec![WireType::Byte],
        out_types: vec![WireType::Byte],
    };
    let g = GraphData {
        nodes: vec![(0, call(0)), (1, call(1)), (2, call(2)), (3, NodeKind::Sink)],
        wires: vec![(out(0, 0), inp(1, 0)), (out(1, 0), inp(2, 0)), (out(2, 0), inp(3, 0))],
    };
    let mut s = snarl_from_graph(&g);
    remove_function_calls(&mut s, 1);
    let h = graph_from_snarl(&s);
    let mut got = titles(&h);
    got.sort();
    assert_eq!(got, vec!["SINK", "f0", "f2"]);
    let later = h.nodes.iter().find(|e| e.1.node_title() == "f2").unwrap();
    assert!(matches!(later.1, NodeKind::FunctionCall { def_index: 1, .. }));
    let earlier = h.nodes.iter().find(|e| e.1.node_title() == "f0").unwrap();
    assert!(matches!(earlier.1, NodeKind::FunctionCall { def_index: 0, .. }));
    let k = key_of(&h, "SINK");
    assert_eq!(h.wires, vec![(out(later.0, 0), inp(k, 0))]);
}

#[test]
fn constant_outputs_grow_and_shrink() {
    let mut k = NodeKind::Constant(vec![]);
    remove_constant_output(&mut k);
    assert_eq!(k.output_count(), 0);
    add_constant_output(&mut k, NodeValue::Bit(false));
    add_constant_output(&mut k, NodeValue::Word(0));
    assert_eq!(k.output_count(), 2);
    assert_eq!(k.output_wire_type(1), WireType::Word);
    remove_constant_output(&mut k);
    assert_eq!(k.output_count(), 1);
    assert_eq!(k.output_wire_type(0), WireType::Bit);
    let mut other = NodeKind::Add;
    add_constant_output(&mut other, NodeValue::Byte(1));
    assert!(matches!(other, NodeKind::Add));
}

#[test]
fn concat_inputs_grow_and_keep_at_least_one() {
    let mut k = NodeKind::Concat { count: 2 };
    add_concat_input(&mut k);
    assert_eq!(k.input_count(), 3);
    remove_concat_input(&mut k);
    remove_concat_input(&mut k);
    assert_eq!(k.input_count(), 1);
    remove_concat_input(&mut k);
    assert_eq!(k.input_count(), 1);
    assert_eq!(k.node_title(), "CONCAT (1)");
    let mut other = NodeKind::Sink;
    add_concat_input(&mut other);
    remove_concat_input(&mut other);
    assert!(matches!(other, NodeKind::Sink));
}

fn offered(wt: Option<WireType>, in_subgraph: bool) -> Vec<String> {
    dropped_wire_offer(wt, in_subgraph).iter().map(|k| k.node_title()).collect()
}

#[test]
fn nodes_offered_for_a_dropped_wire() {
    assert_eq!(offered(Some(WireType::Bit), false), vec!["AND", "OR", "NOT", "PACK"]);
    assert_eq!(offered(Some(WireType::Word), true), vec!["ADD", "SUB", "AND", "SLICE"]);
    assert_eq!(offered(Some(WireType::Byte), false), vec!["AND", "CONCAT (2)", "UNPACK", "SINK"]);
    assert_eq!(offered(Some(WireType::Byte), true), vec!["AND", "CONCAT (2)", "UNPACK"]);
    assert_eq!(offered(None, false), vec!["AND", "CONCAT (2)", "UNPACK", "SINK"]);
}

#[test]
fn connecting_keeps_one_source_per_input() {
    let g = GraphData {
        nodes: vec![
            (0, NodeKind::Constant(vec![NodeValue::Byte(1), NodeValue::Byte(2), NodeValue::Byte(3)])),
            (1, NodeKind::Concat { count: 2 }),
        ],
        wires: vec![],
    };
    let mut s = snarl_from_graph(&g);
    let h = graph_from_snarl(&s);
    let c = key_of(&h, "CONSTANT");
    let k = key_of(&h, "CONCAT (2)");
    for o in 0..3 {
        assert!(connect_typed(&mut s, out(c, o), inp(k, 0)));
    }
    assert!(connect_typed(&mut s, out(c, 0), inp(k, 1)));
    let after = graph_from_snarl(&s);
    assert_eq!(sorted_wires(&after), vec![(out(c, 0), inp(k, 1)), (out(c, 2), inp(k, 0))]);
}

#[test]
fn round_trip_keeps_node_order_and_ids() {
    let g = GraphData {
        nodes: vec![
            (0, NodeKind::Source { filename: "b".to_string() }),
            (1, NodeKind::Source { filename: "a".to_string() }),
            (2, NodeKind::Add),
            (3, NodeKind::Sink),
        ],
        wires: vec![(out(0, 0), inp(2, 0)), (out(1, 0), inp(2, 1)), (out(2, 0), inp(3, 0))],
    };
    let h = graph_from_snarl(&snarl_from_graph(&g));
    let ids: Vec<usize> = h.nodes.iter().map(|e| e.0).collect();
    assert_eq!(ids, vec![0, 1, 2, 3]);
    assert!(matches!(&h.nodes[0].1, NodeKind::Source { filename } if filename == "b"));
    assert!(matches!(&h.nodes[1].1, NodeKind::Source { filename } if filename == "a"));
    assert_eq!(sorted_wires(&h), sorted_wires(&g));
}

#[test]
fn round_trip_numbers_nodes_in_order() {
    let g = GraphData {
        nodes: vec![(7, NodeKind::Not), (3, NodeKind::Sink)],
        wires: vec![(out(7, 0), inp(3, 0))],
    };
    let h = graph_from_snarl(&snarl_from_graph(&g));
    assert_eq!(titles(&h), vec!["NOT", "SINK"]);
    assert_eq!(h.nodes[0].0, 0);
    assert_eq!(h.nodes[1].0, 1);
    assert_eq!(h.wires, vec![(out(0, 0), inp(1, 0))]);
}

fn menu(section: MenuSection, in_subgraph: bool) -> Vec<String> {
    graph_menu_offer(section, in_subgraph).iter().map(|k| k.node_title()).collect()
}

#[test]
fn add_node_menu_sections() {
    assert_eq!(menu(MenuSection::Values, false), vec!["CONSTANT"]);
    assert_eq!(
        menu(MenuSection::Bitwise, true),
        vec!["AND", "OR", "XOR", "NOT", "NAND", "NOR", "SHL", "SHR"]
    );
    assert_eq!(menu(MenuSection::Arithmetic, false), vec!["ADD", "SUB", "MUL", "DIV", "MOD"]);
    assert_eq!(
        menu(MenuSection::ByteManipulation, false),
        vec!["CONCAT (2)", "SLICE", "PACK", "UNPACK"]
    );
    assert_eq!(menu(MenuSection::Terminals, false), vec!["SINK"]);
    assert!(menu(MenuSection::Terminals, true).is_empty());
}

fn call_of(d: usize) -> NodeKind {
    NodeKind::FunctionCall {
        def_index: d,
        name: format!("f{d}"),
        in_types: vec![WireType::Byte],
        out_types: vec![WireType::Byte],
    }
}

#[test]
fn deleting_a_function_everywhere() {
    let root = GraphData {
        nodes: vec![(0, call_of(0)), (1, call_of(1)), (2, call_of(2)), (3, NodeKind::Sink)],
        wires: vec![(out(2, 0), inp(3, 0)), (out(1, 0), inp(2, 0))],
    };
    let mut snarl = snarl_from_graph(&root);
    let mut f2 = FunctionDef::new("f2");
    f2.graph.nodes.push((2, call_of(1)));
    f2.graph.nodes.push((3, call_of(0)));
    let mut functions = vec![FunctionDef::new("f0"), FunctionDef::new("f1"), f2];
    let mut editing = Some((2, snarl_from_graph(&functions[2].graph)));
    delete_function_everywhere(&mut snarl, &mut editing, &mut functions, 1);
    let names: Vec<&str> = functions.iter().map(|f| f.name.as_str()).collect();
    assert_eq!(names, vec!["f0", "f2"]);
    let h = graph_from_snarl(&snarl);
    let mut got = titles(&h);
    got.sort();
    assert_eq!(got, vec!["SINK", "f0", "f2"]);
    assert!(h
        .nodes
        .iter()
        .any(|e| matches!(&e.1, NodeKind::FunctionCall { def_index: 1, name, .. } if name == "f2")));
    assert_eq!(h.wires.len(), 1);
    let (idx, open) = editing.expect("the open subgraph stays open");
    assert_eq!(idx, 1);
    let e = graph_from_snarl(&open);
    assert_eq!(titles(&e), vec!["SOURCE", "SINK", "f0"]);
}

#[test]
fn deleting_the_open_function_closes_it() {
    let mut snarl = snarl_from_graph(&starter_graph());
    let mut functions = vec![FunctionDef::new("a"), FunctionDef::new("b")];
    let mut editing = Some((0, snarl_from_graph(&functions[0].graph)));
    delete_function_everywhere(&mut snarl, &mut editing, &mut functions, 0);
    assert!(editing.is_none());
    assert_eq!(functions.len(), 1);
    assert_eq!(functions[0].name, "b");
}
