use node_compiler::cache::EvalCache;
use node_compiler::eval::{eval_graph, try_eval_graph};
use node_compiler::graph::{FunctionDef, GraphData, InPinId, NodeId, OutPinId};
use node_compiler::types::{NodeKind, NodeValue};

fn out(node: usize, output: usize) -> OutPinId {
    OutPinId { node: NodeId(node), output }
}

fn inp(node: usize, input: usize) -> InPinId {
    InPinId { node: NodeId(node), input }
}

fn wire(from: (usize, usize), to: (usize, usize)) -> (OutPinId, InPinId) {
    (out(from.0, from.1), inp(to.0, to.1))
}

fn constant(values: Vec<NodeValue>) -> NodeKind {
    NodeKind::Constant(values)
}

/// The displayed value of pin `(node, output)` after evaluation, `None` when the pin
/// evaluated to nothing; panics when the pin was never visited.
fn shown(cache: &EvalCache, node: usize, output: usize) -> Option<String> {
    match cache.get(out(node, output)) {
        Some(Some(v)) => Some(v.short_display()),
        Some(None) => None,
        None => panic!("pin was not evaluated"),
    }
}

/// A binary operation on two constants: node 0 holds `a`, node 1 holds `b`, node 2 applies
/// `op` with `a` on input 0 and `b` on input 1.
fn binary(op: NodeKind, a: NodeValue, b: NodeValue) -> Option<String> {
    let g = GraphData {
        nodes: vec![(0, constant(vec![a])), (1, constant(vec![b])), (2, op)],
        wires: vec![wire((0, 0), (2, 0)), wire((1, 0), (2, 1))],
    };
    let cache = eval_graph(&g, &[]);
    shown(&cache, 2, 0)
}

#[test]
fn constant_outputs_are_their_values() {
    let g = GraphData {
        nodes: vec![(4, constant(vec![NodeValue::Bit(true), NodeValue::Byte(0x2A)]))],
        wires: vec![],
    };
    let cache = eval_graph(&g, &[]);
    assert_eq!(shown(&cache, 4, 0), Some("1".to_string()));
    assert_eq!(shown(&cache, 4, 1), Some("0x2A".to_string()));
}

#[test]
fn not_inverts_each_width() {
    for (v, expected) in [
        (NodeValue::Bit(false), "1"),
        (NodeValue::Byte(0x0F), "0xF0"),
        (NodeValue::Word(0), "0xFFFFFFFFFFFFFFFF"),
    ] {
        let g = GraphData {
            nodes: vec![(0, constant(vec![v])), (1, NodeKind::Not)],
            wires: vec![wire((0, 0), (1, 0))],
        };
        let cache = eval_graph(&g, &[]);
        assert_eq!(shown(&cache, 1, 0), Some(expected.to_string()));
    }
}

#[test]
fn bitwise_operations() {
    assert_eq!(binary(NodeKind::And, NodeValue::Bit(true), NodeValue::Bit(false)), Some("0".into()));
    assert_eq!(binary(NodeKind::Or, NodeValue::Byte(0xF0), NodeValue::Byte(0x0F)), Some("0xFF".into()));
    assert_eq!(binary(NodeKind::Xor, NodeValue::Byte(0xFF), NodeValue::Byte(0x0F)), Some("0xF0".into()));
    assert_eq!(binary(NodeKind::Nand, NodeValue::Bit(true), NodeValue::Bit(true)), Some("0".into()));
    assert_eq!(binary(NodeKind::Nor, NodeValue::Byte(0x01), NodeValue::Byte(0x02)), Some("0xFC".into()));
    assert_eq!(
        binary(NodeKind::And, NodeValue::Word(0xFF00), NodeValue::Word(0x0FF0)),
        Some("0x0000000000000F00".into())
    );
}

#[test]
fn mismatched_operands_give_nothing() {
    assert_eq!(binary(NodeKind::And, NodeValue::Byte(1), NodeValue::Bit(true)), None);
    assert_eq!(binary(NodeKind::Add, NodeValue::Bit(true), NodeValue::Bit(true)), None);
    assert_eq!(binary(NodeKind::Or, NodeValue::Bytes(vec![1]), NodeValue::Bytes(vec![1])), None);
}

#[test]
fn arithmetic_wraps() {
    assert_eq!(binary(NodeKind::Add, NodeValue::Byte(200), NodeValue::Byte(100)), Some("0x2C".into()));
    assert_eq!(
        binary(NodeKind::Sub, NodeValue::Word(0), NodeValue::Word(1)),
        Some("0xFFFFFFFFFFFFFFFF".into())
    );
    assert_eq!(binary(NodeKind::Mul, NodeValue::Byte(16), NodeValue::Byte(17)), Some("0x10".into()));
    assert_eq!(binary(NodeKind::Div, NodeValue::Byte(100), NodeValue::Byte(7)), Some("0x0E".into()));
    assert_eq!(binary(NodeKind::Mod, NodeValue::Word(100), NodeValue::Word(7)), Some("0x0000000000000002".into()));
}

#[test]
fn division_by_zero_gives_nothing() {
    assert_eq!(binary(NodeKind::Div, NodeValue::Byte(9), NodeValue::Byte(0)), None);
    assert_eq!(binary(NodeKind::Mod, NodeValue::Word(9), NodeValue::Word(0)), None);
}

#[test]
fn shifts_take_their_amount_modulo_the_width() {
    assert_eq!(binary(NodeKind::Shl, NodeValue::Byte(1), NodeValue::Byte(3)), Some("0x08".into()));
    assert_eq!(binary(NodeKind::Shl, NodeValue::Byte(1), NodeValue::Byte(9)), Some("0x02".into()));
    assert_eq!(binary(NodeKind::Shr, NodeValue::Byte(0x80), NodeValue::Byte(7)), Some("0x01".into()));
    assert_eq!(
        binary(NodeKind::Shr, NodeValue::Word(0x100), NodeValue::Byte(68)),
        Some("0x0000000000000010".into())
    );
    assert_eq!(binary(NodeKind::Shl, NodeValue::Bit(true), NodeValue::Byte(1)), None);
}

#[test]
fn concat_collects_bytes() {
    let g = GraphData {
        nodes: vec![
            (0, constant(vec![NodeValue::Byte(0xDE), NodeValue::Byte(0xAD)])),
            (1, NodeKind::Concat { count: 2 }),
        ],
        wires: vec![wire((0, 0), (1, 0)), wire((0, 1), (1, 1))],
    };
    let cache = eval_graph(&g, &[]);
    assert_eq!(shown(&cache, 1, 0), Some("[DE AD]".to_string()));
}

#[test]
fn concat_with_a_missing_input_gives_nothing() {
    let g = GraphData {
        nodes: vec![(0, constant(vec![NodeValue::Byte(1)])), (1, NodeKind::Concat { count: 2 })],
        wires: vec![wire((0, 0), (1, 0))],
    };
    let cache = eval_graph(&g, &[]);
    assert_eq!(shown(&cache, 1, 0), None);
}

#[test]
fn pack_and_unpack_round_trip() {
    // Bits 0, 2, 5 and 7 set: 0b1010_0101.
    let bits: Vec<NodeValue> = (0..8).map(|i| NodeValue::Bit([0, 2, 5, 7].contains(&i))).collect();
    let mut wires = Vec::new();
    for i in 0..8 {
        wires.push(wire((0, i), (1, i)));
    }
    wires.push(wire((1, 0), (2, 0)));
    let g = GraphData {
        nodes: vec![(0, constant(bits)), (1, NodeKind::Pack), (2, NodeKind::Unpack)],
        wires,
    };
    let cache = eval_graph(&g, &[]);
    assert_eq!(shown(&cache, 1, 0), Some("0xA5".to_string()));
    let unpacked: Vec<String> = (0..8).map(|i| shown(&cache, 2, i).unwrap()).collect();
    assert_eq!(unpacked, vec!["1", "0", "1", "0", "0", "1", "0", "1"]);
}

fn slice(word: u64, offset: u8) -> Option<String> {
    let g = GraphData {
        nodes: vec![(0, constant(vec![NodeValue::Word(word), NodeValue::Byte(offset)])), (1, NodeKind::Slice)],
        wires: vec![wire((0, 0), (1, 0)), wire((0, 1), (1, 1))],
    };
    let cache = eval_graph(&g, &[]);
    shown(&cache, 1, 0)
}

#[test]
fn slice_takes_eight_bits_at_a_bit_offset() {
    assert_eq!(slice(0x1122_3344_5566_7788, 0), Some("0x88".to_string()));
    assert_eq!(slice(0x1122_3344_5566_7788, 8), Some("0x77".to_string()));
    assert_eq!(slice(0x1122_3344_5566_7788, 1), Some("0xC4".to_string()));
    assert_eq!(slice(0x1122_3344_5566_7788, 56), Some("0x11".to_string()));
    assert_eq!(slice(0x1122_3344_5566_7788, 60), Some("0x01".to_string()));
    assert_eq!(slice(u64::MAX, 63), Some("0x01".to_string()));
}

#[test]
fn unconnected_inputs_give_nothing() {
    let g = GraphData { nodes: vec![(0, NodeKind::Add), (1, NodeKind::Sink)], wires: vec![] };
    let cache = eval_graph(&g, &[]);
    assert_eq!(shown(&cache, 0, 0), None);
    assert!(cache.get(out(1, 0)).is_none());
}

#[test]
fn a_cycle_evaluates_to_nothing() {
    let g = GraphData { nodes: vec![(0, NodeKind::Not)], wires: vec![wire((0, 0), (0, 0))] };
    let cache = eval_graph(&g, &[]);
    assert_eq!(shown(&cache, 0, 0), None);
}

#[test]
fn the_first_wire_into_an_input_wins() {
    let g = GraphData {
        nodes: vec![
            (0, constant(vec![NodeValue::Byte(1), NodeValue::Byte(2)])),
            (1, NodeKind::Not),
        ],
        wires: vec![wire((0, 1), (1, 0)), wire((0, 0), (1, 0))],
    };
    let cache = eval_graph(&g, &[]);
    assert_eq!(shown(&cache, 1, 0), Some("0xFD".to_string()));
}

/// A function that inverts its argument: Source (0) -> Not (2) -> Sink (1).
fn inverter() -> FunctionDef {
    let mut f = FunctionDef::new("invert");
    f.graph.nodes.push((2, NodeKind::Not));
    f.graph.wires.push(wire((0, 0), (2, 0)));
    f.graph.wires.push(wire((2, 0), (1, 0)));
    f
}

fn call_of(def_index: usize, f: &FunctionDef) -> NodeKind {
    f.call_node(def_index)
}

#[test]
fn a_function_call_evaluates_its_subgraph() {
    let f = inverter();
    let g = GraphData {
        nodes: vec![(0, constant(vec![NodeValue::Byte(0x0F)])), (1, call_of(0, &f))],
        wires: vec![wire((0, 0), (1, 0))],
    };
    let cache = eval_graph(&g, &[f]);
    assert_eq!(shown(&cache, 1, 0), Some("0xF0".to_string()));
}

#[test]
fn nested_function_calls() {
    let inv = inverter();
    // A function that calls the inverter twice.
    let mut twice = FunctionDef::new("twice");
    twice.graph.nodes.push((2, inv.call_node(0)));
    twice.graph.nodes.push((3, inv.call_node(0)));
    twice.graph.wires.push(wire((0, 0), (2, 0)));
    twice.graph.wires.push(wire((2, 0), (3, 0)));
    twice.graph.wires.push(wire((3, 0), (1, 0)));
    let g = GraphData {
        nodes: vec![(0, constant(vec![NodeValue::Byte(0x3C)])), (1, twice.call_node(1))],
        wires: vec![wire((0, 0), (1, 0))],
    };
    let cache = eval_graph(&g, &[inv, twice]);
    assert_eq!(shown(&cache, 1, 0), Some("0x3C".to_string()));
}

#[test]
fn a_call_of_a_missing_function_gives_nothing() {
    let f = inverter();
    let g = GraphData { nodes: vec![(0, call_of(3, &f))], wires: vec![] };
    let cache = eval_graph(&g, &[f]);
    assert_eq!(shown(&cache, 0, 0), None);
}

#[test]
fn every_output_pin_is_evaluated() {
    let g = GraphData {
        nodes: vec![
            (3, constant(vec![NodeValue::Byte(1), NodeValue::Bit(false), NodeValue::Word(2)])),
            (8, NodeKind::Unpack),
            (5, NodeKind::Sink),
        ],
        wires: vec![wire((3, 0), (8, 0))],
    };
    let cache = eval_graph(&g, &[]);
    for o in 0..3 {
        assert!(cache.get(out(3, o)).is_some());
    }
    for o in 0..8 {
        assert!(cache.get(out(8, o)).is_some());
    }
    assert!(cache.get(out(5, 0)).is_none());
}

#[test]
fn try_eval_refuses_a_wire_from_a_missing_node() {
    let g = GraphData {
        nodes: vec![(0, NodeKind::Not)],
        wires: vec![wire((9, 0), (0, 0))],
    };
    assert!(try_eval_graph(&g, &[]).is_none());
}

#[test]
fn try_eval_refuses_a_slice_past_the_word() {
    let g = GraphData {
        nodes: vec![(0, constant(vec![NodeValue::Word(1), NodeValue::Byte(64)])), (1, NodeKind::Slice)],
        wires: vec![wire((0, 0), (1, 0)), wire((0, 1), (1, 1))],
    };
    assert!(try_eval_graph(&g, &[]).is_none());
}

#[test]
fn try_eval_agrees_with_eval() {
    let g = GraphData {
        nodes: vec![(0, constant(vec![NodeValue::Byte(0x11)])), (1, NodeKind::Not)],
        wires: vec![wire((0, 0), (1, 0))],
    };
    let checked = try_eval_graph(&g, &[]).expect("evaluates");
    assert_eq!(shown(&checked, 1, 0), Some("0xEE".to_string()));
}

#[test]
fn a_cache_read_gives_back_the_last_write() {
    let mut cache = EvalCache::new();
    assert!(cache.get(out(1, 0)).is_none());
    cache.insert(out(1, 0), Some(NodeValue::Byte(5)));
    cache.insert(out(2, 0), None);
    cache.insert(out(1, 0), Some(NodeValue::Word(6)));
    assert!(matches!(cache.get(out(1, 0)), Some(Some(NodeValue::Word(6)))));
    assert!(matches!(cache.get(out(2, 0)), Some(None)));
    assert!(cache.get(out(1, 1)).is_none());
}

#[test]
fn pack_undoes_unpack_for_every_byte() {
    for x in 0..=255u8 {
        let mut wires = vec![wire((0, 0), (1, 0))];
        for i in 0..8 {
            wires.push(wire((1, i), (2, i)));
        }
        let g = GraphData {
            nodes: vec![(0, constant(vec![NodeValue::Byte(x)])), (1, NodeKind::Unpack), (2, NodeKind::Pack)],
            wires,
        };
        let cache = eval_graph(&g, &[]);
        assert!(matches!(cache.get(out(2, 0)), Some(Some(NodeValue::Byte(y))) if *y == x));
    }
}

#[test]
fn memoised_values_equal_fresh_ones() {
    // The Add output is visited first and its inputs are memoised on the way; visiting the
    // nodes with the pin's node first gives the same value.
    let g = GraphData {
        nodes: vec![
            (2, NodeKind::Add),
            (0, constant(vec![NodeValue::Byte(40), NodeValue::Byte(2)])),
            (1, NodeKind::Not),
        ],
        wires: vec![wire((0, 0), (2, 0)), wire((1, 0), (2, 1)), wire((0, 1), (1, 0))],
    };
    let all = eval_graph(&g, &[]);
    for (node, output) in [(2, 0), (0, 0), (0, 1), (1, 0)] {
        let mut nodes: Vec<(usize, NodeKind)> = g.nodes.iter().map(|(id, k)| (*id, k.clone())).collect();
        let first = nodes.iter().position(|e| e.0 == node).unwrap();
        nodes.rotate_left(first);
        let alone = GraphData { nodes, wires: g.wires.clone() };
        let fresh = eval_graph(&alone, &[]);
        assert_eq!(shown(&all, node, output), shown(&fresh, node, output));
    }
    assert_eq!(shown(&all, 2, 0), Some("0x25".to_string()));
}

#[test]
fn computed_values_have_their_pins_types() {
    let g = GraphData {
        nodes: vec![
            (0, constant(vec![NodeValue::Byte(0x5A), NodeValue::Word(0x1234)])),
            (1, NodeKind::Unpack),
            (2, NodeKind::Slice),
            (3, NodeKind::Concat { count: 1 }),
        ],
        wires: vec![wire((0, 0), (1, 0)), wire((0, 1), (2, 0)), wire((0, 0), (2, 1)), wire((0, 0), (3, 0))],
    };
    let cache = eval_graph(&g, &[]);
    for (id, kind) in &g.nodes {
        for o in 0..kind.output_count() {
            if let Some(Some(v)) = cache.get(out(*id, o)) {
                assert_eq!(v.wire_type(), kind.output_wire_type(o));
            }
        }
    }
}

#[test]
fn every_pin_on_a_cycle_has_no_value() {
    // Not -> Add (input 1) -> Not, with a constant on the Add's other input.
    let g = GraphData {
        nodes: vec![(0, constant(vec![NodeValue::Byte(1)])), (1, NodeKind::Add), (2, NodeKind::Not)],
        wires: vec![wire((0, 0), (1, 0)), wire((2, 0), (1, 1)), wire((1, 0), (2, 0))],
    };
    let cache = eval_graph(&g, &[]);
    assert_eq!(shown(&cache, 1, 0), None);
    assert_eq!(shown(&cache, 2, 0), None);
    assert_eq!(shown(&cache, 0, 0), Some("0x01".to_string()));
}

#[test]
fn evaluation_visits_only_output_pins() {
    let g = GraphData {
        nodes: vec![(0, constant(vec![NodeValue::Byte(1)])), (1, NodeKind::Not)],
        wires: vec![wire((0, 0), (1, 0))],
    };
    let cache = eval_graph(&g, &[]);
    assert!(cache.get(out(0, 0)).is_some());
    assert!(cache.get(out(1, 0)).is_some());
    assert!(cache.get(out(0, 1)).is_none());
    assert!(cache.get(out(1, 1)).is_none());
    assert!(cache.get(out(2, 0)).is_none());
}
