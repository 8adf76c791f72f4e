use vstd::prelude::*;

use crate::cache::CacheModel;
use crate::graph::{
    terminal_count, lemma_node_pos_from, lemma_source_pos_from, node_pos, source_pos, FunctionDef, GraphData,
    InPinId, NodeId, OutPinId,
};
use crate::model::{
    compute_model, concat_model, eval_graph_model, eval_nodes_model, eval_output_model,
    eval_outputs_model, evaluates, get_in_model, inject_model, max_fuel, pack_model, sink_model,
};
use crate::types::{in_type_of, out_type_of, value_wire_type, KindModel, NodeKind, ValueModel, WireType};

verus! {

// ----- well-typed graphs compute values of their pins' types -----

/// `v`, at output pin `p`, has the type the pin produces (no value always fits).
pub open spec fn typed_value(g: GraphData, p: OutPinId, v: Option<ValueModel>) -> bool {
    match v {
        None => true,
        Some(x) => match node_pos(g.nodes@, p.node.0) {
            Some(a) => value_wire_type(x) == out_type_of(g.nodes@[a].1@, p.output),
            None => false,
        },
    }
}

/// Every entry of the table has the type of its pin.
pub open spec fn typed_cache(g: GraphData, c: CacheModel) -> bool {
    forall|p: OutPinId| #[trigger] c.contains_key(p) ==> typed_value(g, p, c[p])
}

/// `v`, arriving at input `i` of node `n`, has the type that input expects.
pub open spec fn typed_input(g: GraphData, n: NodeId, i: usize, v: Option<ValueModel>) -> bool {
    match v {
        None => true,
        Some(x) => match node_pos(g.nodes@, n.0) {
            Some(b) => value_wire_type(x) == in_type_of(g.nodes@[b].1@, i),
            None => true,
        },
    }
}

/// Every wire between two nodes of `g` joins an output to an input of the same type.
pub open spec fn wires_typed(g: GraphData) -> bool {
    forall|k: int|
        0 <= k < g.wires@.len() ==> match (
            node_pos(g.nodes@, (#[trigger] g.wires@[k]).0.node.0),
            node_pos(g.nodes@, g.wires@[k].1.node.0),
        ) {
            (Some(a), Some(b)) => out_type_of(g.nodes@[a].1@, g.wires@[k].0.output) == in_type_of(
                g.nodes@[b].1@,
                g.wires@[k].1.input,
            ),
            _ => true,
        }
}

/// No two nodes of `g` share an id.
pub open spec fn ids_distinct(g: GraphData) -> bool {
    forall|a: int, b: int| 0 <= a < b < g.nodes@.len() ==> g.nodes@[a].0 != g.nodes@[b].0
}

/// Every call in `g` of a function of `fns` has the ports of a call of it, as
/// `FunctionDef::call_types` gives them.
pub open spec fn calls_match(g: GraphData, fns: Seq<FunctionDef>) -> bool {
    forall|k: int|
        0 <= k < g.nodes@.len() ==> match (#[trigger] g.nodes@[k]).1@ {
            KindModel::FunctionCall { def_index, in_types, out_types, .. } => def_index < fns.len()
                ==> in_types == Seq::new(
                terminal_count(fns[def_index as int].graph.nodes@, false),
                |j: int| WireType::Byte,
            ) && out_types == Seq::new(
                terminal_count(fns[def_index as int].graph.nodes@, true),
                |j: int| WireType::Byte,
            ),
            _ => true,
        }
}

/// Every function's subgraph has distinct node ids, typed wires and matching calls.
pub open spec fn functions_typed(fns: Seq<FunctionDef>) -> bool {
    forall|j: int|
        0 <= j < fns.len() ==> wires_typed(#[trigger] fns[j].graph) && ids_distinct(fns[j].graph)
            && calls_match(fns[j].graph, fns)
}

/// `g` has typed wires and matching calls, and so do the functions' subgraphs, whose node
/// ids are also distinct.
pub open spec fn program_typed(g: GraphData, fns: Seq<FunctionDef>) -> bool {
    wires_typed(g) && calls_match(g, fns) && functions_typed(fns)
}

proof fn lemma_distinct_pos(g: GraphData, k: int)
    requires
        ids_distinct(g),
        0 <= k < g.nodes@.len(),
    ensures
        node_pos(g.nodes@, g.nodes@[k].0) == Some(k),
{
    lemma_node_pos_from(g.nodes@, g.nodes@[k].0, 0);
}

proof fn lemma_ty_out(fuel: nat, g: GraphData, fns: Seq<FunctionDef>, cache: CacheModel, pin: OutPinId)
    requires
        program_typed(g, fns),
        typed_cache(g, cache),
    ensures
        eval_output_model(fuel, g, fns, cache, pin) matches Some((v, c)) ==> typed_value(g, pin, v)
            && typed_cache(g, c),
    decreases fuel, 0nat, 0nat,
{
    if !cache.contains_key(pin) && fuel > 0 {
        lemma_ty_compute((fuel - 1) as nat, g, fns, cache.insert(pin, None), pin);
    }
}

proof fn lemma_ty_in(
    fuel: nat,
    g: GraphData,
    fns: Seq<FunctionDef>,
    cache: CacheModel,
    n: NodeId,
    i: usize,
)
    requires
        program_typed(g, fns),
        typed_cache(g, cache),
    ensures
        get_in_model(fuel, g, fns, cache, n, i) matches Some((v, c)) ==> typed_input(g, n, i, v)
            && typed_cache(g, c),
    decreases fuel, 1nat, 0nat,
{
    let pin = InPinId { node: n, input: i };
    match source_pos(g.wires@, pin) {
        Some(k) => {
            lemma_source_pos_from(g.wires@, pin, 0);
            lemma_ty_out(fuel, g, fns, cache, g.wires@[k].0);
            assert(g.wires@[k].1 == pin);
        },
        None => {},
    }
}

proof fn lemma_ty_concat(
    fuel: nat,
    g: GraphData,
    fns: Seq<FunctionDef>,
    cache: CacheModel,
    n: NodeId,
    count: usize,
    i: usize,
    acc: Seq<u8>,
)
    requires
        program_typed(g, fns),
        typed_cache(g, cache),
    ensures
        concat_model(fuel, g, fns, cache, n, count, i, acc) matches Some((v, c)) ==> typed_cache(g, c)
            && (v matches Some(x) ==> x is Bytes),
    decreases fuel, 2nat, count - i,
{
    if i < count {
        lemma_ty_in(fuel, g, fns, cache, n, i);
        match get_in_model(fuel, g, fns, cache, n, i) {
            Some((Some(ValueModel::Byte(b)), c1)) => lemma_ty_concat(
                fuel,
                g,
                fns,
                c1,
                n,
                count,
                (i + 1) as usize,
                acc.push(b),
            ),
            _ => {},
        }
    }
}

proof fn lemma_ty_pack(
    fuel: nat,
    g: GraphData,
    fns: Seq<FunctionDef>,
    cache: CacheModel,
    n: NodeId,
    i: u8,
    byte: u8,
)
    requires
        program_typed(g, fns),
        typed_cache(g, cache),
    ensures
        pack_model(fuel, g, fns, cache, n, i, byte) matches Some((v, c)) ==> typed_cache(g, c)
            && (v matches Some(x) ==> x is Byte),
    decreases fuel, 2nat, 8 - i,
{
    if i < 8 {
        lemma_ty_in(fuel, g, fns, cache, n, i as usize);
        match get_in_model(fuel, g, fns, cache, n, i as usize) {
            Some((Some(ValueModel::Bit(bit)), c1)) => lemma_ty_pack(
                fuel,
                g,
                fns,
                c1,
                n,
                (i + 1) as u8,
                if bit {
                    byte | (1u8 << i)
                } else {
                    byte
                },
            ),
            _ => {},
        }
    }
}

proof fn lemma_ty_inject(
    fuel: nat,
    g: GraphData,
    fns: Seq<FunctionDef>,
    cache: CacheModel,
    n: NodeId,
    sub: GraphData,
    k: nat,
    arg: nat,
    sub_cache: CacheModel,
)
    requires
        program_typed(g, fns),
        ids_distinct(sub),
        typed_cache(g, cache),
        typed_cache(sub, sub_cache),
        node_pos(g.nodes@, n.0) matches Some(p) && forall|i: usize|
            #[trigger] in_type_of(g.nodes@[p].1@, i) == WireType::Byte,
    ensures
        inject_model(fuel, g, fns, cache, n, sub, k, arg, sub_cache) matches Some((pc, sc))
            ==> typed_cache(g, pc) && typed_cache(sub, sc),
    decreases fuel, 2nat, sub.nodes@.len() - k,
{
    if k < sub.nodes@.len() {
        if sub.nodes@[k as int].1 is Source {
            lemma_ty_in(fuel, g, fns, cache, n, arg as usize);
            match get_in_model(fuel, g, fns, cache, n, arg as usize) {
                Some((v, c1)) => {
                    let p = node_pos(g.nodes@, n.0).unwrap();
                    assert(in_type_of(g.nodes@[p].1@, arg as usize) == WireType::Byte);
                    lemma_distinct_pos(sub, k as int);
                    let q = OutPinId { node: NodeId(sub.nodes@[k as int].0), output: 0 };
                    assert(typed_value(sub, q, v));
                    lemma_ty_inject(fuel, g, fns, c1, n, sub, k + 1, arg + 1, sub_cache.insert(q, v));
                },
                None => {},
            }
        } else {
            lemma_ty_inject(fuel, g, fns, cache, n, sub, k + 1, arg, sub_cache);
        }
    }
}

proof fn lemma_ty_sink(fuel: nat, sub: GraphData, fns: Seq<FunctionDef>, sc: CacheModel, o: usize, k: nat)
    requires
        program_typed(sub, fns),
        ids_distinct(sub),
        typed_cache(sub, sc),
    ensures
        sink_model(fuel, sub, fns, sc, o, k) matches Some(Some(x)) ==> value_wire_type(x) == WireType::Byte,
    decreases fuel, 2nat, sub.nodes@.len() - k,
{
    if k < sub.nodes@.len() {
        if sub.nodes@[k as int].1 is Sink {
            let pin = InPinId { node: NodeId(sub.nodes@[k as int].0), input: o };
            match source_pos(sub.wires@, pin) {
                Some(w) => {
                    lemma_source_pos_from(sub.wires@, pin, 0);
                    lemma_ty_out(fuel, sub, fns, sc, sub.wires@[w].0);
                    lemma_distinct_pos(sub, k as int);
                    assert(sub.wires@[w].1 == pin);
                },
                None => lemma_ty_sink(fuel, sub, fns, sc, o, k + 1),
            }
        } else {
            lemma_ty_sink(fuel, sub, fns, sc, o, k + 1);
        }
    }
}

proof fn lemma_ty_compute(fuel: nat, g: GraphData, fns: Seq<FunctionDef>, cache: CacheModel, pin: OutPinId)
    requires
        program_typed(g, fns),
        typed_cache(g, cache),
    ensures
        compute_model(fuel, g, fns, cache, pin) matches Some((r, c)) ==> typed_value(g, pin, r)
            && typed_cache(g, c),
    decreases fuel, 3nat, 0nat,
{
    lemma_node_pos_from(g.nodes@, pin.node.0, 0);
    match node_pos(g.nodes@, pin.node.0) {
        None => {},
        Some(p) => {
            let kind = g.nodes@[p].1;
            let n = pin.node;
            let o = pin.output;
            match kind {
                NodeKind::Constant(values) => {
                    if o < values.len() {
                        assert(crate::types::values_view(values@)[o as int] == values@[o as int]@);
                    }
                },
                NodeKind::And | NodeKind::Or | NodeKind::Xor | NodeKind::Nand | NodeKind::Nor
                | NodeKind::Add | NodeKind::Sub | NodeKind::Mul | NodeKind::Div | NodeKind::Mod
                | NodeKind::Slice => {
                    lemma_ty_in(fuel, g, fns, cache, n, 0);
                    match get_in_model(fuel, g, fns, cache, n, 0) {
                        Some((_, c1)) => lemma_ty_in(fuel, g, fns, c1, n, 1),
                        None => {},
                    }
                },
                NodeKind::Not | NodeKind::Unpack => {
                    lemma_ty_in(fuel, g, fns, cache, n, 0);
                },
                NodeKind::Shl | NodeKind::Shr => {
                    lemma_ty_in(fuel, g, fns, cache, n, 1);
                    match get_in_model(fuel, g, fns, cache, n, 1) {
                        Some((_, c1)) => lemma_ty_in(fuel, g, fns, c1, n, 0),
                        None => {},
                    }
                },
                NodeKind::Concat { count } => lemma_ty_concat(
                    fuel,
                    g,
                    fns,
                    cache,
                    n,
                    count as usize,
                    0,
                    Seq::empty(),
                ),
                NodeKind::Pack => lemma_ty_pack(fuel, g, fns, cache, n, 0, 0),
                NodeKind::FunctionCall { def_index, .. } => {
                    if def_index < fns.len() {
                        let sub = fns[def_index as int].graph;
                        assert(wires_typed(sub) && ids_distinct(sub) && calls_match(sub, fns));
                        assert(calls_match(g, fns));
                        assert forall|i: usize| #[trigger] in_type_of(g.nodes@[p].1@, i) == WireType::Byte by {}
                        lemma_ty_inject(fuel, g, fns, cache, n, sub, 0, 0, Map::empty());
                        match inject_model(fuel, g, fns, cache, n, sub, 0, 0, Map::empty()) {
                            Some((pc, sc)) => lemma_ty_sink(fuel, sub, fns, sc, o, 0),
                            None => {},
                        }
                    }
                },
                _ => {},
            }
        },
    }
}

proof fn lemma_ty_outputs(
    fuel: nat,
    g: GraphData,
    fns: Seq<FunctionDef>,
    cache: CacheModel,
    id: usize,
    out: usize,
    count: usize,
)
    requires
        program_typed(g, fns),
        typed_cache(g, cache),
    ensures
        eval_outputs_model(fuel, g, fns, cache, id, out, count) matches Some(c) ==> typed_cache(g, c),
    decreases count - out,
{
    if out < count {
        let pin = OutPinId { node: NodeId(id), output: out };
        lemma_ty_out(fuel, g, fns, cache, pin);
        match eval_output_model(fuel, g, fns, cache, pin) {
            Some((_, c)) => lemma_ty_outputs(fuel, g, fns, c, id, (out + 1) as usize, count),
            None => {},
        }
    }
}

proof fn lemma_ty_nodes(fuel: nat, g: GraphData, fns: Seq<FunctionDef>, cache: CacheModel, k: int)
    requires
        program_typed(g, fns),
        typed_cache(g, cache),
    ensures
        eval_nodes_model(fuel, g, fns, cache, k) matches Some(c) ==> typed_cache(g, c),
    decreases g.nodes@.len() - k,
{
    if 0 <= k < g.nodes@.len() {
        let count = g.nodes@[k].1.output_count();
        lemma_ty_outputs(fuel, g, fns, cache, g.nodes@[k].0, 0, count);
        match eval_outputs_model(fuel, g, fns, cache, g.nodes@[k].0, 0, count) {
            Some(c1) => lemma_ty_nodes(fuel, g, fns, c1, k + 1),
            None => {},
        }
    }
}

/// On a typed graph (every wire joining an output to an input of the same type, as
/// `connect_typed` keeps them, and every call with the ports that `FunctionDef::call_types`
/// gives) whose functions' subgraphs are typed too and have distinct node ids, every value
/// that `eval_graph` computes has the type of its pin: a node of `g` has that pin, and the
/// value travels on the wire type the pin produces. The pin types are those of the first
/// node with each id, the one evaluation reads.
pub proof fn law_values_match_pin_types(g: GraphData, fns: Seq<FunctionDef>, p: OutPinId)
    requires
        program_typed(g, fns),
        evaluates(g, fns),
        eval_graph_model(max_fuel(), g, fns).unwrap().contains_key(p),
    ensures
        typed_value(g, p, eval_graph_model(max_fuel(), g, fns).unwrap()[p]),
{
    lemma_ty_nodes(max_fuel(), g, fns, Map::empty(), 0);
}

} // verus!
