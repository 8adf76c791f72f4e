use vstd::prelude::*;

use crate::cache::CacheModel;
use crate::graph::{node_pos, source_pos, FunctionDef, GraphData, InPinId, NodeId, OutPinId};
use crate::model::{
    compute_model, concat_model, eval_graph_model, eval_nodes_model, eval_output_model,
    eval_outputs_model, evaluates, get_in_model, inject_model, max_fuel, pack_model,
};
use crate::types::{NodeKind, ValueModel};

verus! {

// ----- pins on a cycle have no value -----

/// A node whose value needs a value at every one of its inputs: every kind with inputs
/// but a call (a call's value may ignore an argument).
pub open spec fn strict(k: NodeKind) -> bool {
    !(k is Source || k is Sink || k is Constant || k is FunctionCall)
}

/// The first wire into input `i` of node `n` comes from a pin of `cyc`.
pub open spec fn fed_from(g: GraphData, cyc: Set<OutPinId>, n: NodeId, i: usize) -> bool {
    source_pos(g.wires@, InPinId { node: n, input: i }) matches Some(w) && cyc.contains(
        g.wires@[w].0,
    )
}

/// Every pin of `cyc` belongs to a strict node that reads, at one of its inputs, a pin of
/// `cyc` through the first wire into that input: `cyc` holds the pins of one or more cycles
/// of first wires (and of whatever such cycles feed alone).
pub open spec fn closed_cycle(g: GraphData, cyc: Set<OutPinId>) -> bool {
    forall|c: OutPinId|
        #[trigger] cyc.contains(c) ==> (node_pos(g.nodes@, c.node.0) matches Some(a) && strict(
            g.nodes@[a].1,
        ) && exists|i: usize| i < g.nodes@[a].1.input_count() && #[trigger] fed_from(g, cyc, c.node, i))
}

/// No pin of `cyc` has a value in the table.
pub open spec fn none_on(cyc: Set<OutPinId>, c: CacheModel) -> bool {
    forall|p: OutPinId| #[trigger] c.contains_key(p) && cyc.contains(p) ==> c[p] is None
}

proof fn lemma_cy_out(
    f: nat,
    g: GraphData,
    fns: Seq<FunctionDef>,
    cyc: Set<OutPinId>,
    cache: CacheModel,
    pin: OutPinId,
)
    requires
        closed_cycle(g, cyc),
        none_on(cyc, cache),
    ensures
        eval_output_model(f, g, fns, cache, pin) matches Some((v, c)) ==> none_on(cyc, c) && (
        cyc.contains(pin) ==> v is None),
    decreases f, 0nat, 0nat,
{
    if !cache.contains_key(pin) && f > 0 {
        lemma_cy_compute((f - 1) as nat, g, fns, cyc, cache.insert(pin, None), pin);
    }
}

proof fn lemma_cy_in(
    f: nat,
    g: GraphData,
    fns: Seq<FunctionDef>,
    cyc: Set<OutPinId>,
    cache: CacheModel,
    n: NodeId,
    i: usize,
)
    requires
        closed_cycle(g, cyc),
        none_on(cyc, cache),
    ensures
        get_in_model(f, g, fns, cache, n, i) matches Some((v, c)) ==> none_on(cyc, c) && (fed_from(
            g,
            cyc,
            n,
            i,
        ) ==> v is None),
    decreases f, 1nat, 0nat,
{
    match source_pos(g.wires@, InPinId { node: n, input: i }) {
        Some(k) => lemma_cy_out(f, g, fns, cyc, cache, g.wires@[k].0),
        None => {},
    }
}

proof fn lemma_cy_concat(
    f: nat,
    g: GraphData,
    fns: Seq<FunctionDef>,
    cyc: Set<OutPinId>,
    cache: CacheModel,
    n: NodeId,
    count: usize,
    i: usize,
    acc: Seq<u8>,
    j: usize,
)
    requires
        closed_cycle(g, cyc),
        none_on(cyc, cache),
    ensures
        concat_model(f, g, fns, cache, n, count, i, acc) matches Some((v, c)) ==> none_on(cyc, c) && (
        i <= j < count && fed_from(g, cyc, n, j) ==> v is None),
    decreases f, 2nat, count - i,
{
    if i < count {
        lemma_cy_in(f, g, fns, cyc, cache, n, i);
        match get_in_model(f, g, fns, cache, n, i) {
            Some((Some(ValueModel::Byte(b)), c1)) => lemma_cy_concat(
                f,
                g,
                fns,
                cyc,
                c1,
                n,
                count,
                (i + 1) as usize,
                acc.push(b),
                j,
            ),
            _ => {},
        }
    }
}

proof fn lemma_cy_pack(
    f: nat,
    g: GraphData,
    fns: Seq<FunctionDef>,
    cyc: Set<OutPinId>,
    cache: CacheModel,
    n: NodeId,
    i: u8,
    byte: u8,
    j: usize,
)
    requires
        closed_cycle(g, cyc),
        none_on(cyc, cache),
    ensures
        pack_model(f, g, fns, cache, n, i, byte) matches Some((v, c)) ==> none_on(cyc, c) && (i <= j
            < 8 && fed_from(g, cyc, n, j) ==> v is None),
    decreases f, 2nat, 8 - i,
{
    if i < 8 {
        lemma_cy_in(f, g, fns, cyc, cache, n, i as usize);
        match get_in_model(f, g, fns, cache, n, i as usize) {
            Some((Some(ValueModel::Bit(bit)), c1)) => lemma_cy_pack(
                f,
                g,
                fns,
                cyc,
                c1,
                n,
                (i + 1) as u8,
                if bit {
                    byte | (1u8 << i)
                } else {
                    byte
                },
                j,
            ),
            _ => {},
        }
    }
}

proof fn lemma_cy_inject(
    f: nat,
    g: GraphData,
    fns: Seq<FunctionDef>,
    cyc: Set<OutPinId>,
    cache: CacheModel,
    n: NodeId,
    sub: GraphData,
    k: nat,
    arg: nat,
    sub_cache: CacheModel,
)
    requires
        closed_cycle(g, cyc),
        none_on(cyc, cache),
    ensures
        inject_model(f, g, fns, cache, n, sub, k, arg, sub_cache) matches Some((pc, _)) ==> none_on(
            cyc,
            pc,
        ),
    decreases f, 2nat, sub.nodes@.len() - k,
{
    if k < sub.nodes@.len() {
        if sub.nodes@[k as int].1 is Source {
            lemma_cy_in(f, g, fns, cyc, cache, n, arg as usize);
            match get_in_model(f, g, fns, cache, n, arg as usize) {
                Some((v, c1)) => lemma_cy_inject(
                    f,
                    g,
                    fns,
                    cyc,
                    c1,
                    n,
                    sub,
                    k + 1,
                    arg + 1,
                    sub_cache.insert(OutPinId { node: NodeId(sub.nodes@[k as int].0), output: 0 }, v),
                ),
                None => {},
            }
        } else {
            lemma_cy_inject(f, g, fns, cyc, cache, n, sub, k + 1, arg, sub_cache);
        }
    }
}

proof fn lemma_cy_compute(
    f: nat,
    g: GraphData,
    fns: Seq<FunctionDef>,
    cyc: Set<OutPinId>,
    cache: CacheModel,
    pin: OutPinId,
)
    requires
        closed_cycle(g, cyc),
        none_on(cyc, cache),
    ensures
        compute_model(f, g, fns, cache, pin) matches Some((r, c)) ==> none_on(cyc, c) && (cyc.contains(
            pin,
        ) ==> r is None),
    decreases f, 3nat, 0nat,
{
    match node_pos(g.nodes@, pin.node.0) {
        None => {},
        Some(p) => {
            let kind = g.nodes@[p].1;
            let n = pin.node;
            let j: usize = if cyc.contains(pin) {
                choose|i: usize| i < kind.input_count() && #[trigger] fed_from(g, cyc, n, i)
            } else {
                0
            };
            match kind {
                NodeKind::And | NodeKind::Or | NodeKind::Xor | NodeKind::Nand | NodeKind::Nor
                | NodeKind::Add | NodeKind::Sub | NodeKind::Mul | NodeKind::Div | NodeKind::Mod
                | NodeKind::Slice => {
                    lemma_cy_in(f, g, fns, cyc, cache, n, 0);
                    match get_in_model(f, g, fns, cache, n, 0) {
                        Some((_, c1)) => lemma_cy_in(f, g, fns, cyc, c1, n, 1),
                        None => {},
                    }
                },
                NodeKind::Not | NodeKind::Unpack => lemma_cy_in(f, g, fns, cyc, cache, n, 0),
                NodeKind::Shl | NodeKind::Shr => {
                    lemma_cy_in(f, g, fns, cyc, cache, n, 1);
                    match get_in_model(f, g, fns, cache, n, 1) {
                        Some((_, c1)) => lemma_cy_in(f, g, fns, cyc, c1, n, 0),
                        None => {},
                    }
                },
                NodeKind::Concat { count } => lemma_cy_concat(
                    f,
                    g,
                    fns,
                    cyc,
                    cache,
                    n,
                    count as usize,
                    0,
                    Seq::empty(),
                    j,
                ),
                NodeKind::Pack => lemma_cy_pack(f, g, fns, cyc, cache, n, 0, 0, j),
                NodeKind::FunctionCall { def_index, .. } => if def_index < fns.len() {
                    lemma_cy_inject(
                        f,
                        g,
                        fns,
                        cyc,
                        cache,
                        n,
                        fns[def_index as int].graph,
                        0,
                        0,
                        Map::empty(),
                    );
                },
                _ => {},
            }
        },
    }
}

proof fn lemma_cy_outputs(
    f: nat,
    g: GraphData,
    fns: Seq<FunctionDef>,
    cyc: Set<OutPinId>,
    cache: CacheModel,
    id: usize,
    out: usize,
    count: usize,
)
    requires
        closed_cycle(g, cyc),
        none_on(cyc, cache),
    ensures
        eval_outputs_model(f, g, fns, cache, id, out, count) matches Some(c) ==> none_on(cyc, c),
    decreases count - out,
{
    if out < count {
        let pin = OutPinId { node: NodeId(id), output: out };
        lemma_cy_out(f, g, fns, cyc, cache, pin);
        match eval_output_model(f, g, fns, cache, pin) {
            Some((_, c)) => lemma_cy_outputs(f, g, fns, cyc, c, id, (out + 1) as usize, count),
            None => {},
        }
    }
}

proof fn lemma_cy_nodes(
    f: nat,
    g: GraphData,
    fns: Seq<FunctionDef>,
    cyc: Set<OutPinId>,
    cache: CacheModel,
    k: int,
)
    requires
        closed_cycle(g, cyc),
        none_on(cyc, cache),
    ensures
        eval_nodes_model(f, g, fns, cache, k) matches Some(c) ==> none_on(cyc, c),
    decreases g.nodes@.len() - k,
{
    if 0 <= k < g.nodes@.len() {
        let count = g.nodes@[k].1.output_count();
        lemma_cy_outputs(f, g, fns, cyc, cache, g.nodes@[k].0, 0, count);
        match eval_outputs_model(f, g, fns, cache, g.nodes@[k].0, 0, count) {
            Some(c1) => lemma_cy_nodes(f, g, fns, cyc, c1, k + 1),
            None => {},
        }
    }
}

/// Cycles give no value: when every pin of `cyc` belongs to a node other than a call or a
/// constant that reads, at one of its inputs, a pin of `cyc` through the first wire into
/// that input, no pin of `cyc` has a value in the table that `eval_graph` returns. The
/// evaluator marks a pin "no value" while computing it, so a cycle reads that mark.
pub proof fn law_cycles_give_no_value(g: GraphData, fns: Seq<FunctionDef>, cyc: Set<OutPinId>, p: OutPinId)
    requires
        closed_cycle(g, cyc),
        evaluates(g, fns),
        cyc.contains(p),
        eval_graph_model(max_fuel(), g, fns).unwrap().contains_key(p),
    ensures
        eval_graph_model(max_fuel(), g, fns).unwrap()[p] is None,
{
    lemma_cy_nodes(max_fuel(), g, fns, cyc, Map::empty(), 0);
}

} // verus!
