use vstd::prelude::*;

use crate::cache::CacheModel;
use crate::graph::{node_pos, source_pos, FunctionDef, GraphData, InPinId, NodeId, OutPinId};
use crate::model::{
    compute_model, concat_model, eval_output_model, get_in_model, inject_model, pack_model,
    sink_model,
};
use crate::types::{NodeKind, ValueModel};

verus! {

// ----- more depth never changes a completed evaluation -----

/// An evaluation of a pin that completes within `f` levels completes alike, with the same
/// value and table, within any `f2 >= f`.
pub proof fn lemma_model_mono_out(
    f: nat,
    f2: nat,
    g: GraphData,
    fns: Seq<FunctionDef>,
    cache: CacheModel,
    pin: OutPinId,
)
    requires
        f <= f2,
        eval_output_model(f, g, fns, cache, pin) is Some,
    ensures
        eval_output_model(f2, g, fns, cache, pin) == eval_output_model(f, g, fns, cache, pin),
    decreases f, 0nat, 0nat,
{
    if !cache.contains_key(pin) {
        lemma_model_mono_compute((f - 1) as nat, (f2 - 1) as nat, g, fns, cache.insert(pin, None), pin);
    }
}

proof fn lemma_model_mono_in(
    f: nat,
    f2: nat,
    g: GraphData,
    fns: Seq<FunctionDef>,
    cache: CacheModel,
    n: NodeId,
    i: usize,
)
    requires
        f <= f2,
        get_in_model(f, g, fns, cache, n, i) is Some,
    ensures
        get_in_model(f2, g, fns, cache, n, i) == get_in_model(f, g, fns, cache, n, i),
    decreases f, 1nat, 0nat,
{
    match source_pos(g.wires@, InPinId { node: n, input: i }) {
        Some(k) => lemma_model_mono_out(f, f2, g, fns, cache, g.wires@[k].0),
        None => {},
    }
}

proof fn lemma_model_mono_two(
    f: nat,
    f2: nat,
    g: GraphData,
    fns: Seq<FunctionDef>,
    cache: CacheModel,
    n: NodeId,
    first: usize,
    second: usize,
)
    requires
        f <= f2,
    ensures
        get_in_model(f, g, fns, cache, n, first) is Some ==> get_in_model(f2, g, fns, cache, n, first)
            == get_in_model(f, g, fns, cache, n, first),
        get_in_model(f, g, fns, cache, n, first) matches Some((_, c1)) ==> (get_in_model(
            f,
            g,
            fns,
            c1,
            n,
            second,
        ) is Some ==> get_in_model(f2, g, fns, c1, n, second) == get_in_model(f, g, fns, c1, n, second)),
    decreases f, 2nat, 0nat,
{
    if get_in_model(f, g, fns, cache, n, first) is Some {
        lemma_model_mono_in(f, f2, g, fns, cache, n, first);
        let c1 = get_in_model(f, g, fns, cache, n, first).unwrap().1;
        if get_in_model(f, g, fns, c1, n, second) is Some {
            lemma_model_mono_in(f, f2, g, fns, c1, n, second);
        }
    }
}

proof fn lemma_model_mono_concat(
    f: nat,
    f2: nat,
    g: GraphData,
    fns: Seq<FunctionDef>,
    cache: CacheModel,
    n: NodeId,
    count: usize,
    i: usize,
    acc: Seq<u8>,
)
    requires
        f <= f2,
        concat_model(f, g, fns, cache, n, count, i, acc) is Some,
    ensures
        concat_model(f2, g, fns, cache, n, count, i, acc) == concat_model(f, g, fns, cache, n, count, i, acc),
    decreases f, 2nat, count - i,
{
    if i < count {
        lemma_model_mono_in(f, f2, g, fns, cache, n, i);
        match get_in_model(f, g, fns, cache, n, i) {
            Some((Some(ValueModel::Byte(b)), c1)) => lemma_model_mono_concat(
                f,
                f2,
                g,
                fns,
                c1,
                n,
                count,
                (i + 1) as usize,
                acc.push(b),
            ),
            _ => {},
        }
    }
}

proof fn lemma_model_mono_pack(
    f: nat,
    f2: nat,
    g: GraphData,
    fns: Seq<FunctionDef>,
    cache: CacheModel,
    n: NodeId,
    i: u8,
    byte: u8,
)
    requires
        f <= f2,
        pack_model(f, g, fns, cache, n, i, byte) is Some,
    ensures
        pack_model(f2, g, fns, cache, n, i, byte) == pack_model(f, g, fns, cache, n, i, byte),
    decreases f, 2nat, 8 - i,
{
    if i < 8 {
        lemma_model_mono_in(f, f2, g, fns, cache, n, i as usize);
        match get_in_model(f, g, fns, cache, n, i as usize) {
            Some((Some(ValueModel::Bit(bit)), c1)) => lemma_model_mono_pack(
                f,
                f2,
                g,
                fns,
                c1,
                n,
                (i + 1) as u8,
                if bit {
                    byte | (1u8 << i)
                } else {
                    byte
                },
            ),
            _ => {},
        }
    }
}

proof fn lemma_model_mono_inject(
    f: nat,
    f2: nat,
    g: GraphData,
    fns: Seq<FunctionDef>,
    cache: CacheModel,
    n: NodeId,
    sub: GraphData,
    k: nat,
    arg: nat,
    sub_cache: CacheModel,
)
    requires
        f <= f2,
        inject_model(f, g, fns, cache, n, sub, k, arg, sub_cache) is Some,
    ensures
        inject_model(f2, g, fns, cache, n, sub, k, arg, sub_cache) == inject_model(
            f,
            g,
            fns,
            cache,
            n,
            sub,
            k,
            arg,
            sub_cache,
        ),
    decreases f, 2nat, sub.nodes@.len() - k,
{
    if k < sub.nodes@.len() {
        if sub.nodes@[k as int].1 is Source {
            lemma_model_mono_in(f, f2, g, fns, cache, n, arg as usize);
            match get_in_model(f, g, fns, cache, n, arg as usize) {
                Some((v, c1)) => lemma_model_mono_inject(
                    f,
                    f2,
                    g,
                    fns,
                    c1,
                    n,
                    sub,
                    k + 1,
                    arg + 1,
                    sub_cache.insert(OutPinId { node: NodeId(sub.nodes@[k as int].0), output: 0 }, v),
                ),
                None => {},
            }
        } else {
            lemma_model_mono_inject(f, f2, g, fns, cache, n, sub, k + 1, arg, sub_cache);
        }
    }
}

/// The result of a call that completes within `f` levels is the same within any `f2 >= f`.
pub proof fn lemma_model_mono_sink(
    f: nat,
    f2: nat,
    sub: GraphData,
    fns: Seq<FunctionDef>,
    sub_cache: CacheModel,
    o: usize,
    k: nat,
)
    requires
        f <= f2,
        sink_model(f, sub, fns, sub_cache, o, k) is Some,
    ensures
        sink_model(f2, sub, fns, sub_cache, o, k) == sink_model(f, sub, fns, sub_cache, o, k),
    decreases f, 2nat, sub.nodes@.len() - k,
{
    if k < sub.nodes@.len() {
        if sub.nodes@[k as int].1 is Sink {
            match source_pos(sub.wires@, InPinId { node: NodeId(sub.nodes@[k as int].0), input: o }) {
                Some(w) => lemma_model_mono_out(f, f2, sub, fns, sub_cache, sub.wires@[w].0),
                None => lemma_model_mono_sink(f, f2, sub, fns, sub_cache, o, k + 1),
            }
        } else {
            lemma_model_mono_sink(f, f2, sub, fns, sub_cache, o, k + 1);
        }
    }
}

proof fn lemma_model_mono_compute(
    f: nat,
    f2: nat,
    g: GraphData,
    fns: Seq<FunctionDef>,
    cache: CacheModel,
    pin: OutPinId,
)
    requires
        f <= f2,
        compute_model(f, g, fns, cache, pin) is Some,
    ensures
        compute_model(f2, g, fns, cache, pin) == compute_model(f, g, fns, cache, pin),
    decreases f, 3nat, 0nat,
{
    match node_pos(g.nodes@, pin.node.0) {
        None => {},
        Some(p) => {
            let kind = g.nodes@[p].1;
            let n = pin.node;
            match kind {
                NodeKind::And | NodeKind::Or | NodeKind::Xor | NodeKind::Nand | NodeKind::Nor
                | NodeKind::Add | NodeKind::Sub | NodeKind::Mul | NodeKind::Div | NodeKind::Mod
                | NodeKind::Slice => {
                    lemma_model_mono_two(f, f2, g, fns, cache, n, 0, 1);
                },
                NodeKind::Not | NodeKind::Unpack => lemma_model_mono_two(f, f2, g, fns, cache, n, 0, 0),
                NodeKind::Shl | NodeKind::Shr => lemma_model_mono_two(f, f2, g, fns, cache, n, 1, 0),
                NodeKind::Concat { count } => lemma_model_mono_concat(
                    f,
                    f2,
                    g,
                    fns,
                    cache,
                    n,
                    count as usize,
                    0,
                    Seq::empty(),
                ),
                NodeKind::Pack => lemma_model_mono_pack(f, f2, g, fns, cache, n, 0, 0),
                NodeKind::FunctionCall { def_index, .. } => if def_index < fns.len() {
                    let sub = fns[def_index as int].graph;
                    lemma_model_mono_inject(f, f2, g, fns, cache, n, sub, 0, 0, Map::empty());
                    match inject_model(f, g, fns, cache, n, sub, 0, 0, Map::empty()) {
                        Some((pc, sc)) => lemma_model_mono_sink(f, f2, sub, fns, sc, pin.output, 0),
                        None => {},
                    }
                },
                _ => {},
            }
        },
    }
}

} // verus!
