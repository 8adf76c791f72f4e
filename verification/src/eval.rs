use vstd::prelude::*;

use crate::cache::{CacheModel, EvalCache};
use crate::graph::{FunctionDef, GraphData, InPinId, NodeId, OutPinId};
use crate::model::{
    apply_binary, apply_not, apply_shift, binary_model, compute_model, concat_model,
    eval_graph_model, eval_nodes_model, eval_output_model, eval_outputs_model, evaluates,
    get_in_model, inject_model, max_fuel, not_model, pack_model, shift_model, sink_model,
    slice_model, takes_first, unpack_model,
};
use crate::types::{clone_opt_value, opt_view, NodeKind, NodeValue, ValueModel};

verus! {

/// Whether an executable outcome agrees with a model outcome: both fail, or both give the
/// same value and the table ends as the model's.
pub open spec fn agrees(
    r: Option<Option<NodeValue>>,
    c: CacheModel,
    m: Option<(Option<ValueModel>, CacheModel)>,
) -> bool {
    match m {
        None => r is None,
        Some((v, mc)) => r matches Some(x) && opt_view(x) == v && c == mc,
    }
}

fn takes_first_exec(kind: &NodeKind, a: &NodeValue) -> (r: bool)
    ensures
        r == takes_first(*kind, a@),
{
    match kind {
        NodeKind::And | NodeKind::Or | NodeKind::Xor | NodeKind::Nand | NodeKind::Nor => {
            match a {
                NodeValue::Bytes(_) => false,
                _ => true,
            }
        },
        NodeKind::Add | NodeKind::Sub | NodeKind::Mul | NodeKind::Div | NodeKind::Mod => {
            match a {
                NodeValue::Byte(_) | NodeValue::Word(_) => true,
                _ => false,
            }
        },
        _ => false,
    }
}

fn apply_binary_exec(kind: &NodeKind, a: &NodeValue, b: &NodeValue) -> (r: Option<NodeValue>)
    ensures
        opt_view(r) == apply_binary(*kind, a@, b@),
{
    match (a, b) {
        (NodeValue::Bit(x), NodeValue::Bit(y)) => {
            let (x, y) = (*x, *y);
            match kind {
                NodeKind::And => Some(NodeValue::Bit(x && y)),
                NodeKind::Or => Some(NodeValue::Bit(x || y)),
                NodeKind::Xor => Some(NodeValue::Bit(x != y)),
                NodeKind::Nand => Some(NodeValue::Bit(!(x && y))),
                NodeKind::Nor => Some(NodeValue::Bit(!(x || y))),
                _ => None,
            }
        },
        (NodeValue::Byte(x), NodeValue::Byte(y)) => {
            let (x, y) = (*x, *y);
            match kind {
                NodeKind::And => Some(NodeValue::Byte(x & y)),
                NodeKind::Or => Some(NodeValue::Byte(x | y)),
                NodeKind::Xor => Some(NodeValue::Byte(x ^ y)),
                NodeKind::Nand => Some(NodeValue::Byte(!(x & y))),
                NodeKind::Nor => Some(NodeValue::Byte(!(x | y))),
                NodeKind::Add => Some(NodeValue::Byte(x.wrapping_add(y))),
                NodeKind::Sub => Some(NodeValue::Byte(x.wrapping_sub(y))),
                NodeKind::Mul => Some(NodeValue::Byte(x.wrapping_mul(y))),
                NodeKind::Div => if y == 0 {
                    None
                } else {
                    Some(NodeValue::Byte(x / y))
                },
                NodeKind::Mod => if y == 0 {
                    None
                } else {
                    Some(NodeValue::Byte(x % y))
                },
                _ => None,
            }
        },
        (NodeValue::Word(x), NodeValue::Word(y)) => {
            let (x, y) = (*x, *y);
            match kind {
                NodeKind::And => Some(NodeValue::Word(x & y)),
                NodeKind::Or => Some(NodeValue::Word(x | y)),
                NodeKind::Xor => Some(NodeValue::Word(x ^ y)),
                NodeKind::Nand => Some(NodeValue::Word(!(x & y))),
                NodeKind::Nor => Some(NodeValue::Word(!(x | y))),
                NodeKind::Add => Some(NodeValue::Word(x.wrapping_add(y))),
                NodeKind::Sub => Some(NodeValue::Word(x.wrapping_sub(y))),
                NodeKind::Mul => Some(NodeValue::Word(x.wrapping_mul(y))),
                NodeKind::Div => if y == 0 {
                    None
                } else {
                    Some(NodeValue::Word(x / y))
                },
                NodeKind::Mod => if y == 0 {
                    None
                } else {
                    Some(NodeValue::Word(x % y))
                },
                _ => None,
            }
        },
        _ => None,
    }
}

/// Memoised evaluation of a single output pin. The pin is marked "no value" while it is
/// being computed, so a cycle through it yields no value instead of recursing forever.
fn eval_output(
    pin: OutPinId,
    g: &GraphData,
    cache: &mut EvalCache,
    fns: &[FunctionDef],
    fuel: u64,
) -> (r: Option<Option<NodeValue>>)
    ensures
        agrees(r, final(cache)@, eval_output_model(fuel as nat, *g, fns@, old(cache)@, pin)),
    decreases fuel, 0nat, 0nat,
{
    match cache.get(pin) {
        Some(cached) => {
            return Some(clone_opt_value(cached));
        },
        None => {},
    }
    if fuel == 0 {
        return None;
    }
    cache.insert(pin, None);
    match compute(pin, g, cache, fns, fuel - 1) {
        None => None,
        Some(result) => {
            cache.insert(pin, clone_opt_value(&result));
            Some(result)
        },
    }
}

/// The value arriving at input port `i` of node `n`.
fn get_in(
    n: NodeId,
    i: usize,
    g: &GraphData,
    cache: &mut EvalCache,
    fns: &[FunctionDef],
    fuel: u64,
) -> (r: Option<Option<NodeValue>>)
    ensures
        agrees(r, final(cache)@, get_in_model(fuel as nat, *g, fns@, old(cache)@, n, i)),
    decreases fuel, 1nat, 0nat,
{
    match g.first_source(InPinId { node: n, input: i }) {
        None => Some(None),
        Some(src) => eval_output(src, g, cache, fns, fuel),
    }
}

fn binary(
    kind: &NodeKind,
    n: NodeId,
    g: &GraphData,
    cache: &mut EvalCache,
    fns: &[FunctionDef],
    fuel: u64,
) -> (r: Option<Option<NodeValue>>)
    ensures
        agrees(r, final(cache)@, binary_model(fuel as nat, *g, fns@, old(cache)@, *kind, n)),
    decreases fuel, 2nat, 0nat,
{
    let a = match get_in(n, 0, g, cache, fns, fuel) {
        None => return None,
        Some(None) => return Some(None),
        Some(Some(a)) => a,
    };
    if !takes_first_exec(kind, &a) {
        return Some(None);
    }
    let b = match get_in(n, 1, g, cache, fns, fuel) {
        None => return None,
        Some(None) => return Some(None),
        Some(Some(b)) => b,
    };
    Some(apply_binary_exec(kind, &a, &b))
}

fn not(
    n: NodeId,
    g: &GraphData,
    cache: &mut EvalCache,
    fns: &[FunctionDef],
    fuel: u64,
) -> (r: Option<Option<NodeValue>>)
    ensures
        agrees(r, final(cache)@, not_model(fuel as nat, *g, fns@, old(cache)@, n)),
    decreases fuel, 2nat, 0nat,
{
    match get_in(n, 0, g, cache, fns, fuel) {
        None => None,
        Some(None) => Some(None),
        Some(Some(NodeValue::Bit(a))) => Some(Some(NodeValue::Bit(!a))),
        Some(Some(NodeValue::Byte(a))) => Some(Some(NodeValue::Byte(!a))),
        Some(Some(NodeValue::Word(a))) => Some(Some(NodeValue::Word(!a))),
        Some(Some(NodeValue::Bytes(_))) => Some(None),
    }
}

fn shift(
    kind: &NodeKind,
    n: NodeId,
    g: &GraphData,
    cache: &mut EvalCache,
    fns: &[FunctionDef],
    fuel: u64,
) -> (r: Option<Option<NodeValue>>)
    ensures
        agrees(r, final(cache)@, shift_model(fuel as nat, *g, fns@, old(cache)@, *kind, n)),
    decreases fuel, 2nat, 0nat,
{
    let amount = match get_in(n, 1, g, cache, fns, fuel) {
        None => return None,
        Some(Some(NodeValue::Byte(b))) => b as u32,
        Some(_) => return Some(None),
    };
    let is_left = match kind {
        NodeKind::Shl => true,
        _ => false,
    };
    match get_in(n, 0, g, cache, fns, fuel) {
        None => None,
        Some(Some(NodeValue::Byte(a))) => if is_left {
            Some(Some(NodeValue::Byte(a.wrapping_shl(amount))))
        } else {
            Some(Some(NodeValue::Byte(a.wrapping_shr(amount))))
        },
        Some(Some(NodeValue::Word(a))) => if is_left {
            Some(Some(NodeValue::Word(a.wrapping_shl(amount))))
        } else {
            Some(Some(NodeValue::Word(a.wrapping_shr(amount))))
        },
        Some(_) => Some(None),
    }
}

fn concat(
    count: usize,
    n: NodeId,
    g: &GraphData,
    cache: &mut EvalCache,
    fns: &[FunctionDef],
    fuel: u64,
) -> (r: Option<Option<NodeValue>>)
    ensures
        agrees(
            r,
            final(cache)@,
            concat_model(fuel as nat, *g, fns@, old(cache)@, n, count, 0, Seq::empty()),
        ),
    decreases fuel, 2nat, 0nat,
{
    let ghost target = concat_model(fuel as nat, *g, fns@, old(cache)@, n, count, 0, Seq::empty());
    let mut bytes: Vec<u8> = Vec::new();
    let mut i: usize = 0;
    while i < count
        invariant
            i <= count,
            target == concat_model(fuel as nat, *g, fns@, old(cache)@, n, count, 0, Seq::empty()),
            target == concat_model(fuel as nat, *g, fns@, cache@, n, count, i, bytes@),
        decreases count - i,
    {
        let ghost c0 = cache@;
        let v = get_in(n, i, g, cache, fns, fuel);
        assert(concat_model(fuel as nat, *g, fns@, c0, n, count, i, bytes@) == match get_in_model(
            fuel as nat,
            *g,
            fns@,
            c0,
            n,
            i,
        ) {
            None => None,
            Some((Some(ValueModel::Byte(b)), c1)) => concat_model(
                fuel as nat,
                *g,
                fns@,
                c1,
                n,
                count,
                (i + 1) as usize,
                bytes@.push(b),
            ),
            Some((_, c1)) => Some((None, c1)),
        });
        match v {
            None => {
                assert(get_in_model(fuel as nat, *g, fns@, c0, n, i) is None);
                assert(target is None);
                return None;
            },
            Some(Some(NodeValue::Byte(b))) => {
                bytes.push(b);
            },
            Some(_) => return Some(None),
        }
        i = i + 1;
    }
    Some(Some(NodeValue::Bytes(bytes)))
}

fn pack(
    n: NodeId,
    g: &GraphData,
    cache: &mut EvalCache,
    fns: &[FunctionDef],
    fuel: u64,
) -> (r: Option<Option<NodeValue>>)
    ensures
        agrees(r, final(cache)@, pack_model(fuel as nat, *g, fns@, old(cache)@, n, 0, 0)),
    decreases fuel, 2nat, 0nat,
{
    let ghost target = pack_model(fuel as nat, *g, fns@, old(cache)@, n, 0, 0);
    let mut byte: u8 = 0;
    let mut i: u8 = 0;
    while i < 8
        invariant
            i <= 8,
            target == pack_model(fuel as nat, *g, fns@, old(cache)@, n, 0, 0),
            target == pack_model(fuel as nat, *g, fns@, cache@, n, i, byte),
        decreases 8 - i,
    {
        let ghost c0 = cache@;
        let v = get_in(n, i as usize, g, cache, fns, fuel);
        assert(pack_model(fuel as nat, *g, fns@, c0, n, i, byte) == match get_in_model(
            fuel as nat,
            *g,
            fns@,
            c0,
            n,
            i as usize,
        ) {
            None => None,
            Some((Some(ValueModel::Bit(bit)), c1)) => pack_model(
                fuel as nat,
                *g,
                fns@,
                c1,
                n,
                (i + 1) as u8,
                if bit {
                    byte | (1u8 << i)
                } else {
                    byte
                },
            ),
            Some((_, c1)) => Some((None, c1)),
        });
        match v {
            None => return None,
            Some(Some(NodeValue::Bit(bit))) => {
                if bit {
                    byte = byte | (1u8 << i);
                }
            },
            Some(_) => return Some(None),
        }
        i = i + 1;
    }
    Some(Some(NodeValue::Byte(byte)))
}

fn slice(
    n: NodeId,
    g: &GraphData,
    cache: &mut EvalCache,
    fns: &[FunctionDef],
    fuel: u64,
) -> (r: Option<Option<NodeValue>>)
    ensures
        agrees(r, final(cache)@, slice_model(fuel as nat, *g, fns@, old(cache)@, n)),
    decreases fuel, 2nat, 0nat,
{
    let w = match get_in(n, 0, g, cache, fns, fuel) {
        None => return None,
        Some(Some(NodeValue::Word(w))) => w,
        Some(_) => return Some(None),
    };
    let off = match get_in(n, 1, g, cache, fns, fuel) {
        None => return None,
        Some(Some(NodeValue::Byte(b))) => b,
        Some(_) => return Some(None),
    };
    if off >= 64 {
        // The shift by `off` bits would overflow a word.
        return None;
    }
    Some(Some(NodeValue::Byte(((w >> (off as u64)) & 0xffu64) as u8)))
}

fn unpack(
    n: NodeId,
    o: usize,
    g: &GraphData,
    cache: &mut EvalCache,
    fns: &[FunctionDef],
    fuel: u64,
) -> (r: Option<Option<NodeValue>>)
    ensures
        agrees(r, final(cache)@, unpack_model(fuel as nat, *g, fns@, old(cache)@, n, o)),
    decreases fuel, 2nat, 0nat,
{
    let b = match get_in(n, 0, g, cache, fns, fuel) {
        None => return None,
        Some(Some(NodeValue::Byte(b))) => b,
        Some(_) => return Some(None),
    };
    if o >= 8 {
        // The shift by `o` bits would overflow a byte.
        return None;
    }
    Some(Some(NodeValue::Bit(((b >> (o as u8)) & 1u8) != 0u8)))
}

/// A call of `fns[def_index]`: the caller's inputs are injected at the callee's `Source`
/// outputs, then the callee's `Sink` input `o` is evaluated in a fresh table.
fn call(
    def_index: usize,
    n: NodeId,
    o: usize,
    g: &GraphData,
    cache: &mut EvalCache,
    fns: &[FunctionDef],
    fuel: u64,
) -> (r: Option<Option<NodeValue>>)
    requires
        def_index < fns@.len(),
    ensures
        agrees(
            r,
            final(cache)@,
            match inject_model(
                fuel as nat,
                *g,
                fns@,
                old(cache)@,
                n,
                fns@[def_index as int].graph,
                0,
                0,
                Map::empty(),
            ) {
                None => None,
                Some((pc, sc)) => match sink_model(
                    fuel as nat,
                    fns@[def_index as int].graph,
                    fns@,
                    sc,
                    o,
                    0,
                ) {
                    None => None,
                    Some(v) => Some((v, pc)),
                },
            },
        ),
    decreases fuel, 3nat, 0nat,
{
    let sub = &fns[def_index].graph;
    let ghost target = inject_model(fuel as nat, *g, fns@, old(cache)@, n, *sub, 0, 0, Map::empty());
    let mut sub_cache = EvalCache::new();
    let mut arg_idx: usize = 0;
    let mut k: usize = 0;
    while k < sub.nodes.len()
        invariant
            k <= sub.nodes@.len(),
            arg_idx <= k,
            target == inject_model(fuel as nat, *g, fns@, old(cache)@, n, *sub, 0, 0, Map::empty()),
            *sub == fns@[def_index as int].graph,
            target == inject_model(
                fuel as nat,
                *g,
                fns@,
                cache@,
                n,
                *sub,
                k as nat,
                arg_idx as nat,
                sub_cache@,
            ),
        decreases sub.nodes@.len() - k,
    {
        if let NodeKind::Source { .. } = &sub.nodes[k].1 {
            let ghost c0 = cache@;
            let got = get_in(n, arg_idx, g, cache, fns, fuel);
            assert(inject_model(fuel as nat, *g, fns@, c0, n, *sub, k as nat, arg_idx as nat, sub_cache@)
                == match get_in_model(fuel as nat, *g, fns@, c0, n, arg_idx) {
                None => None,
                Some((v, c1)) => inject_model(
                    fuel as nat,
                    *g,
                    fns@,
                    c1,
                    n,
                    *sub,
                    (k + 1) as nat,
                    (arg_idx + 1) as nat,
                    sub_cache@.insert(OutPinId { node: NodeId(sub.nodes@[k as int].0), output: 0 }, v),
                ),
            });
            let val = match got {
                None => return None,
                Some(v) => v,
            };
            sub_cache.insert(OutPinId { node: NodeId(sub.nodes[k].0), output: 0 }, val);
            arg_idx = arg_idx + 1;
        }
        k = k + 1;
    }
    let ghost sc = sub_cache@;
    let ghost pc = cache@;
    let mut k: usize = 0;
    while k < sub.nodes.len()
        invariant
            cache@ == pc,
            target == Some((pc, sc)),
            target == inject_model(fuel as nat, *g, fns@, old(cache)@, n, *sub, 0, 0, Map::empty()),
            *sub == fns@[def_index as int].graph,
            sub_cache@ == sc,
            k <= sub.nodes@.len(),
            sink_model(fuel as nat, *sub, fns@, sc, o, 0) == sink_model(
                fuel as nat,
                *sub,
                fns@,
                sc,
                o,
                k as nat,
            ),
        decreases sub.nodes@.len() - k,
    {
        if let NodeKind::Sink = &sub.nodes[k].1 {
            match sub.first_source(InPinId { node: NodeId(sub.nodes[k].0), input: o }) {
                Some(src) => {
                    return eval_output(src, sub, &mut sub_cache, fns, fuel);
                },
                None => {},
            }
        }
        k = k + 1;
    }
    Some(None)
}

/// The value of output pin `pin`, computed from its node and the values at its inputs.
fn compute(
    pin: OutPinId,
    g: &GraphData,
    cache: &mut EvalCache,
    fns: &[FunctionDef],
    fuel: u64,
) -> (r: Option<Option<NodeValue>>)
    ensures
        agrees(r, final(cache)@, compute_model(fuel as nat, *g, fns@, old(cache)@, pin)),
    decreases fuel, 4nat, 0nat,
{
    let p = match g.find_node(pin.node) {
        // The node is missing from the graph: looking it up fails.
        None => return None,
        Some(p) => p,
    };
    proof {
        crate::graph::lemma_node_pos_from(g.nodes@, pin.node.0, 0);
    }
    let n = pin.node;
    let o = pin.output;
    let kind = &g.nodes[p].1;
    match kind {
        NodeKind::Constant(values) => {
            if o < values.len() {
                Some(Some(values[o].clone()))
            } else {
                Some(None)
            }
        },
        NodeKind::And | NodeKind::Or | NodeKind::Xor | NodeKind::Nand | NodeKind::Nor
        | NodeKind::Add | NodeKind::Sub | NodeKind::Mul | NodeKind::Div | NodeKind::Mod => {
            binary(kind, n, g, cache, fns, fuel)
        },
        NodeKind::Not => not(n, g, cache, fns, fuel),
        NodeKind::Shl | NodeKind::Shr => shift(kind, n, g, cache, fns, fuel),
        NodeKind::Concat { count } => concat(*count as usize, n, g, cache, fns, fuel),
        NodeKind::Slice => slice(n, g, cache, fns, fuel),
        NodeKind::Pack => pack(n, g, cache, fns, fuel),
        NodeKind::Unpack => unpack(n, o, g, cache, fns, fuel),
        NodeKind::FunctionCall { def_index, .. } => {
            if *def_index < fns.len() {
                call(*def_index, n, o, g, cache, fns, fuel)
            } else {
                Some(None)
            }
        },
        // Sources and sinks have no computed outputs.
        _ => Some(None),
    }
}

/// Evaluation of every output pin of every node, with recursion bounded by `fuel`.
fn eval_graph_with_fuel(graph: &GraphData, functions: &[FunctionDef], fuel: u64) -> (r: Option<
    EvalCache,
>)
    ensures
        r matches Some(c) ==> eval_graph_model(fuel as nat, *graph, functions@) == Some(
            c@,
        ),
        r is None ==> eval_graph_model(fuel as nat, *graph, functions@) is None,
{
    let mut cache = EvalCache::new();
    let mut k: usize = 0;
    while k < graph.nodes.len()
        invariant
            k <= graph.nodes@.len(),
            eval_graph_model(fuel as nat, *graph, functions@) == eval_nodes_model(
                fuel as nat,
                *graph,
                functions@,
                cache@,
                k as int,
            ),
        decreases graph.nodes@.len() - k,
    {
        let id = graph.nodes[k].0;
        let count = graph.nodes[k].1.output_count();
        let ghost before = cache@;
        let mut out: usize = 0;
        while out < count
            invariant
                out <= count,
                k < graph.nodes@.len(),
                eval_graph_model(fuel as nat, *graph, functions@) == eval_nodes_model(
                    fuel as nat,
                    *graph,
                    functions@,
                    before,
                    k as int,
                ),
                id == graph.nodes@[k as int].0,
                count == graph.nodes@[k as int].1.output_count(),
                eval_outputs_model(fuel as nat, *graph, functions@, before, id, 0, count)
                    == eval_outputs_model(fuel as nat, *graph, functions@, cache@, id, out, count),
            decreases count - out,
        {
            match eval_output(OutPinId { node: NodeId(id), output: out }, graph, &mut cache, functions, fuel) {
                None => {
                    assert(eval_outputs_model(fuel as nat, *graph, functions@, before, id, 0, count) is None);
                    assert(eval_nodes_model(fuel as nat, *graph, functions@, before, k as int) is None);
                    return None;
                },
                Some(_) => {},
            }
            out = out + 1;
        }
        k = k + 1;
    }
    Some(cache)
}

/// Evaluates every output pin of the graph as `eval_graph` does, or returns `None` where
/// that evaluation would look up a missing node or shift past a value's width.
pub fn try_eval_graph(graph: &GraphData, functions: &[FunctionDef]) -> (r: Option<EvalCache>)
    ensures
        r is Some <==> evaluates(*graph, functions@),
        r matches Some(c) ==> eval_graph_model(max_fuel(), *graph, functions@) == Some(c@),
{
    eval_graph_with_fuel(graph, functions, u64::MAX)
}

/// Evaluates every output pin of the graph, memoising each pin's value (or its absence)
/// in the returned table.
pub fn eval_graph(graph: &GraphData, functions: &[FunctionDef]) -> (r: EvalCache)
    requires
        evaluates(*graph, functions@),
    ensures
        eval_graph_model(max_fuel(), *graph, functions@) == Some(r@),
{
    match eval_graph_with_fuel(graph, functions, u64::MAX) {
        Some(c) => c,
        None => {
            proof {
                assert(false);
            }
            EvalCache::new()
        },
    }
}

} // verus!
