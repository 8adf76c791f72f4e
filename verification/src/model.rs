use vstd::prelude::*;

use crate::cache::CacheModel;
use crate::graph::{node_pos, source_pos, FunctionDef, GraphData, InPinId, NodeId, OutPinId};
use crate::types::{NodeKind, ValueModel};

verus! {

// The evaluator's meaning. Every `*_model` function returns `None` when the evaluation
// cannot complete: it would look up a node id that the graph lacks, shift by more than
// the width of the value, or recurse deeper than `fuel`. Otherwise it returns the value
// produced (itself optional: `None` means "no value") and the memoisation table after
// the step. The table is threaded through the steps in the order the evaluator visits
// pins; a pin that is being computed is marked "no value" first, which cuts cycles.

/// Whether an operation accepts `a` on its first input (and then reads its second).
pub open spec fn takes_first(kind: NodeKind, a: ValueModel) -> bool {
    match kind {
        NodeKind::And | NodeKind::Or | NodeKind::Xor | NodeKind::Nand | NodeKind::Nor => {
            a is Bit || a is Byte || a is Word
        },
        NodeKind::Add | NodeKind::Sub | NodeKind::Mul | NodeKind::Div | NodeKind::Mod => {
            a is Byte || a is Word
        },
        _ => false,
    }
}

/// A two-input bit operation.
pub open spec fn bits_op(kind: NodeKind, x: bool, y: bool) -> Option<bool> {
    match kind {
        NodeKind::And => Some(x && y),
        NodeKind::Or => Some(x || y),
        NodeKind::Xor => Some(x != y),
        NodeKind::Nand => Some(!(x && y)),
        NodeKind::Nor => Some(!(x || y)),
        _ => None,
    }
}

/// A two-input byte operation; arithmetic wraps, division by zero gives nothing.
pub open spec fn byte_op(kind: NodeKind, x: u8, y: u8) -> Option<u8> {
    match kind {
        NodeKind::And => Some(x & y),
        NodeKind::Or => Some(x | y),
        NodeKind::Xor => Some(x ^ y),
        NodeKind::Nand => Some(!(x & y)),
        NodeKind::Nor => Some(!(x | y)),
        NodeKind::Add => Some(x.wrapping_add(y)),
        NodeKind::Sub => Some(x.wrapping_sub(y)),
        NodeKind::Mul => Some(x.wrapping_mul(y)),
        NodeKind::Div => if y == 0 { None } else { Some((x / y) as u8) },
        NodeKind::Mod => if y == 0 { None } else { Some((x % y) as u8) },
        _ => None,
    }
}

/// A two-input word operation; arithmetic wraps, division by zero gives nothing.
pub open spec fn word_op(kind: NodeKind, x: u64, y: u64) -> Option<u64> {
    match kind {
        NodeKind::And => Some(x & y),
        NodeKind::Or => Some(x | y),
        NodeKind::Xor => Some(x ^ y),
        NodeKind::Nand => Some(!(x & y)),
        NodeKind::Nor => Some(!(x | y)),
        NodeKind::Add => Some(x.wrapping_add(y)),
        NodeKind::Sub => Some(x.wrapping_sub(y)),
        NodeKind::Mul => Some(x.wrapping_mul(y)),
        NodeKind::Div => if y == 0 { None } else { Some((x / y) as u64) },
        NodeKind::Mod => if y == 0 { None } else { Some((x % y) as u64) },
        _ => None,
    }
}

/// The result of a two-input operation; both inputs must have the same width.
pub open spec fn apply_binary(kind: NodeKind, a: ValueModel, b: ValueModel) -> Option<ValueModel> {
    match (a, b) {
        (ValueModel::Bit(x), ValueModel::Bit(y)) => match bits_op(kind, x, y) {
            Some(z) => Some(ValueModel::Bit(z)),
            None => None,
        },
        (ValueModel::Byte(x), ValueModel::Byte(y)) => match byte_op(kind, x, y) {
            Some(z) => Some(ValueModel::Byte(z)),
            None => None,
        },
        (ValueModel::Word(x), ValueModel::Word(y)) => match word_op(kind, x, y) {
            Some(z) => Some(ValueModel::Word(z)),
            None => None,
        },
        _ => None,
    }
}

/// Bitwise negation at the width of the value.
pub open spec fn apply_not(a: ValueModel) -> Option<ValueModel> {
    match a {
        ValueModel::Bit(x) => Some(ValueModel::Bit(!x)),
        ValueModel::Byte(x) => Some(ValueModel::Byte(!x)),
        ValueModel::Word(x) => Some(ValueModel::Word(!x)),
        ValueModel::Bytes(_) => None,
    }
}

/// A shift whose amount wraps at the width of the value.
pub open spec fn apply_shift(kind: NodeKind, a: ValueModel, amount: u8) -> Option<ValueModel> {
    match a {
        ValueModel::Byte(x) => if kind is Shl {
            Some(ValueModel::Byte(x.wrapping_shl(amount as u32)))
        } else {
            Some(ValueModel::Byte(x.wrapping_shr(amount as u32)))
        },
        ValueModel::Word(x) => if kind is Shl {
            Some(ValueModel::Word(x.wrapping_shl(amount as u32)))
        } else {
            Some(ValueModel::Word(x.wrapping_shr(amount as u32)))
        },
        _ => None,
    }
}

/// The eight bits of `w` that start at bit `offset` (`offset < 64`).
pub open spec fn slice_byte(w: u64, offset: u8) -> u8 {
    ((w >> (offset as u64)) & 0xffu64) as u8
}

/// Bit `o` of `b` (`o < 8`).
pub open spec fn unpack_bit(b: u8, o: usize) -> bool {
    ((b >> (o as u8)) & 1u8) != 0u8
}

/// Evaluation of one output pin, memoised in `cache`.
pub open spec fn eval_output_model(
    fuel: nat,
    g: GraphData,
    fns: Seq<FunctionDef>,
    cache: CacheModel,
    pin: OutPinId,
) -> Option<(Option<ValueModel>, CacheModel)>
    decreases fuel, 0nat, 0nat,
{
    if cache.contains_key(pin) {
        Some((cache[pin], cache))
    } else if fuel == 0 {
        None
    } else {
        match compute_model((fuel - 1) as nat, g, fns, cache.insert(pin, None), pin) {
            Some((r, c)) => Some((r, c.insert(pin, r))),
            None => None,
        }
    }
}

/// The value arriving at input `i` of node `n`: that of the source of the first wire
/// ending there, or nothing when no wire does.
pub open spec fn get_in_model(
    fuel: nat,
    g: GraphData,
    fns: Seq<FunctionDef>,
    cache: CacheModel,
    n: NodeId,
    i: usize,
) -> Option<(Option<ValueModel>, CacheModel)>
    decreases fuel, 1nat, 0nat,
{
    match source_pos(g.wires@, InPinId { node: n, input: i }) {
        None => Some((None, cache)),
        Some(k) => eval_output_model(fuel, g, fns, cache, g.wires@[k].0),
    }
}

/// A two-input bitwise or arithmetic node: the first input decides the width.
pub open spec fn binary_model(
    fuel: nat,
    g: GraphData,
    fns: Seq<FunctionDef>,
    cache: CacheModel,
    kind: NodeKind,
    n: NodeId,
) -> Option<(Option<ValueModel>, CacheModel)>
    decreases fuel, 2nat, 0nat,
{
    match get_in_model(fuel, g, fns, cache, n, 0) {
        None => None,
        Some((None, c1)) => Some((None, c1)),
        Some((Some(a), c1)) => if !takes_first(kind, a) {
            Some((None, c1))
        } else {
            match get_in_model(fuel, g, fns, c1, n, 1) {
                None => None,
                Some((None, c2)) => Some((None, c2)),
                Some((Some(b), c2)) => Some((apply_binary(kind, a, b), c2)),
            }
        },
    }
}

/// `Not`.
pub open spec fn not_model(
    fuel: nat,
    g: GraphData,
    fns: Seq<FunctionDef>,
    cache: CacheModel,
    n: NodeId,
) -> Option<(Option<ValueModel>, CacheModel)>
    decreases fuel, 2nat, 0nat,
{
    match get_in_model(fuel, g, fns, cache, n, 0) {
        None => None,
        Some((None, c1)) => Some((None, c1)),
        Some((Some(a), c1)) => Some((apply_not(a), c1)),
    }
}

/// `Shl` and `Shr`: the amount (input 1, a byte) is read before the shifted value.
pub open spec fn shift_model(
    fuel: nat,
    g: GraphData,
    fns: Seq<FunctionDef>,
    cache: CacheModel,
    kind: NodeKind,
    n: NodeId,
) -> Option<(Option<ValueModel>, CacheModel)>
    decreases fuel, 2nat, 0nat,
{
    match get_in_model(fuel, g, fns, cache, n, 1) {
        None => None,
        Some((Some(ValueModel::Byte(amount)), c1)) => match get_in_model(fuel, g, fns, c1, n, 0) {
            None => None,
            Some((None, c2)) => Some((None, c2)),
            Some((Some(a), c2)) => Some((apply_shift(kind, a, amount), c2)),
        },
        Some((_, c1)) => Some((None, c1)),
    }
}

/// `Concat`: inputs `i..count` must all be bytes; `acc` holds those read so far.
pub open spec fn concat_model(
    fuel: nat,
    g: GraphData,
    fns: Seq<FunctionDef>,
    cache: CacheModel,
    n: NodeId,
    count: usize,
    i: usize,
    acc: Seq<u8>,
) -> Option<(Option<ValueModel>, CacheModel)>
    decreases fuel, 2nat, count - i,
{
    if i >= count {
        Some((Some(ValueModel::Bytes(acc)), cache))
    } else {
        match get_in_model(fuel, g, fns, cache, n, i) {
            None => None,
            Some((Some(ValueModel::Byte(b)), c1)) => concat_model(
                fuel,
                g,
                fns,
                c1,
                n,
                count,
                (i + 1) as usize,
                acc.push(b),
            ),
            Some((_, c1)) => Some((None, c1)),
        }
    }
}

/// `Pack`: inputs `i..8` must all be bits; bit `j` sets bit `j` of the byte.
pub open spec fn pack_model(
    fuel: nat,
    g: GraphData,
    fns: Seq<FunctionDef>,
    cache: CacheModel,
    n: NodeId,
    i: u8,
    byte: u8,
) -> Option<(Option<ValueModel>, CacheModel)>
    decreases fuel, 2nat, 8 - i,
{
    if i >= 8 {
        Some((Some(ValueModel::Byte(byte)), cache))
    } else {
        match get_in_model(fuel, g, fns, cache, n, i as usize) {
            None => None,
            Some((Some(ValueModel::Bit(bit)), c1)) => pack_model(
                fuel,
                g,
                fns,
                c1,
                n,
                (i + 1) as u8,
                if bit {
                    byte | (1u8 << i)
                } else {
                    byte
                },
            ),
            Some((_, c1)) => Some((None, c1)),
        }
    }
}

/// `Slice`: a word and a bit offset; an offset of 64 or more overflows the shift.
pub open spec fn slice_model(
    fuel: nat,
    g: GraphData,
    fns: Seq<FunctionDef>,
    cache: CacheModel,
    n: NodeId,
) -> Option<(Option<ValueModel>, CacheModel)>
    decreases fuel, 2nat, 0nat,
{
    match get_in_model(fuel, g, fns, cache, n, 0) {
        None => None,
        Some((Some(ValueModel::Word(w)), c1)) => match get_in_model(fuel, g, fns, c1, n, 1) {
            None => None,
            Some((Some(ValueModel::Byte(off)), c2)) => if off >= 64 {
                None
            } else {
                Some((Some(ValueModel::Byte(slice_byte(w, off))), c2))
            },
            Some((_, c2)) => Some((None, c2)),
        },
        Some((_, c1)) => Some((None, c1)),
    }
}

/// `Unpack`: output `o` is bit `o` of the input byte; `o >= 8` overflows the shift.
pub open spec fn unpack_model(
    fuel: nat,
    g: GraphData,
    fns: Seq<FunctionDef>,
    cache: CacheModel,
    n: NodeId,
    o: usize,
) -> Option<(Option<ValueModel>, CacheModel)>
    decreases fuel, 2nat, 0nat,
{
    match get_in_model(fuel, g, fns, cache, n, 0) {
        None => None,
        Some((Some(ValueModel::Byte(b)), c1)) => if o >= 8 {
            None
        } else {
            Some((Some(ValueModel::Bit(unpack_bit(b, o))), c1))
        },
        Some((_, c1)) => Some((None, c1)),
    }
}

/// The argument injection of a call: walking the callee's nodes from position `k`, each
/// `Source` node's output receives the value at the caller's next input (`arg`). Returns
/// the caller's table and the callee's table.
pub open spec fn inject_model(
    fuel: nat,
    g: GraphData,
    fns: Seq<FunctionDef>,
    cache: CacheModel,
    n: NodeId,
    sub: GraphData,
    k: nat,
    arg: nat,
    sub_cache: CacheModel,
) -> Option<(CacheModel, CacheModel)>
    decreases fuel, 2nat, sub.nodes@.len() - k,
{
    if k >= sub.nodes@.len() {
        Some((cache, sub_cache))
    } else if sub.nodes@[k as int].1 is Source {
        match get_in_model(fuel, g, fns, cache, n, arg as usize) {
            None => None,
            Some((v, c1)) => inject_model(
                fuel,
                g,
                fns,
                c1,
                n,
                sub,
                k + 1,
                arg + 1,
                sub_cache.insert(OutPinId { node: NodeId(sub.nodes@[k as int].0), output: 0 }, v),
            ),
        }
    } else {
        inject_model(fuel, g, fns, cache, n, sub, k + 1, arg, sub_cache)
    }
}

/// The result of a call: from position `k`, the first `Sink` of the callee with a wire into
/// its input `o` gives the value of that wire's source, evaluated in the callee.
pub open spec fn sink_model(
    fuel: nat,
    sub: GraphData,
    fns: Seq<FunctionDef>,
    sub_cache: CacheModel,
    o: usize,
    k: nat,
) -> Option<Option<ValueModel>>
    decreases fuel, 2nat, sub.nodes@.len() - k,
{
    if k >= sub.nodes@.len() {
        Some(None)
    } else if sub.nodes@[k as int].1 is Sink {
        match source_pos(sub.wires@, InPinId { node: NodeId(sub.nodes@[k as int].0), input: o }) {
            Some(w) => match eval_output_model(fuel, sub, fns, sub_cache, sub.wires@[w].0) {
                None => None,
                Some((v, _)) => Some(v),
            },
            None => sink_model(fuel, sub, fns, sub_cache, o, k + 1),
        }
    } else {
        sink_model(fuel, sub, fns, sub_cache, o, k + 1)
    }
}

/// The value of output pin `pin`, computed from the node it belongs to.
pub open spec fn compute_model(
    fuel: nat,
    g: GraphData,
    fns: Seq<FunctionDef>,
    cache: CacheModel,
    pin: OutPinId,
) -> Option<(Option<ValueModel>, CacheModel)>
    decreases fuel, 3nat, 0nat,
{
    match node_pos(g.nodes@, pin.node.0) {
        None => None,
        Some(p) => {
            let kind = g.nodes@[p].1;
            let n = pin.node;
            let o = pin.output;
            match kind {
                NodeKind::Constant(values) => Some(
                    (
                        if o < values.len() {
                            Some(values@[o as int]@)
                        } else {
                            None
                        },
                        cache,
                    ),
                ),
                NodeKind::And | NodeKind::Or | NodeKind::Xor | NodeKind::Nand | NodeKind::Nor
                | NodeKind::Add | NodeKind::Sub | NodeKind::Mul | NodeKind::Div | NodeKind::Mod => {
                    binary_model(fuel, g, fns, cache, kind, n)
                },
                NodeKind::Not => not_model(fuel, g, fns, cache, n),
                NodeKind::Shl | NodeKind::Shr => shift_model(fuel, g, fns, cache, kind, n),
                NodeKind::Concat { count } => concat_model(
                    fuel,
                    g,
                    fns,
                    cache,
                    n,
                    count as usize,
                    0,
                    Seq::empty(),
                ),
                NodeKind::Slice => slice_model(fuel, g, fns, cache, n),
                NodeKind::Pack => pack_model(fuel, g, fns, cache, n, 0, 0),
                NodeKind::Unpack => unpack_model(fuel, g, fns, cache, n, o),
                NodeKind::FunctionCall { def_index, .. } => if def_index < fns.len() {
                    let sub = fns[def_index as int].graph;
                    match inject_model(fuel, g, fns, cache, n, sub, 0, 0, Map::empty()) {
                        None => None,
                        Some((pc, sc)) => match sink_model(fuel, sub, fns, sc, o, 0) {
                            None => None,
                            Some(r) => Some((r, pc)),
                        },
                    }
                } else {
                    Some((None, cache))
                },
                _ => Some((None, cache)),
            }
        },
    }
}

/// Evaluation of outputs `out..count` of the node with id `id`.
pub open spec fn eval_outputs_model(
    fuel: nat,
    g: GraphData,
    fns: Seq<FunctionDef>,
    cache: CacheModel,
    id: usize,
    out: usize,
    count: usize,
) -> Option<CacheModel>
    decreases count - out,
{
    if out >= count {
        Some(cache)
    } else {
        match eval_output_model(fuel, g, fns, cache, OutPinId { node: NodeId(id), output: out }) {
            None => None,
            Some((_, c)) => eval_outputs_model(fuel, g, fns, c, id, (out + 1) as usize, count),
        }
    }
}

/// Evaluation of every output of the nodes at positions `k..`, in order.
pub open spec fn eval_nodes_model(
    fuel: nat,
    g: GraphData,
    fns: Seq<FunctionDef>,
    cache: CacheModel,
    k: int,
) -> Option<CacheModel>
    decreases g.nodes@.len() - k,
{
    if k < 0 || k >= g.nodes@.len() {
        Some(cache)
    } else {
        match eval_outputs_model(
            fuel,
            g,
            fns,
            cache,
            g.nodes@[k].0,
            0,
            g.nodes@[k].1.output_count(),
        ) {
            None => None,
            Some(c) => eval_nodes_model(fuel, g, fns, c, k + 1),
        }
    }
}

/// The table produced by evaluating every output pin of every node of `g`.
pub open spec fn eval_graph_model(fuel: nat, g: GraphData, fns: Seq<FunctionDef>) -> Option<
    CacheModel,
> {
    eval_nodes_model(fuel, g, fns, Map::empty(), 0)
}

/// The largest recursion depth the evaluator supports.
pub open spec fn max_fuel() -> nat {
    u64::MAX as nat
}

/// Whether evaluating `g` completes: no lookup of a missing node, no overflowing shift,
/// no recursion deeper than any stack could hold.
pub open spec fn evaluates(g: GraphData, fns: Seq<FunctionDef>) -> bool {
    eval_graph_model(max_fuel(), g, fns) is Some
}

} // verus!
