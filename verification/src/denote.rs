use vstd::prelude::*;

use crate::cache::CacheModel;
use crate::graph::{node_pos, source_pos, FunctionDef, GraphData, InPinId, NodeId, OutPinId};
use crate::model::{
    apply_binary, apply_not, apply_shift, sink_model, slice_byte, takes_first, unpack_bit,
};
use crate::model_mono::lemma_model_mono_sink;
use crate::types::{NodeKind, ValueModel};

verus! {

// The meaning of a pin without memoisation: the value of an output pin is computed from
// the values at its node's inputs, recursively. A call's value is the evaluation of the
// callee with the call's arguments at its `Source` outputs, in a table of its own, as the
// evaluator computes it. `args` holds values given to `Source` outputs. Each `pure_*` function returns `None` when the
// computation cannot complete within `fuel` nested steps (or would fail as the evaluator
// does: a missing node, an overflowing shift); otherwise it returns the (optional) value.

/// The value of output pin `pin`.
pub open spec fn pure_out(
    fuel: nat,
    g: GraphData,
    fns: Seq<FunctionDef>,
    args: CacheModel,
    pin: OutPinId,
) -> Option<Option<ValueModel>>
    decreases fuel, 0nat, 0nat,
{
    if args.contains_key(pin) {
        Some(args[pin])
    } else if fuel == 0 {
        None
    } else {
        pure_compute((fuel - 1) as nat, g, fns, args, pin)
    }
}

/// The value at input `i` of node `n`.
pub open spec fn pure_in(
    fuel: nat,
    g: GraphData,
    fns: Seq<FunctionDef>,
    args: CacheModel,
    n: NodeId,
    i: usize,
) -> Option<Option<ValueModel>>
    decreases fuel, 1nat, 0nat,
{
    match source_pos(g.wires@, InPinId { node: n, input: i }) {
        None => Some(None),
        Some(k) => pure_out(fuel, g, fns, args, g.wires@[k].0),
    }
}

pub open spec fn pure_binary(
    fuel: nat,
    g: GraphData,
    fns: Seq<FunctionDef>,
    args: CacheModel,
    kind: NodeKind,
    n: NodeId,
) -> Option<Option<ValueModel>>
    decreases fuel, 2nat, 0nat,
{
    match pure_in(fuel, g, fns, args, n, 0) {
        None => None,
        Some(None) => Some(None),
        Some(Some(a)) => if !takes_first(kind, a) {
            Some(None)
        } else {
            match pure_in(fuel, g, fns, args, n, 1) {
                None => None,
                Some(None) => Some(None),
                Some(Some(b)) => Some(apply_binary(kind, a, b)),
            }
        },
    }
}

pub open spec fn pure_not(
    fuel: nat,
    g: GraphData,
    fns: Seq<FunctionDef>,
    args: CacheModel,
    n: NodeId,
) -> Option<Option<ValueModel>>
    decreases fuel, 2nat, 0nat,
{
    match pure_in(fuel, g, fns, args, n, 0) {
        None => None,
        Some(None) => Some(None),
        Some(Some(a)) => Some(apply_not(a)),
    }
}

pub open spec fn pure_shift(
    fuel: nat,
    g: GraphData,
    fns: Seq<FunctionDef>,
    args: CacheModel,
    kind: NodeKind,
    n: NodeId,
) -> Option<Option<ValueModel>>
    decreases fuel, 2nat, 0nat,
{
    match pure_in(fuel, g, fns, args, n, 1) {
        None => None,
        Some(Some(ValueModel::Byte(amount))) => match pure_in(fuel, g, fns, args, n, 0) {
            None => None,
            Some(None) => Some(None),
            Some(Some(a)) => Some(apply_shift(kind, a, amount)),
        },
        Some(_) => Some(None),
    }
}

pub open spec fn pure_concat(
    fuel: nat,
    g: GraphData,
    fns: Seq<FunctionDef>,
    args: CacheModel,
    n: NodeId,
    count: usize,
    i: usize,
    acc: Seq<u8>,
) -> Option<Option<ValueModel>>
    decreases fuel, 2nat, count - i,
{
    if i >= count {
        Some(Some(ValueModel::Bytes(acc)))
    } else {
        match pure_in(fuel, g, fns, args, n, i) {
            None => None,
            Some(Some(ValueModel::Byte(b))) => pure_concat(
                fuel,
                g,
                fns,
                args,
                n,
                count,
                (i + 1) as usize,
                acc.push(b),
            ),
            Some(_) => Some(None),
        }
    }
}

pub open spec fn pure_pack(
    fuel: nat,
    g: GraphData,
    fns: Seq<FunctionDef>,
    args: CacheModel,
    n: NodeId,
    i: u8,
    byte: u8,
) -> Option<Option<ValueModel>>
    decreases fuel, 2nat, 8 - i,
{
    if i >= 8 {
        Some(Some(ValueModel::Byte(byte)))
    } else {
        match pure_in(fuel, g, fns, args, n, i as usize) {
            None => None,
            Some(Some(ValueModel::Bit(bit))) => pure_pack(
                fuel,
                g,
                fns,
                args,
                n,
                (i + 1) as u8,
                if bit {
                    byte | (1u8 << i)
                } else {
                    byte
                },
            ),
            Some(_) => Some(None),
        }
    }
}

pub open spec fn pure_slice(
    fuel: nat,
    g: GraphData,
    fns: Seq<FunctionDef>,
    args: CacheModel,
    n: NodeId,
) -> Option<Option<ValueModel>>
    decreases fuel, 2nat, 0nat,
{
    match pure_in(fuel, g, fns, args, n, 0) {
        None => None,
        Some(Some(ValueModel::Word(w))) => match pure_in(fuel, g, fns, args, n, 1) {
            None => None,
            Some(Some(ValueModel::Byte(off))) => if off >= 64 {
                None
            } else {
                Some(Some(ValueModel::Byte(slice_byte(w, off))))
            },
            Some(_) => Some(None),
        },
        Some(_) => Some(None),
    }
}

pub open spec fn pure_unpack(
    fuel: nat,
    g: GraphData,
    fns: Seq<FunctionDef>,
    args: CacheModel,
    n: NodeId,
    o: usize,
) -> Option<Option<ValueModel>>
    decreases fuel, 2nat, 0nat,
{
    match pure_in(fuel, g, fns, args, n, 0) {
        None => None,
        Some(Some(ValueModel::Byte(b))) => if o >= 8 {
            None
        } else {
            Some(Some(ValueModel::Bit(unpack_bit(b, o))))
        },
        Some(_) => Some(None),
    }
}

/// The arguments of a call: each `Source` output of the callee (from position `k`)
/// receives the value at the caller's next input.
pub open spec fn pure_args(
    fuel: nat,
    g: GraphData,
    fns: Seq<FunctionDef>,
    args: CacheModel,
    n: NodeId,
    sub: GraphData,
    k: nat,
    arg: nat,
    acc: CacheModel,
) -> Option<CacheModel>
    decreases fuel, 2nat, sub.nodes@.len() - k,
{
    if k >= sub.nodes@.len() {
        Some(acc)
    } else if sub.nodes@[k as int].1 is Source {
        match pure_in(fuel, g, fns, args, n, arg as usize) {
            None => None,
            Some(v) => pure_args(
                fuel,
                g,
                fns,
                args,
                n,
                sub,
                k + 1,
                arg + 1,
                acc.insert(OutPinId { node: NodeId(sub.nodes@[k as int].0), output: 0 }, v),
            ),
        }
    } else {
        pure_args(fuel, g, fns, args, n, sub, k + 1, arg, acc)
    }
}

/// The value of output pin `pin` from its node.
pub open spec fn pure_compute(
    fuel: nat,
    g: GraphData,
    fns: Seq<FunctionDef>,
    args: CacheModel,
    pin: OutPinId,
) -> Option<Option<ValueModel>>
    decreases fuel, 3nat, 0nat,
{
    match node_pos(g.nodes@, pin.node.0) {
        None => None,
        Some(p) => {
            let kind = g.nodes@[p].1;
            let n = pin.node;
            let o = pin.output;
            match kind {
                NodeKind::Constant(values) => Some(
                    if o < values.len() {
                        Some(values@[o as int]@)
                    } else {
                        None
                    },
                ),
                NodeKind::And | NodeKind::Or | NodeKind::Xor | NodeKind::Nand | NodeKind::Nor
                | NodeKind::Add | NodeKind::Sub | NodeKind::Mul | NodeKind::Div | NodeKind::Mod => {
                    pure_binary(fuel, g, fns, args, kind, n)
                },
                NodeKind::Not => pure_not(fuel, g, fns, args, n),
                NodeKind::Shl | NodeKind::Shr => pure_shift(fuel, g, fns, args, kind, n),
                NodeKind::Concat { count } => pure_concat(
                    fuel,
                    g,
                    fns,
                    args,
                    n,
                    count as usize,
                    0,
                    Seq::empty(),
                ),
                NodeKind::Slice => pure_slice(fuel, g, fns, args, n),
                NodeKind::Pack => pure_pack(fuel, g, fns, args, n, 0, 0),
                NodeKind::Unpack => pure_unpack(fuel, g, fns, args, n, o),
                NodeKind::FunctionCall { def_index, .. } => if def_index < fns.len() {
                    let sub = fns[def_index as int].graph;
                    match pure_args(fuel, g, fns, args, n, sub, 0, 0, Map::empty()) {
                        None => None,
                        Some(sa) => sink_model(fuel, sub, fns, sa, o, 0),
                    }
                } else {
                    Some(None)
                },
                _ => Some(None),
            }
        },
    }
}

/// `v` is the value of `pin` (with `args` at the `Source` outputs), for some depth bound.
pub open spec fn denotes(
    g: GraphData,
    fns: Seq<FunctionDef>,
    args: CacheModel,
    pin: OutPinId,
    v: Option<ValueModel>,
) -> bool {
    exists|f: nat| #[trigger] pure_out(f, g, fns, args, pin) == Some(v)
}

// ----- more depth never changes a completed result -----

pub proof fn lemma_mono_out(
    f: nat,
    f2: nat,
    g: GraphData,
    fns: Seq<FunctionDef>,
    args: CacheModel,
    pin: OutPinId,
)
    requires
        f <= f2,
        pure_out(f, g, fns, args, pin) is Some,
    ensures
        pure_out(f2, g, fns, args, pin) == pure_out(f, g, fns, args, pin),
    decreases f, 0nat, 0nat,
{
    if !args.contains_key(pin) {
        lemma_mono_compute((f - 1) as nat, (f2 - 1) as nat, g, fns, args, pin);
    }
}

pub proof fn lemma_mono_in(
    f: nat,
    f2: nat,
    g: GraphData,
    fns: Seq<FunctionDef>,
    args: CacheModel,
    n: NodeId,
    i: usize,
)
    requires
        f <= f2,
        pure_in(f, g, fns, args, n, i) is Some,
    ensures
        pure_in(f2, g, fns, args, n, i) == pure_in(f, g, fns, args, n, i),
    decreases f, 1nat, 0nat,
{
    match source_pos(g.wires@, InPinId { node: n, input: i }) {
        Some(k) => lemma_mono_out(f, f2, g, fns, args, g.wires@[k].0),
        None => {},
    }
}

proof fn lemma_mono_two(
    f: nat,
    f2: nat,
    g: GraphData,
    fns: Seq<FunctionDef>,
    args: CacheModel,
    n: NodeId,
    first: usize,
    second: usize,
)
    requires
        f <= f2,
    ensures
        pure_in(f, g, fns, args, n, first) is Some ==> pure_in(f2, g, fns, args, n, first) == pure_in(
            f,
            g,
            fns,
            args,
            n,
            first,
        ),
        pure_in(f, g, fns, args, n, second) is Some ==> pure_in(f2, g, fns, args, n, second)
            == pure_in(f, g, fns, args, n, second),
    decreases f, 2nat, 0nat,
{
    if pure_in(f, g, fns, args, n, first) is Some {
        lemma_mono_in(f, f2, g, fns, args, n, first);
    }
    if pure_in(f, g, fns, args, n, second) is Some {
        lemma_mono_in(f, f2, g, fns, args, n, second);
    }
}

pub proof fn lemma_mono_concat(
    f: nat,
    f2: nat,
    g: GraphData,
    fns: Seq<FunctionDef>,
    args: CacheModel,
    n: NodeId,
    count: usize,
    i: usize,
    acc: Seq<u8>,
)
    requires
        f <= f2,
        pure_concat(f, g, fns, args, n, count, i, acc) is Some,
    ensures
        pure_concat(f2, g, fns, args, n, count, i, acc) == pure_concat(
            f,
            g,
            fns,
            args,
            n,
            count,
            i,
            acc,
        ),
    decreases f, 2nat, count - i,
{
    if i < count {
        lemma_mono_in(f, f2, g, fns, args, n, i);
        match pure_in(f, g, fns, args, n, i) {
            Some(Some(ValueModel::Byte(b))) => lemma_mono_concat(
                f,
                f2,
                g,
                fns,
                args,
                n,
                count,
                (i + 1) as usize,
                acc.push(b),
            ),
            _ => {},
        }
    }
}

pub proof fn lemma_mono_pack(
    f: nat,
    f2: nat,
    g: GraphData,
    fns: Seq<FunctionDef>,
    args: CacheModel,
    n: NodeId,
    i: u8,
    byte: u8,
)
    requires
        f <= f2,
        pure_pack(f, g, fns, args, n, i, byte) is Some,
    ensures
        pure_pack(f2, g, fns, args, n, i, byte) == pure_pack(f, g, fns, args, n, i, byte),
    decreases f, 2nat, 8 - i,
{
    if i < 8 {
        lemma_mono_in(f, f2, g, fns, args, n, i as usize);
        match pure_in(f, g, fns, args, n, i as usize) {
            Some(Some(ValueModel::Bit(bit))) => lemma_mono_pack(
                f,
                f2,
                g,
                fns,
                args,
                n,
                (i + 1) as u8,
                if bit {
                    byte | (1u8 << i)
                } else {
                    byte
                },
            ),
            _ => {},
        }
    }
}

pub proof fn lemma_mono_args(
    f: nat,
    f2: nat,
    g: GraphData,
    fns: Seq<FunctionDef>,
    args: CacheModel,
    n: NodeId,
    sub: GraphData,
    k: nat,
    arg: nat,
    acc: CacheModel,
)
    requires
        f <= f2,
        pure_args(f, g, fns, args, n, sub, k, arg, acc) is Some,
    ensures
        pure_args(f2, g, fns, args, n, sub, k, arg, acc) == pure_args(
            f,
            g,
            fns,
            args,
            n,
            sub,
            k,
            arg,
            acc,
        ),
    decreases f, 2nat, sub.nodes@.len() - k,
{
    if k < sub.nodes@.len() {
        if sub.nodes@[k as int].1 is Source {
            lemma_mono_in(f, f2, g, fns, args, n, arg as usize);
            match pure_in(f, g, fns, args, n, arg as usize) {
                Some(v) => lemma_mono_args(
                    f,
                    f2,
                    g,
                    fns,
                    args,
                    n,
                    sub,
                    k + 1,
                    arg + 1,
                    acc.insert(OutPinId { node: NodeId(sub.nodes@[k as int].0), output: 0 }, v),
                ),
                None => {},
            }
        } else {
            lemma_mono_args(f, f2, g, fns, args, n, sub, k + 1, arg, acc);
        }
    }
}

pub proof fn lemma_mono_compute(
    f: nat,
    f2: nat,
    g: GraphData,
    fns: Seq<FunctionDef>,
    args: CacheModel,
    pin: OutPinId,
)
    requires
        f <= f2,
        pure_compute(f, g, fns, args, pin) is Some,
    ensures
        pure_compute(f2, g, fns, args, pin) == pure_compute(f, g, fns, args, pin),
    decreases f, 3nat, 0nat,
{
    match node_pos(g.nodes@, pin.node.0) {
        None => {},
        Some(p) => {
            let kind = g.nodes@[p].1;
            let n = pin.node;
            match kind {
                NodeKind::And | NodeKind::Or | NodeKind::Xor | NodeKind::Nand | NodeKind::Nor
                | NodeKind::Add | NodeKind::Sub | NodeKind::Mul | NodeKind::Div | NodeKind::Mod => {
                    lemma_mono_two(f, f2, g, fns, args, n, 0, 1);
                },
                NodeKind::Not => lemma_mono_two(f, f2, g, fns, args, n, 0, 0),
                NodeKind::Shl | NodeKind::Shr => lemma_mono_two(f, f2, g, fns, args, n, 1, 0),
                NodeKind::Concat { count } => lemma_mono_concat(
                    f,
                    f2,
                    g,
                    fns,
                    args,
                    n,
                    count as usize,
                    0,
                    Seq::empty(),
                ),
                NodeKind::Slice => lemma_mono_two(f, f2, g, fns, args, n, 0, 1),
                NodeKind::Pack => lemma_mono_pack(f, f2, g, fns, args, n, 0, 0),
                NodeKind::Unpack => lemma_mono_two(f, f2, g, fns, args, n, 0, 0),
                NodeKind::FunctionCall { def_index, .. } => if def_index < fns.len() {
                    let sub = fns[def_index as int].graph;
                    lemma_mono_args(f, f2, g, fns, args, n, sub, 0, 0, Map::empty());
                    match pure_args(f, g, fns, args, n, sub, 0, 0, Map::empty()) {
                        Some(sa) => lemma_model_mono_sink(f, f2, sub, fns, sa, pin.output, 0),
                        None => {},
                    }
                },
                _ => {},
            }
        },
    }
}

/// A pin has at most one value: any two depth bounds that complete agree.
pub proof fn lemma_denotes_unique(
    g: GraphData,
    fns: Seq<FunctionDef>,
    args: CacheModel,
    pin: OutPinId,
    v1: Option<ValueModel>,
    v2: Option<ValueModel>,
)
    requires
        denotes(g, fns, args, pin, v1),
        denotes(g, fns, args, pin, v2),
    ensures
        v1 == v2,
{
    let f1 = choose|f: nat| #[trigger] pure_out(f, g, fns, args, pin) == Some(v1);
    let f2 = choose|f: nat| #[trigger] pure_out(f, g, fns, args, pin) == Some(v2);
    if f1 <= f2 {
        lemma_mono_out(f1, f2, g, fns, args, pin);
    } else {
        lemma_mono_out(f2, f1, g, fns, args, pin);
    }
}

} // verus!
