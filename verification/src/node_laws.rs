use vstd::arithmetic::power2::pow2;
use vstd::prelude::*;

use crate::denote::{
    denotes, lemma_denotes_unique, pure_args, pure_concat, pure_in, pure_out, pure_pack,
};
use crate::eval_laws::{
    acyclic_by, law_eval_agrees_with_meaning_when_acyclic, law_eval_covers_every_output,
};
use crate::graph::{lemma_node_pos_from, node_pos, FunctionDef, GraphData, InPinId, NodeId, OutPinId};
use crate::model::{eval_graph_model, evaluates, max_fuel};
use crate::pack_laws::{lemma_first_source, wire_of};
use crate::model::{
    apply_binary, apply_not, apply_shift, eval_output_model, sink_model, slice_byte, takes_first,
    unpack_bit,
};
use crate::types::{values_view, KindModel, NodeKind, ValueModel};

verus! {

// ----- what each operation computes from its inputs -----

/// `g` is a constant (node 0) whose outputs carry `values`, wired in order into the inputs
/// of one node of kind `k` (node 1): output `i` of node 0 feeds input `i` of node 1.
pub open spec fn fed_by_constant(g: GraphData, k: KindModel, values: Seq<ValueModel>) -> bool {
    &&& g.nodes@.len() == 2
    &&& g.nodes@[0].0 == 0 && g.nodes@[0].1@ == KindModel::Constant(values)
    &&& g.nodes@[1].0 == 1 && g.nodes@[1].1@ == k
    &&& g.wires@.len() == values.len()
    &&& forall|i: int| 0 <= i < values.len() ==> #[trigger] g.wires@[i] == wire_of(0, i as usize, 1, i as usize)
}

/// The value of output `o` of node 1 in the table that `eval_graph` returns.
pub open spec fn result_at(g: GraphData, fns: Seq<FunctionDef>, o: usize) -> Option<ValueModel> {
    eval_graph_model(max_fuel(), g, fns).unwrap()[OutPinId { node: NodeId(1), output: o }]
}

/// Input `i` of node 1 receives `values[i]`.
proof fn lemma_inputs(g: GraphData, fns: Seq<FunctionDef>, k: KindModel, values: Seq<ValueModel>, i: int)
    requires
        fed_by_constant(g, k, values),
        0 <= i < values.len(),
    ensures
        pure_in(2, g, fns, Map::empty(), NodeId(1), i as usize) == Some(Some(values[i])),
{
    let nodes = g.nodes@;
    let wires = g.wires@;
    lemma_node_pos_from(nodes, 0, 0);
    assert(node_pos(nodes, 0) == Some(0int));
    let pin = InPinId { node: NodeId(1), input: i as usize };
    assert(wires[i] == wire_of(0, i as usize, 1, i as usize));
    assert forall|j: int| 0 <= j < i implies wires[j].1 != pin by {
        assert(wires[j] == wire_of(0, j as usize, 1, j as usize));
    }
    lemma_first_source(wires, pin, i);
    let vs = match nodes[0].1 {
        NodeKind::Constant(v) => v,
        _ => arbitrary(),
    };
    assert(values_view(vs@) == values);
    assert(values_view(vs@)[i] == vs@[i]@);
    assert(pure_out(2, g, fns, Map::empty(), OutPinId { node: NodeId(0), output: i as usize }) == Some(
        Some(values[i]),
    ));
}

/// An output of node `m` (0 or 1) that has a value by the recursive meaning has that value
/// in the table that `eval_graph` returns.
proof fn lemma_result_at_node(
    g: GraphData,
    fns: Seq<FunctionDef>,
    k: KindModel,
    values: Seq<ValueModel>,
    m: usize,
    o: usize,
    f: nat,
    v: Option<ValueModel>,
)
    requires
        fed_by_constant(g, k, values),
        evaluates(g, fns),
        m < 2,
        o < g.nodes@[m as int].1.output_count(),
        pure_out(f, g, fns, Map::empty(), OutPinId { node: NodeId(m), output: o }) == Some(v),
    ensures
        eval_graph_model(max_fuel(), g, fns).unwrap()[OutPinId { node: NodeId(m), output: o }] == v,
{
    let p = OutPinId { node: NodeId(m), output: o };
    law_eval_covers_every_output(g, fns, m as int, o);
    let rank = |id: usize| id as nat;
    assert(acyclic_by(g, rank)) by {
        assert forall|j: int| 0 <= j < g.wires@.len() implies rank((#[trigger] g.wires@[j]).0.node.0) < rank(
            g.wires@[j].1.node.0,
        ) by {
            assert(g.wires@[j] == wire_of(0, j as usize, 1, j as usize));
        }
    }
    law_eval_agrees_with_meaning_when_acyclic(g, fns, p);
    assert(denotes(g, fns, Map::empty(), p, v));
    lemma_denotes_unique(g, fns, Map::empty(), p, eval_graph_model(max_fuel(), g, fns).unwrap()[p], v);
}

/// An output of node 1 that has a value by the recursive meaning has that value in the
/// table that `eval_graph` returns.
proof fn lemma_result(
    g: GraphData,
    fns: Seq<FunctionDef>,
    k: KindModel,
    values: Seq<ValueModel>,
    o: usize,
    f: nat,
    v: Option<ValueModel>,
)
    requires
        fed_by_constant(g, k, values),
        evaluates(g, fns),
        o < g.nodes@[1].1.output_count(),
        pure_out(f, g, fns, Map::empty(), OutPinId { node: NodeId(1), output: o }) == Some(v),
    ensures
        result_at(g, fns, o) == v,
{
    lemma_result_at_node(g, fns, k, values, 1, o, f, v);
}

/// The kind of node 1 is found under its id.
proof fn lemma_node_one(g: GraphData, k: KindModel, values: Seq<ValueModel>)
    requires
        fed_by_constant(g, k, values),
    ensures
        node_pos(g.nodes@, 1) == Some(1int),
{
    lemma_node_pos_from(g.nodes@, 1, 0);
}

/// A two-input operation fed `a` and `b` computes `apply_binary` of them, once its first
/// input is accepted.
proof fn lemma_binary_result(g: GraphData, fns: Seq<FunctionDef>, k: KindModel, a: ValueModel, b: ValueModel)
    requires
        fed_by_constant(g, k, seq![a, b]),
        evaluates(g, fns),
        k is And || k is Or || k is Xor || k is Nand || k is Nor || k is Add || k is Sub || k is Mul
            || k is Div || k is Mod,
    ensures
        result_at(g, fns, 0) == if takes_first(g.nodes@[1].1, a) {
            apply_binary(g.nodes@[1].1, a, b)
        } else {
            None
        },
{
    let values = seq![a, b];
    lemma_inputs(g, fns, k, values, 0);
    lemma_inputs(g, fns, k, values, 1);
    lemma_node_one(g, k, values);
    let v = if takes_first(g.nodes@[1].1, a) {
        apply_binary(g.nodes@[1].1, a, b)
    } else {
        None
    };
    assert(pure_out(3, g, fns, Map::empty(), OutPinId { node: NodeId(1), output: 0 }) == Some(v));
    lemma_result(g, fns, k, values, 0, 3, v);
}

/// A shift fed `a` and `b` computes `apply_shift` of them when `b` is a byte amount, and
/// gives no value otherwise.
proof fn lemma_shift_result(g: GraphData, fns: Seq<FunctionDef>, k: KindModel, a: ValueModel, b: ValueModel)
    requires
        fed_by_constant(g, k, seq![a, b]),
        evaluates(g, fns),
        k is Shl || k is Shr,
    ensures
        result_at(g, fns, 0) == match b {
            ValueModel::Byte(amount) => apply_shift(g.nodes@[1].1, a, amount),
            _ => None,
        },
{
    let values = seq![a, b];
    lemma_inputs(g, fns, k, values, 0);
    lemma_inputs(g, fns, k, values, 1);
    lemma_node_one(g, k, values);
    let v = match b {
        ValueModel::Byte(amount) => apply_shift(g.nodes@[1].1, a, amount),
        _ => None,
    };
    assert(pure_out(3, g, fns, Map::empty(), OutPinId { node: NodeId(1), output: 0 }) == Some(v));
    lemma_result(g, fns, k, values, 0, 3, v);
}

/// A `Not` fed `a` computes `apply_not` of it.
proof fn lemma_not_result(g: GraphData, fns: Seq<FunctionDef>, a: ValueModel)
    requires
        fed_by_constant(g, KindModel::Not, seq![a]),
        evaluates(g, fns),
    ensures
        result_at(g, fns, 0) == apply_not(a),
{
    let values = seq![a];
    lemma_inputs(g, fns, KindModel::Not, values, 0);
    lemma_node_one(g, KindModel::Not, values);
    let v = apply_not(a);
    assert(pure_out(3, g, fns, Map::empty(), OutPinId { node: NodeId(1), output: 0 }) == Some(v));
    lemma_result(g, fns, KindModel::Not, values, 0, 3, v);
}

/// Byte arithmetic wraps modulo 256: an `Add`, `Sub` or `Mul` node whose input 0 carries
/// the byte `x` and input 1 the byte `y` gives `x + y`, `x - y` or `x * y` modulo 256;
/// `Div` and `Mod` give the quotient and remainder of `x` by `y`, and no value when `y` is 0.
pub proof fn law_byte_arithmetic(g: GraphData, fns: Seq<FunctionDef>, k: KindModel, x: u8, y: u8)
    requires
        fed_by_constant(g, k, seq![ValueModel::Byte(x), ValueModel::Byte(y)]),
        evaluates(g, fns),
    ensures
        k is Add ==> result_at(g, fns, 0) == Some(ValueModel::Byte(((x + y) % 256) as u8)),
        k is Sub ==> result_at(g, fns, 0) == Some(ValueModel::Byte(((x - y) % 256) as u8)),
        k is Mul ==> result_at(g, fns, 0) == Some(ValueModel::Byte(((x * y) % 256) as u8)),
        k is Div ==> result_at(g, fns, 0) == if y == 0 {
            None
        } else {
            Some(ValueModel::Byte((x / y) as u8))
        },
        k is Mod ==> result_at(g, fns, 0) == if y == 0 {
            None
        } else {
            Some(ValueModel::Byte((x % y) as u8))
        },
{
    if k is Add || k is Sub || k is Mul || k is Div || k is Mod {
        lemma_binary_result(g, fns, k, ValueModel::Byte(x), ValueModel::Byte(y));
    }
}

/// Word arithmetic wraps modulo 2^64: an `Add`, `Sub` or `Mul` node whose input 0 carries
/// the word `x` and input 1 the word `y` gives `x + y`, `x - y` or `x * y` modulo 2^64;
/// `Div` and `Mod` give the quotient and remainder of `x` by `y`, and no value when `y` is 0.
pub proof fn law_word_arithmetic(g: GraphData, fns: Seq<FunctionDef>, k: KindModel, x: u64, y: u64)
    requires
        fed_by_constant(g, k, seq![ValueModel::Word(x), ValueModel::Word(y)]),
        evaluates(g, fns),
    ensures
        k is Add ==> result_at(g, fns, 0) == Some(
            ValueModel::Word(((x + y) % 0x1_0000_0000_0000_0000) as u64),
        ),
        k is Sub ==> result_at(g, fns, 0) == Some(
            ValueModel::Word(((x - y) % 0x1_0000_0000_0000_0000) as u64),
        ),
        k is Mul ==> result_at(g, fns, 0) == Some(
            ValueModel::Word(((x * y) % 0x1_0000_0000_0000_0000) as u64),
        ),
        k is Div ==> result_at(g, fns, 0) == if y == 0 {
            None
        } else {
            Some(ValueModel::Word((x / y) as u64))
        },
        k is Mod ==> result_at(g, fns, 0) == if y == 0 {
            None
        } else {
            Some(ValueModel::Word((x % y) as u64))
        },
{
    if k is Add || k is Sub || k is Mul || k is Div || k is Mod {
        lemma_binary_result(g, fns, k, ValueModel::Word(x), ValueModel::Word(y));
    }
}

/// Bit `i` of the byte `x`: the parity of `x / 2^i`.
pub open spec fn bit8(x: u8, i: u8) -> bool {
    (x as nat / pow2(i as nat)) % 2 == 1
}

/// Bit `i` of the word `x`: the parity of `x / 2^i`.
pub open spec fn bit64(x: u64, i: u64) -> bool {
    (x as nat / pow2(i as nat)) % 2 == 1
}

proof fn lemma_bit8(v: u8, i: u8)
    requires
        i < 8,
    ensures
        bit8(v, i) == (((v >> i) & 1u8) == 1u8),
{
    vstd::bits::lemma_u8_shr_is_div(v, i);
    let z: u8 = v >> i;
    assert((z & 1u8 == 1u8) == (z % 2 == 1)) by (bit_vector);
}

proof fn lemma_bit64(v: u64, i: u64)
    requires
        i < 64,
    ensures
        bit64(v, i) == (((v >> i) & 1u64) == 1u64),
{
    vstd::bits::lemma_u64_shr_is_div(v, i);
    let z: u64 = v >> i;
    assert((z & 1u64 == 1u64) == (z % 2 == 1)) by (bit_vector);
}

/// The byte a node gives at output 0, or 0 when it gives no byte.
pub open spec fn byte_result(g: GraphData, fns: Seq<FunctionDef>) -> u8 {
    match result_at(g, fns, 0) {
        Some(ValueModel::Byte(r)) => r,
        _ => 0,
    }
}

/// The word a node gives at output 0, or 0 when it gives no word.
pub open spec fn word_result(g: GraphData, fns: Seq<FunctionDef>) -> u64 {
    match result_at(g, fns, 0) {
        Some(ValueModel::Word(r)) => r,
        _ => 0,
    }
}

/// Logic on bits: `And`, `Or`, `Xor`, `Nand` and `Nor` nodes whose inputs carry the bits
/// `x` and `y` give both, either, exactly one (the two differ), not both, and neither.
pub proof fn law_bit_logic(g: GraphData, fns: Seq<FunctionDef>, k: KindModel, x: bool, y: bool)
    requires
        fed_by_constant(g, k, seq![ValueModel::Bit(x), ValueModel::Bit(y)]),
        evaluates(g, fns),
    ensures
        k is And ==> result_at(g, fns, 0) == Some(ValueModel::Bit(x && y)),
        k is Or ==> result_at(g, fns, 0) == Some(ValueModel::Bit(x || y)),
        k is Xor ==> result_at(g, fns, 0) == Some(ValueModel::Bit(x != y)),
        k is Nand ==> result_at(g, fns, 0) == Some(ValueModel::Bit(!(x && y))),
        k is Nor ==> result_at(g, fns, 0) == Some(ValueModel::Bit(!(x || y))),
        k is Xor && x == y ==> result_at(g, fns, 0) == Some(ValueModel::Bit(false)),
{
    if k is And || k is Or || k is Xor || k is Nand || k is Nor {
        lemma_binary_result(g, fns, k, ValueModel::Bit(x), ValueModel::Bit(y));
    }
}

/// Logic on bytes works bit by bit: bit `i` of what an `And`, `Or`, `Xor`, `Nand` or `Nor`
/// node gives is that logic of bit `i` of its two input bytes.
pub proof fn law_byte_logic(g: GraphData, fns: Seq<FunctionDef>, k: KindModel, x: u8, y: u8, i: u8)
    requires
        fed_by_constant(g, k, seq![ValueModel::Byte(x), ValueModel::Byte(y)]),
        evaluates(g, fns),
        k is And || k is Or || k is Xor || k is Nand || k is Nor,
        i < 8,
    ensures
        result_at(g, fns, 0) == Some(ValueModel::Byte(byte_result(g, fns))),
        k is And ==> bit8(byte_result(g, fns), i) == (bit8(x, i) && bit8(y, i)),
        k is Or ==> bit8(byte_result(g, fns), i) == (bit8(x, i) || bit8(y, i)),
        k is Xor ==> bit8(byte_result(g, fns), i) == (bit8(x, i) != bit8(y, i)),
        k is Nand ==> bit8(byte_result(g, fns), i) == !(bit8(x, i) && bit8(y, i)),
        k is Nor ==> bit8(byte_result(g, fns), i) == !(bit8(x, i) || bit8(y, i)),
{
    lemma_binary_result(g, fns, k, ValueModel::Byte(x), ValueModel::Byte(y));
    let r: u8 = byte_result(g, fns);
    lemma_bit8(r, i);
    lemma_bit8(x, i);
    lemma_bit8(y, i);
    assert(((x & y) >> i) & 1u8 == 1u8 <==> ((x >> i) & 1u8 == 1u8 && (y >> i) & 1u8 == 1u8)) by (bit_vector);
    assert(((x | y) >> i) & 1u8 == 1u8 <==> ((x >> i) & 1u8 == 1u8 || (y >> i) & 1u8 == 1u8)) by (bit_vector);
    assert(((x ^ y) >> i) & 1u8 == 1u8 <==> ((x >> i) & 1u8 == 1u8) != ((y >> i) & 1u8 == 1u8)) by (bit_vector);
    assert(((!(x & y)) >> i) & 1u8 == 1u8 <==> !((x >> i) & 1u8 == 1u8 && (y >> i) & 1u8 == 1u8))
        by (bit_vector)
        requires
            i < 8,
    ;
    assert(((!(x | y)) >> i) & 1u8 == 1u8 <==> !((x >> i) & 1u8 == 1u8 || (y >> i) & 1u8 == 1u8))
        by (bit_vector)
        requires
            i < 8,
    ;
}

/// Logic on words works bit by bit: bit `i` of what an `And`, `Or`, `Xor`, `Nand` or `Nor`
/// node gives is that logic of bit `i` of its two input words.
pub proof fn law_word_logic(g: GraphData, fns: Seq<FunctionDef>, k: KindModel, x: u64, y: u64, i: u64)
    requires
        fed_by_constant(g, k, seq![ValueModel::Word(x), ValueModel::Word(y)]),
        evaluates(g, fns),
        k is And || k is Or || k is Xor || k is Nand || k is Nor,
        i < 64,
    ensures
        result_at(g, fns, 0) == Some(ValueModel::Word(word_result(g, fns))),
        k is And ==> bit64(word_result(g, fns), i) == (bit64(x, i) && bit64(y, i)),
        k is Or ==> bit64(word_result(g, fns), i) == (bit64(x, i) || bit64(y, i)),
        k is Xor ==> bit64(word_result(g, fns), i) == (bit64(x, i) != bit64(y, i)),
        k is Nand ==> bit64(word_result(g, fns), i) == !(bit64(x, i) && bit64(y, i)),
        k is Nor ==> bit64(word_result(g, fns), i) == !(bit64(x, i) || bit64(y, i)),
{
    lemma_binary_result(g, fns, k, ValueModel::Word(x), ValueModel::Word(y));
    let r: u64 = word_result(g, fns);
    lemma_bit64(r, i);
    lemma_bit64(x, i);
    lemma_bit64(y, i);
    assert(((x & y) >> i) & 1u64 == 1u64 <==> ((x >> i) & 1u64 == 1u64 && (y >> i) & 1u64 == 1u64)) by (bit_vector);
    assert(((x | y) >> i) & 1u64 == 1u64 <==> ((x >> i) & 1u64 == 1u64 || (y >> i) & 1u64 == 1u64)) by (bit_vector);
    assert(((x ^ y) >> i) & 1u64 == 1u64 <==> ((x >> i) & 1u64 == 1u64) != ((y >> i) & 1u64 == 1u64)) by (bit_vector);
    assert(((!(x & y)) >> i) & 1u64 == 1u64 <==> !((x >> i) & 1u64 == 1u64 && (y >> i) & 1u64 == 1u64))
        by (bit_vector)
        requires
            i < 64,
    ;
    assert(((!(x | y)) >> i) & 1u64 == 1u64 <==> !((x >> i) & 1u64 == 1u64 || (y >> i) & 1u64 == 1u64))
        by (bit_vector)
        requires
            i < 64,
    ;
}

/// `Not` inverts: a bit becomes its opposite, and every bit of a byte or a word flips.
pub proof fn law_not(g: GraphData, fns: Seq<FunctionDef>, v: ValueModel, i: u64)
    requires
        fed_by_constant(g, KindModel::Not, seq![v]),
        evaluates(g, fns),
        i < 64,
    ensures
        v matches ValueModel::Bit(x) ==> result_at(g, fns, 0) == Some(ValueModel::Bit(!x)),
        v matches ValueModel::Byte(x) ==> result_at(g, fns, 0) == Some(ValueModel::Byte(byte_result(g, fns)))
            && (i < 8 ==> bit8(byte_result(g, fns), i as u8) == !bit8(x, i as u8)),
        v matches ValueModel::Word(x) ==> result_at(g, fns, 0) == Some(ValueModel::Word(word_result(g, fns)))
            && bit64(word_result(g, fns), i) == !bit64(x, i),
        v is Bytes ==> result_at(g, fns, 0) is None,
{
    lemma_not_result(g, fns, v);
    match v {
        ValueModel::Byte(x) => {
            if i < 8 {
                let j: u8 = i as u8;
                lemma_bit8(byte_result(g, fns), j);
                lemma_bit8(x, j);
                assert(((!x) >> j) & 1u8 == 1u8 <==> !((x >> j) & 1u8 == 1u8)) by (bit_vector)
                    requires
                        j < 8,
                ;
            }
        },
        ValueModel::Word(x) => {
            lemma_bit64(word_result(g, fns), i);
            lemma_bit64(x, i);
            assert(((!x) >> i) & 1u64 == 1u64 <==> !((x >> i) & 1u64 == 1u64)) by (bit_vector)
                requires
                    i < 64,
            ;
        },
        _ => {},
    }
}

/// Shifts on words move bits: a `Shl` node fed the word `x` and the byte `a` moves every bit
/// of `x` up by `s = a % 64` places (bit `j` of the result is bit `j - s` of `x`, and the
/// `s` lowest bits are 0), which is `x * 2^s` whenever that fits in a word; a `Shr` node
/// moves them down by `s` places, which is `x / 2^s`.
pub proof fn law_word_shift(g: GraphData, fns: Seq<FunctionDef>, k: KindModel, x: u64, a: u8, j: u64)
    requires
        fed_by_constant(g, k, seq![ValueModel::Word(x), ValueModel::Byte(a)]),
        evaluates(g, fns),
        k is Shl || k is Shr,
        j < 64,
    ensures
        result_at(g, fns, 0) == Some(ValueModel::Word(word_result(g, fns))),
        k is Shl ==> bit64(word_result(g, fns), j) == (j >= a % 64 && bit64(x, (j - a % 64) as u64)),
        k is Shl && x * pow2((a % 64) as nat) <= u64::MAX ==> word_result(g, fns) == x * pow2(
            (a % 64) as nat,
        ),
        k is Shr ==> bit64(word_result(g, fns), j) == (j + a % 64 < 64 && bit64(x, (j + a % 64) as u64)),
        k is Shr ==> word_result(g, fns) == x as nat / pow2((a % 64) as nat),
{
    lemma_shift_result(g, fns, k, ValueModel::Word(x), ValueModel::Byte(a));
    let r: u64 = word_result(g, fns);
    let t: u32 = ((a as u32) % 64) as u32;
    let s: u64 = (a % 64) as u64;
    lemma_bit64(r, j);
    assert(x << t == x << s) by (bit_vector)
        requires
            t == s,
    ;
    assert(x >> t == x >> s) by (bit_vector)
        requires
            t == s,
    ;
    if k is Shl {
        assert(r == x << t);
        if j >= s {
            let d: u64 = (j - s) as u64;
            lemma_bit64(x, d);
            assert(((r >> j) & 1u64 == 1u64) == ((x >> d) & 1u64 == 1u64)) by (bit_vector)
                requires
                    r == x << s,
                    s < 64,
                    j < 64,
                    d + s == j,
            ;
        } else {
            assert((r >> j) & 1u64 != 1u64) by (bit_vector)
                requires
                    r == x << s,
                    j < s,
            ;
        }
        if x * pow2(s as nat) <= u64::MAX {
            vstd::bits::lemma_u64_shl_is_mul(x, s);
        }
    } else {
        assert(r == x >> t);
        if j + s < 64 {
            let d: u64 = (j + s) as u64;
            lemma_bit64(x, d);
            assert(((r >> j) & 1u64 == 1u64) == ((x >> d) & 1u64 == 1u64)) by (bit_vector)
                requires
                    r == x >> s,
                    s < 64,
                    j < 64,
                    d == j + s,
            ;
        } else {
            assert((r >> j) & 1u64 != 1u64) by (bit_vector)
                requires
                    r == x >> s,
                    s < 64,
                    j < 64,
                    j + s >= 64,
            ;
        }
        vstd::bits::lemma_u64_shr_is_div(x, s);
    }
}

/// Shifts on bytes move bits: a `Shl` node fed the byte `x` and the byte `a` moves every bit
/// of `x` up by `s = a % 8` places (bit `j` of the result is bit `j - s` of `x`, and the `s`
/// lowest bits are 0), which is `x * 2^s` whenever that fits in a byte; a `Shr` node moves
/// them down by `s` places, which is `x / 2^s`.
pub proof fn law_byte_shift(g: GraphData, fns: Seq<FunctionDef>, k: KindModel, x: u8, a: u8, j: u8)
    requires
        fed_by_constant(g, k, seq![ValueModel::Byte(x), ValueModel::Byte(a)]),
        evaluates(g, fns),
        k is Shl || k is Shr,
        j < 8,
    ensures
        result_at(g, fns, 0) == Some(ValueModel::Byte(byte_result(g, fns))),
        k is Shl ==> bit8(byte_result(g, fns), j) == (j >= a % 8 && bit8(x, (j - a % 8) as u8)),
        k is Shl && x * pow2((a % 8) as nat) <= u8::MAX ==> byte_result(g, fns) == x * pow2(
            (a % 8) as nat,
        ),
        k is Shr ==> bit8(byte_result(g, fns), j) == (j + a % 8 < 8 && bit8(x, (j + a % 8) as u8)),
        k is Shr ==> byte_result(g, fns) == x as nat / pow2((a % 8) as nat),
{
    lemma_shift_result(g, fns, k, ValueModel::Byte(x), ValueModel::Byte(a));
    let r: u8 = byte_result(g, fns);
    let t: u32 = ((a as u32) % 8) as u32;
    let s: u8 = a % 8;
    lemma_bit8(r, j);
    assert(x << t == x << s) by (bit_vector)
        requires
            t == s,
    ;
    assert(x >> t == x >> s) by (bit_vector)
        requires
            t == s,
    ;
    if k is Shl {
        assert(r == x << t);
        if j >= s {
            let d: u8 = (j - s) as u8;
            lemma_bit8(x, d);
            assert(((r >> j) & 1u8 == 1u8) == ((x >> d) & 1u8 == 1u8)) by (bit_vector)
                requires
                    r == x << s,
                    s < 8,
                    j < 8,
                    d + s == j,
            ;
        } else {
            assert((r >> j) & 1u8 != 1u8) by (bit_vector)
                requires
                    r == x << s,
                    j < s,
            ;
        }
        if x * pow2(s as nat) <= u8::MAX {
            vstd::bits::lemma_u8_shl_is_mul(x, s);
        }
    } else {
        assert(r == x >> t);
        if j + s < 8 {
            let d: u8 = (j + s) as u8;
            lemma_bit8(x, d);
            assert(((r >> j) & 1u8 == 1u8) == ((x >> d) & 1u8 == 1u8)) by (bit_vector)
                requires
                    r == x >> s,
                    s < 8,
                    j < 8,
                    d == j + s,
            ;
        } else {
            assert((r >> j) & 1u8 != 1u8) by (bit_vector)
                requires
                    r == x >> s,
                    s < 8,
                    j < 8,
                    j + s >= 8,
            ;
        }
        vstd::bits::lemma_u8_shr_is_div(x, s);
    }
}

/// The constant outputs that carry the bytes `bs`, one byte each.
pub open spec fn byte_values(bs: Seq<u8>) -> Seq<ValueModel> {
    bs.map_values(|b: u8| ValueModel::Byte(b))
}

/// A `Concat` node that has read its inputs `0..i` as the first `i` bytes of `bs` reads the
/// rest in order and gives all of `bs`.
proof fn lemma_concat_from(g: GraphData, fns: Seq<FunctionDef>, count: u8, bs: Seq<u8>, i: usize)
    requires
        fed_by_constant(g, KindModel::Concat { count }, byte_values(bs)),
        bs.len() == count,
        i <= count,
    ensures
        pure_concat(2, g, fns, Map::empty(), NodeId(1), count as usize, i, bs.take(i as int)) == Some(
            Some(ValueModel::Bytes(bs)),
        ),
    decreases count - i,
{
    if i < count {
        lemma_inputs(g, fns, KindModel::Concat { count }, byte_values(bs), i as int);
        assert(bs.take(i as int).push(bs[i as int]) =~= bs.take(i + 1));
        lemma_concat_from(g, fns, count, bs, (i + 1) as usize);
    } else {
        assert(bs.take(i as int) =~= bs);
    }
}

/// `Concat` joins its inputs in order: a `Concat` node of `count` inputs whose input `i`
/// carries the byte `bs[i]` gives the bytes `bs`, `count` of them, the byte of input `i`
/// at place `i`.
pub proof fn law_concat(g: GraphData, fns: Seq<FunctionDef>, count: u8, bs: Seq<u8>)
    requires
        fed_by_constant(g, KindModel::Concat { count }, byte_values(bs)),
        bs.len() == count,
        evaluates(g, fns),
    ensures
        result_at(g, fns, 0) == Some(ValueModel::Bytes(bs)),
        forall|i: int| 0 <= i < count ==> #[trigger] byte_values(bs)[i] == ValueModel::Byte(bs[i]),
{
    let k = KindModel::Concat { count };
    lemma_concat_from(g, fns, count, bs, 0);
    assert(bs.take(0) =~= Seq::<u8>::empty());
    lemma_node_one(g, k, byte_values(bs));
    let v = Some(ValueModel::Bytes(bs));
    assert(pure_out(3, g, fns, Map::empty(), OutPinId { node: NodeId(1), output: 0 }) == Some(v));
    lemma_result(g, fns, k, byte_values(bs), 0, 3, v);
}

/// Subtracting undoes adding, on bytes: when one node adds the byte `y` to the byte `x`, a
/// `Sub` node fed that sum as its input 0 and `y` as its input 1 gives back `x`.
pub proof fn law_byte_sub_undoes_add(g1: GraphData, g2: GraphData, fns: Seq<FunctionDef>, x: u8, y: u8)
    requires
        fed_by_constant(g1, KindModel::Add, seq![ValueModel::Byte(x), ValueModel::Byte(y)]),
        evaluates(g1, fns),
        fed_by_constant(g2, KindModel::Sub, seq![ValueModel::Byte(byte_result(g1, fns)), ValueModel::Byte(y)]),
        evaluates(g2, fns),
    ensures
        result_at(g2, fns, 0) == Some(ValueModel::Byte(x)),
{
    law_byte_arithmetic(g1, fns, KindModel::Add, x, y);
    let sum: u8 = byte_result(g1, fns);
    assert(sum == (x + y) % 256);
    law_byte_arithmetic(g2, fns, KindModel::Sub, sum, y);
    assert((sum - y) % 256 == x);
}

/// Subtracting undoes adding, on words: when one node adds the word `y` to the word `x`, a
/// `Sub` node fed that sum as its input 0 and `y` as its input 1 gives back `x`.
pub proof fn law_word_sub_undoes_add(g1: GraphData, g2: GraphData, fns: Seq<FunctionDef>, x: u64, y: u64)
    requires
        fed_by_constant(g1, KindModel::Add, seq![ValueModel::Word(x), ValueModel::Word(y)]),
        evaluates(g1, fns),
        fed_by_constant(g2, KindModel::Sub, seq![ValueModel::Word(word_result(g1, fns)), ValueModel::Word(y)]),
        evaluates(g2, fns),
    ensures
        result_at(g2, fns, 0) == Some(ValueModel::Word(x)),
{
    law_word_arithmetic(g1, fns, KindModel::Add, x, y);
    let sum: u64 = word_result(g1, fns);
    assert(sum == (x + y) % 0x1_0000_0000_0000_0000);
    law_word_arithmetic(g2, fns, KindModel::Sub, sum, y);
    assert((sum - y) % 0x1_0000_0000_0000_0000 == x);
}

/// Dividing undoes multiplying, on words: when one node multiplies the word `x` by a word
/// `y` other than 0 and the product fits in a word, a `Div` node fed that product and `y`
/// gives back `x`.
pub proof fn law_word_div_undoes_mul(g1: GraphData, g2: GraphData, fns: Seq<FunctionDef>, x: u64, y: u64)
    requires
        fed_by_constant(g1, KindModel::Mul, seq![ValueModel::Word(x), ValueModel::Word(y)]),
        evaluates(g1, fns),
        fed_by_constant(g2, KindModel::Div, seq![ValueModel::Word(word_result(g1, fns)), ValueModel::Word(y)]),
        evaluates(g2, fns),
        y != 0,
        x * y <= u64::MAX,
    ensures
        result_at(g2, fns, 0) == Some(ValueModel::Word(x)),
{
    law_word_arithmetic(g1, fns, KindModel::Mul, x, y);
    let p: u64 = word_result(g1, fns);
    assert(0 <= x * y);
    assert(p == x * y);
    law_word_arithmetic(g2, fns, KindModel::Div, p, y);
    vstd::arithmetic::div_mod::lemma_div_by_multiple(x as int, y as int);
}

/// Unpack splits a byte into its bits, least significant first: output `o` of an `Unpack`
/// node fed the byte `x` carries bit `o` of `x`, for each `o < 8`.
pub proof fn law_unpack(g: GraphData, fns: Seq<FunctionDef>, x: u8, o: u8)
    requires
        fed_by_constant(g, KindModel::Unpack, seq![ValueModel::Byte(x)]),
        evaluates(g, fns),
        o < 8,
    ensures
        result_at(g, fns, o as usize) == Some(ValueModel::Bit(bit8(x, o))),
{
    let values = seq![ValueModel::Byte(x)];
    lemma_inputs(g, fns, KindModel::Unpack, values, 0);
    lemma_node_one(g, KindModel::Unpack, values);
    let v = Some(ValueModel::Bit(unpack_bit(x, o as usize)));
    assert(pure_out(3, g, fns, Map::empty(), OutPinId { node: NodeId(1), output: o as usize }) == Some(v));
    lemma_result(g, fns, KindModel::Unpack, values, o as usize, 3, v);
    lemma_bit8(x, o);
    assert(((o as usize) as u8) == o);
    assert((((x >> o) & 1u8) != 0u8) == (((x >> o) & 1u8) == 1u8)) by (bit_vector);
}

/// The constant outputs that carry the bits `bs`, one bit each.
pub open spec fn bit_values(bs: Seq<bool>) -> Seq<ValueModel> {
    bs.map_values(|b: bool| ValueModel::Bit(b))
}

proof fn lemma_set_bit(byte: u8, i: u8, j: u8)
    by (bit_vector)
    requires
        i < 8,
        j < 8,
    ensures
        (((byte | (1u8 << i)) >> j) & 1u8 == 1u8) == (((byte >> j) & 1u8 == 1u8) || j == i),
{
}

/// A `Pack` node that has gathered the bits `bs[0..i]` into the low `i` bits of `byte`
/// gathers the rest and gives the byte whose bit `j` is `bs[j]`.
proof fn lemma_pack_from(g: GraphData, fns: Seq<FunctionDef>, bs: Seq<bool>, i: u8, byte: u8) -> (r: u8)
    requires
        fed_by_constant(g, KindModel::Pack, bit_values(bs)),
        bs.len() == 8,
        i <= 8,
        forall|j: u8| j < 8 ==> #[trigger] bit8(byte, j) == (j < i && bs[j as int]),
    ensures
        pure_pack(2, g, fns, Map::empty(), NodeId(1), i, byte) == Some(Some(ValueModel::Byte(r))),
        forall|j: u8| j < 8 ==> #[trigger] bit8(r, j) == bs[j as int],
    decreases 8 - i,
{
    if i >= 8 {
        byte
    } else {
        lemma_inputs(g, fns, KindModel::Pack, bit_values(bs), i as int);
        assert(((i as int) as usize) == i as usize);
        let b: bool = bs[i as int];
        let nb: u8 = if b {
            byte | (1u8 << i)
        } else {
            byte
        };
        assert forall|j: u8| j < 8 implies #[trigger] bit8(nb, j) == (j < i + 1 && bs[j as int]) by {
            lemma_bit8(nb, j);
            lemma_bit8(byte, j);
            lemma_set_bit(byte, i, j);
        }
        lemma_pack_from(g, fns, bs, (i + 1) as u8, nb)
    }
}

/// Pack gathers eight bits into a byte, least significant first: a `Pack` node whose input
/// `j` carries the bit `bs[j]` gives the byte whose bit `j` is `bs[j]`, for each `j < 8`.
pub proof fn law_pack(g: GraphData, fns: Seq<FunctionDef>, bs: Seq<bool>)
    requires
        fed_by_constant(g, KindModel::Pack, bit_values(bs)),
        bs.len() == 8,
        evaluates(g, fns),
    ensures
        result_at(g, fns, 0) == Some(ValueModel::Byte(byte_result(g, fns))),
        forall|j: u8| j < 8 ==> #[trigger] bit8(byte_result(g, fns), j) == bs[j as int],
{
    assert forall|j: u8| j < 8 implies #[trigger] bit8(0u8, j) == (j < 0 && bs[j as int]) by {
        vstd::arithmetic::power2::lemma_pow2_pos(j as nat);
        vstd::arithmetic::div_mod::lemma_div_of0(pow2(j as nat) as int);
    }
    let r: u8 = lemma_pack_from(g, fns, bs, 0, 0);
    lemma_node_one(g, KindModel::Pack, bit_values(bs));
    let v = Some(ValueModel::Byte(r));
    assert(pure_out(3, g, fns, Map::empty(), OutPinId { node: NodeId(1), output: 0 }) == Some(v));
    lemma_result(g, fns, KindModel::Pack, bit_values(bs), 0, 3, v);
}

/// Slice takes the eight bits of a word that start at a bit offset: a `Slice` node fed the
/// word `w` and the offset `off < 64` gives the byte whose bit `j` is bit `off + j` of `w`
/// (0 past the top of the word), which is `(w / 2^off) % 256`.
pub proof fn law_slice(g: GraphData, fns: Seq<FunctionDef>, w: u64, off: u8, j: u8)
    requires
        fed_by_constant(g, KindModel::Slice, seq![ValueModel::Word(w), ValueModel::Byte(off)]),
        evaluates(g, fns),
        off < 64,
        j < 8,
    ensures
        result_at(g, fns, 0) == Some(ValueModel::Byte(byte_result(g, fns))),
        bit8(byte_result(g, fns), j) == (off + j < 64 && bit64(w, (off + j) as u64)),
        byte_result(g, fns) == (w as nat / pow2(off as nat)) % 256,
{
    let values = seq![ValueModel::Word(w), ValueModel::Byte(off)];
    lemma_inputs(g, fns, KindModel::Slice, values, 0);
    lemma_inputs(g, fns, KindModel::Slice, values, 1);
    lemma_node_one(g, KindModel::Slice, values);
    let v = Some(ValueModel::Byte(slice_byte(w, off)));
    assert(pure_out(3, g, fns, Map::empty(), OutPinId { node: NodeId(1), output: 0 }) == Some(v));
    lemma_result(g, fns, KindModel::Slice, values, 0, 3, v);
    let r: u8 = byte_result(g, fns);
    let s: u64 = off as u64;
    assert(r == ((w >> s) & 0xffu64) as u8);
    lemma_bit8(r, j);
    if s + j < 64 {
        let d: u64 = (s + j) as u64;
        lemma_bit64(w, d);
        assert(((r >> j) & 1u8 == 1u8) == ((w >> d) & 1u64 == 1u64)) by (bit_vector)
            requires
                r == ((w >> s) & 0xffu64) as u8,
                s < 64,
                j < 8,
                d == s + j,
        ;
    } else {
        assert((r >> j) & 1u8 != 1u8) by (bit_vector)
            requires
                r == ((w >> s) & 0xffu64) as u8,
                s < 64,
                j < 8,
                s + j >= 64,
        ;
    }
    vstd::bits::lemma_u64_shr_is_div(w, s);
    let z: u64 = w >> s;
    assert((z & 0xffu64) as u8 == z % 256) by (bit_vector);
}

/// `sub` is a function body that hands its one argument straight to its result: a `Source`
/// (node 0) wired to input 0 of a `Sink` (node 1).
pub open spec fn passes_through(sub: GraphData) -> bool {
    &&& sub.nodes@.len() == 2
    &&& sub.nodes@[0].0 == 0 && sub.nodes@[0].1 is Source
    &&& sub.nodes@[1].0 == 1 && sub.nodes@[1].1 is Sink
    &&& sub.wires@.len() == 1
    &&& sub.wires@[0] == wire_of(0, 0, 1, 0)
}

/// A call hands its input to the callee's `Source` and gives what reaches the callee's
/// `Sink`: a `FunctionCall` node fed the value `v` and calling a function that passes its
/// argument through gives `v`.
pub proof fn law_call_passes_argument(g: GraphData, fns: Seq<FunctionDef>, k: KindModel, v: ValueModel)
    requires
        fed_by_constant(g, k, seq![v]),
        k matches KindModel::FunctionCall { def_index, out_types, .. } && def_index < fns.len()
            && passes_through(fns[def_index as int].graph) && out_types.len() >= 1,
        evaluates(g, fns),
    ensures
        result_at(g, fns, 0) == Some(v),
{
    let values = seq![v];
    lemma_inputs(g, fns, k, values, 0);
    lemma_node_one(g, k, values);
    let def_index: usize = g.nodes@[1].1->def_index;
    let sub = fns[def_index as int].graph;
    let empty = Map::<OutPinId, Option<ValueModel>>::empty();
    let src = OutPinId { node: NodeId(0), output: 0 };
    let sa = empty.insert(src, Some(v));
    assert(pure_args(2, g, fns, empty, NodeId(1), sub, 2, 1, sa) == Some(sa));
    assert(pure_args(2, g, fns, empty, NodeId(1), sub, 1, 1, sa) == Some(sa));
    assert(pure_args(2, g, fns, empty, NodeId(1), sub, 0, 0, empty) == Some(sa));
    lemma_first_source(sub.wires@, InPinId { node: NodeId(1), input: 0 }, 0);
    assert(eval_output_model(2, sub, fns, sa, src) == Some((Some(v), sa)));
    assert(sink_model(2, sub, fns, sa, 0, 1) == Some(Some(v)));
    assert(sink_model(2, sub, fns, sa, 0, 0) == Some(Some(v)));
    assert(pure_out(3, g, fns, Map::empty(), OutPinId { node: NodeId(1), output: 0 }) == Some(Some(v)));
    lemma_result(g, fns, k, values, 0, 3, Some(v));
}

/// A constant gives its values in order: output `o` of a `Constant` node whose values are
/// `values` carries `values[o]`, for each `o` below their number.
pub proof fn law_constant(g: GraphData, fns: Seq<FunctionDef>, k: KindModel, values: Seq<ValueModel>, o: usize)
    requires
        fed_by_constant(g, k, values),
        evaluates(g, fns),
        o < values.len(),
    ensures
        eval_graph_model(max_fuel(), g, fns).unwrap()[OutPinId { node: NodeId(0), output: o }] == Some(
            values[o as int],
        ),
{
    lemma_node_pos_from(g.nodes@, 0, 0);
    let vs = match g.nodes@[0].1 {
        NodeKind::Constant(v) => v,
        _ => arbitrary(),
    };
    assert(values_view(vs@) == values);
    assert(values_view(vs@)[o as int] == vs@[o as int]@);
    let v = Some(values[o as int]);
    assert(pure_out(1, g, fns, Map::empty(), OutPinId { node: NodeId(0), output: o }) == Some(v));
    lemma_result_at_node(g, fns, k, values, 0, o, 1, v);
}

/// Whether two values have the same width.
pub open spec fn same_width(a: ValueModel, b: ValueModel) -> bool {
    ||| a is Bit && b is Bit
    ||| a is Byte && b is Byte
    ||| a is Word && b is Word
}

/// Two-input operations need inputs of one width: an `And`, `Or`, `Xor`, `Nand`, `Nor`,
/// `Add`, `Sub`, `Mul`, `Div` or `Mod` node whose inputs carry values of different widths,
/// or bytes streams, gives no value; arithmetic takes no bits.
pub proof fn law_binary_needs_one_width(g: GraphData, fns: Seq<FunctionDef>, k: KindModel, a: ValueModel, b: ValueModel)
    requires
        fed_by_constant(g, k, seq![a, b]),
        evaluates(g, fns),
        k is And || k is Or || k is Xor || k is Nand || k is Nor || k is Add || k is Sub || k is Mul
            || k is Div || k is Mod,
    ensures
        !same_width(a, b) ==> result_at(g, fns, 0) is None,
        a is Bytes ==> result_at(g, fns, 0) is None,
        (k is Add || k is Sub || k is Mul || k is Div || k is Mod) && a is Bit ==> result_at(g, fns, 0) is None,
{
    lemma_binary_result(g, fns, k, a, b);
}

/// Shifts take a byte or a word and a byte amount: a `Shl` or `Shr` node whose amount is
/// not a byte, or whose value is a bit or a bytes stream, gives no value.
pub proof fn law_shift_needs_byte_amount(g: GraphData, fns: Seq<FunctionDef>, k: KindModel, a: ValueModel, b: ValueModel)
    requires
        fed_by_constant(g, k, seq![a, b]),
        evaluates(g, fns),
        k is Shl || k is Shr,
    ensures
        !(b is Byte) ==> result_at(g, fns, 0) is None,
        (a is Bit || a is Bytes) ==> result_at(g, fns, 0) is None,
{
    lemma_shift_result(g, fns, k, a, b);
}

/// A `Concat` node whose inputs from `i` on include one that carries no byte gives no
/// value, whatever it has read before.
proof fn lemma_concat_stops(g: GraphData, fns: Seq<FunctionDef>, count: u8, values: Seq<ValueModel>, i: usize, acc: Seq<u8>, j: int)
    requires
        fed_by_constant(g, KindModel::Concat { count }, values),
        values.len() == count,
        i <= j < count,
        !(values[j] is Byte),
    ensures
        pure_concat(2, g, fns, Map::empty(), NodeId(1), count as usize, i, acc) == Some(None::<ValueModel>),
    decreases count - i,
{
    lemma_inputs(g, fns, KindModel::Concat { count }, values, i as int);
    if values[i as int] is Byte {
        let b: u8 = values[i as int]->Byte_0;
        lemma_concat_stops(g, fns, count, values, (i + 1) as usize, acc.push(b), j);
    }
}

/// `Concat` takes only bytes: a `Concat` node of `count` inputs one of which carries a
/// value other than a byte gives no value.
pub proof fn law_concat_needs_bytes(g: GraphData, fns: Seq<FunctionDef>, count: u8, values: Seq<ValueModel>, j: int)
    requires
        fed_by_constant(g, KindModel::Concat { count }, values),
        values.len() == count,
        0 <= j < count,
        !(values[j] is Byte),
        evaluates(g, fns),
    ensures
        result_at(g, fns, 0) is None,
{
    let k = KindModel::Concat { count };
    lemma_concat_stops(g, fns, count, values, 0, Seq::empty(), j);
    lemma_node_one(g, k, values);
    assert(pure_out(3, g, fns, Map::empty(), OutPinId { node: NodeId(1), output: 0 }) == Some(None::<ValueModel>));
    lemma_result(g, fns, k, values, 0, 3, None);
}

/// `sub` is a function body of two arguments that gives them back swapped: `Source`s
/// (nodes 0 and 1) wired to inputs 1 and 0 of a `Sink` (node 2).
pub open spec fn swaps_arguments(sub: GraphData) -> bool {
    &&& sub.nodes@.len() == 3
    &&& sub.nodes@[0].0 == 0 && sub.nodes@[0].1 is Source
    &&& sub.nodes@[1].0 == 1 && sub.nodes@[1].1 is Source
    &&& sub.nodes@[2].0 == 2 && sub.nodes@[2].1 is Sink
    &&& sub.wires@.len() == 2
    &&& sub.wires@[0] == wire_of(0, 0, 2, 1)
    &&& sub.wires@[1] == wire_of(1, 0, 2, 0)
}

/// A call hands its inputs to the callee's `Source`s in order and gives, at its output `o`,
/// what reaches input `o` of the callee's `Sink`: a `FunctionCall` node fed `a` and `b` and
/// calling a function that swaps its two arguments gives `b` at output 0 and `a` at output 1.
pub proof fn law_call_orders_arguments(g: GraphData, fns: Seq<FunctionDef>, k: KindModel, a: ValueModel, b: ValueModel)
    requires
        fed_by_constant(g, k, seq![a, b]),
        k matches KindModel::FunctionCall { def_index, out_types, .. } && def_index < fns.len()
            && swaps_arguments(fns[def_index as int].graph) && out_types.len() >= 2,
        evaluates(g, fns),
    ensures
        result_at(g, fns, 0) == Some(b),
        result_at(g, fns, 1) == Some(a),
{
    let values = seq![a, b];
    lemma_inputs(g, fns, k, values, 0);
    lemma_inputs(g, fns, k, values, 1);
    lemma_node_one(g, k, values);
    let def_index: usize = g.nodes@[1].1->def_index;
    let sub = fns[def_index as int].graph;
    let empty = Map::<OutPinId, Option<ValueModel>>::empty();
    let src0 = OutPinId { node: NodeId(0), output: 0 };
    let src1 = OutPinId { node: NodeId(1), output: 0 };
    let sa0 = empty.insert(src0, Some(a));
    let sa = sa0.insert(src1, Some(b));
    assert(pure_args(2, g, fns, empty, NodeId(1), sub, 3, 2, sa) == Some(sa));
    assert(pure_args(2, g, fns, empty, NodeId(1), sub, 2, 2, sa) == Some(sa));
    assert(pure_args(2, g, fns, empty, NodeId(1), sub, 1, 1, sa0) == Some(sa));
    assert(pure_args(2, g, fns, empty, NodeId(1), sub, 0, 0, empty) == Some(sa));
    let w = sub.wires@;
    lemma_first_source(w, InPinId { node: NodeId(2), input: 1 }, 0);
    lemma_first_source(w, InPinId { node: NodeId(2), input: 0 }, 1);
    assert(eval_output_model(2, sub, fns, sa, src0) == Some((Some(a), sa)));
    assert(eval_output_model(2, sub, fns, sa, src1) == Some((Some(b), sa)));
    assert(sink_model(2, sub, fns, sa, 0, 2) == Some(Some(b)));
    assert(sink_model(2, sub, fns, sa, 0, 1) == Some(Some(b)));
    assert(sink_model(2, sub, fns, sa, 0, 0) == Some(Some(b)));
    assert(sink_model(2, sub, fns, sa, 1, 2) == Some(Some(a)));
    assert(sink_model(2, sub, fns, sa, 1, 1) == Some(Some(a)));
    assert(sink_model(2, sub, fns, sa, 1, 0) == Some(Some(a)));
    assert(pure_out(3, g, fns, Map::empty(), OutPinId { node: NodeId(1), output: 0 }) == Some(Some(b)));
    assert(pure_out(3, g, fns, Map::empty(), OutPinId { node: NodeId(1), output: 1 }) == Some(Some(a)));
    lemma_result(g, fns, k, values, 0, 3, Some(b));
    lemma_result(g, fns, k, values, 1, 3, Some(a));
}

/// Outside a call a `Source` has no argument, so it gives no value: in a graph evaluated on
/// its own, the output of a `Source` node is empty.
pub proof fn law_source_alone_gives_nothing(g: GraphData, fns: Seq<FunctionDef>, k: KindModel)
    requires
        fed_by_constant(g, k, Seq::empty()),
        k is Source,
        evaluates(g, fns),
    ensures
        result_at(g, fns, 0) is None,
{
    lemma_node_one(g, k, Seq::empty());
    assert(pure_out(3, g, fns, Map::empty(), OutPinId { node: NodeId(1), output: 0 }) == Some(None::<ValueModel>));
    lemma_result(g, fns, k, Seq::empty(), 0, 3, None);
}

} // verus!
