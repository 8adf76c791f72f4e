use vstd::prelude::*;

use crate::denote::{denotes, lemma_denotes_unique, pure_in, pure_out, pure_pack};
use crate::eval_laws::{
    acyclic_by, law_eval_agrees_with_meaning_when_acyclic, law_eval_covers_every_output,
};
use crate::graph::{
    lemma_node_pos_from, lemma_source_pos_from, node_pos, source_pos, FunctionDef, GraphData,
    InPinId, NodeId, OutPinId,
};
use crate::model::{eval_graph_model, evaluates, max_fuel, unpack_bit};
use crate::types::{KindModel, NodeKind, ValueModel};

verus! {

/// The low `i` bits set (`i <= 8`).
pub open spec fn low_mask(i: u8) -> u8 {
    (((1u16 << (i as u16)) - 1u16) as u8)
}

proof fn lemma_pack_step(x: u8, i: u8)
    by (bit_vector)
    requires
        i < 8,
    ensures
        ((x >> i) & 1u8) != 0u8 ==> ((x & (((1u16 << (i as u16)) - 1u16) as u8)) | (1u8 << i)) == (x
            & (((1u16 << ((i + 1) as u16)) - 1u16) as u8)),
        ((x >> i) & 1u8) == 0u8 ==> (x & (((1u16 << (i as u16)) - 1u16) as u8)) == (x & (((1u16
            << ((i + 1) as u16)) - 1u16) as u8)),
{
}

proof fn lemma_mask_ends(x: u8)
    by (bit_vector)
    ensures
        (x & (((1u16 << 0u16) - 1u16) as u8)) == 0u8,
        (x & (((1u16 << 8u16) - 1u16) as u8)) == x,
{
}

/// A `Pack` node whose inputs `i..8` carry the bits `i..8` of `x`, having gathered the low
/// `i` bits of `x`, gives `x`.
proof fn lemma_pack_gathers(
    f: nat,
    g: GraphData,
    fns: Seq<FunctionDef>,
    args: Map<OutPinId, Option<ValueModel>>,
    n: NodeId,
    x: u8,
    i: u8,
)
    requires
        i <= 8,
        forall|j: u8|
            i <= j < 8 ==> #[trigger] pure_in(f, g, fns, args, n, j as usize) == Some(
                Some(ValueModel::Bit(unpack_bit(x, j as usize))),
            ),
    ensures
        pure_pack(f, g, fns, args, n, i, x & low_mask(i)) == Some(Some(ValueModel::Byte(x))),
    decreases 8 - i,
{
    if i >= 8 {
        lemma_mask_ends(x);
    } else {
        lemma_pack_step(x, i);
        assert(pure_in(f, g, fns, args, n, i as usize) == Some(
            Some(ValueModel::Bit(unpack_bit(x, i as usize))),
        ));
        assert(((i as usize) as u8) == i);
        lemma_pack_gathers(f, g, fns, args, n, x, (i + 1) as u8);
    }
}

/// A `Pack` node whose input `j` carries bit `j` of the byte `x`, for each `j < 8`, gives
/// `x`: packing is least significant bit first, as unpacking is.
pub proof fn law_pack_of_bits(
    f: nat,
    g: GraphData,
    fns: Seq<FunctionDef>,
    args: Map<OutPinId, Option<ValueModel>>,
    n: NodeId,
    x: u8,
)
    requires
        forall|j: u8|
            j < 8 ==> #[trigger] pure_in(f, g, fns, args, n, j as usize) == Some(
                Some(ValueModel::Bit(unpack_bit(x, j as usize))),
            ),
    ensures
        pure_pack(f, g, fns, args, n, 0, 0) == Some(Some(ValueModel::Byte(x))),
{
    lemma_mask_ends(x);
    lemma_pack_gathers(f, g, fns, args, n, x, 0);
}

/// The wire from output `o` of node `a` to input `i` of node `b`.
pub open spec fn wire_of(a: usize, o: usize, b: usize, i: usize) -> (OutPinId, InPinId) {
    (OutPinId { node: NodeId(a), output: o }, InPinId { node: NodeId(b), input: i })
}

/// `g` is a constant byte `x` (node 0) unpacked into eight bits (node 1) that are packed
/// again (node 2): the wire `0.0 -> 1.0`, then `1.j -> 2.j` for each `j < 8`.
pub open spec fn unpack_then_pack(g: GraphData, x: u8) -> bool {
    &&& g.nodes@.len() == 3
    &&& g.nodes@[0].0 == 0 && g.nodes@[0].1@ == KindModel::Constant(seq![ValueModel::Byte(x)])
    &&& g.nodes@[1].0 == 1 && g.nodes@[1].1 is Unpack
    &&& g.nodes@[2].0 == 2 && g.nodes@[2].1 is Pack
    &&& g.wires@.len() == 9
    &&& g.wires@[0] == wire_of(0, 0, 1, 0)
    &&& forall|j: int| 0 <= j < 8 ==> #[trigger] g.wires@[j + 1] == wire_of(1, j as usize, 2, j as usize)
}

pub proof fn lemma_first_source(wires: Seq<(OutPinId, InPinId)>, pin: InPinId, p: int)
    requires
        0 <= p < wires.len(),
        wires[p].1 == pin,
        forall|j: int| 0 <= j < p ==> wires[j].1 != pin,
    ensures
        source_pos(wires, pin) == Some(p),
{
    lemma_source_pos_from(wires, pin, 0);
}

/// Pack undoes Unpack: evaluating a graph that unpacks a constant byte into its eight bits
/// and packs them again gives the byte back at the `Pack` output.
pub proof fn law_pack_undoes_unpack(g: GraphData, fns: Seq<FunctionDef>, x: u8)
    requires
        unpack_then_pack(g, x),
        evaluates(g, fns),
    ensures
        eval_graph_model(max_fuel(), g, fns).unwrap()[OutPinId { node: NodeId(2), output: 0 }]
            == Some(ValueModel::Byte(x)),
{
    let args = Map::<OutPinId, Option<ValueModel>>::empty();
    let nodes = g.nodes@;
    let wires = g.wires@;
    lemma_node_pos_from(nodes, 0, 0);
    lemma_node_pos_from(nodes, 1, 0);
    lemma_node_pos_from(nodes, 2, 0);
    assert(node_pos(nodes, 0) == Some(0int));
    assert(node_pos(nodes, 1) == Some(1int));
    assert(node_pos(nodes, 2) == Some(2int));
    // The unpacked byte reaches the Unpack input.
    lemma_first_source(wires, InPinId { node: NodeId(1), input: 0 }, 0);
    let values = match nodes[0].1 {
        NodeKind::Constant(v) => v,
        _ => arbitrary(),
    };
    assert(values@.len() == 1 && values@[0]@ == ValueModel::Byte(x)) by {
        assert(crate::types::values_view(values@) == seq![ValueModel::Byte(x)]);
        assert(crate::types::values_view(values@)[0] == values@[0]@);
    }
    assert(pure_out(1, g, fns, args, OutPinId { node: NodeId(0), output: 0 }) == Some(
        Some(ValueModel::Byte(x)),
    ));
    assert(pure_in(1, g, fns, args, NodeId(1), 0) == Some(Some(ValueModel::Byte(x))));
    // Each Pack input carries one bit of the byte.
    assert forall|j: u8| j < 8 implies #[trigger] pure_in(2, g, fns, args, NodeId(2), j as usize) == Some(
        Some(ValueModel::Bit(unpack_bit(x, j as usize))),
    ) by {
        let pin = InPinId { node: NodeId(2), input: j as usize };
        assert(wires[j as int + 1] == wire_of(1, j as usize, 2, j as usize));
        assert forall|k: int| 0 <= k < j as int + 1 implies wires[k].1 != pin by {
            if k > 0 {
                assert(wires[(k - 1) + 1] == wire_of(1, (k - 1) as usize, 2, (k - 1) as usize));
            }
        }
        lemma_first_source(wires, pin, j as int + 1);
        assert(pure_out(2, g, fns, args, OutPinId { node: NodeId(1), output: j as usize }) == Some(
            Some(ValueModel::Bit(unpack_bit(x, j as usize))),
        ));
    }
    law_pack_of_bits(2, g, fns, args, NodeId(2), x);
    let p = OutPinId { node: NodeId(2), output: 0 };
    assert(pure_out(3, g, fns, args, p) == Some(Some(ValueModel::Byte(x))));
    // The evaluation visits the Pack output and, the graph being acyclic, gives its meaning.
    law_eval_covers_every_output(g, fns, 2, 0);
    let rank = |id: usize| id as nat;
    assert(acyclic_by(g, rank)) by {
        assert forall|k: int| 0 <= k < g.wires@.len() implies rank((#[trigger] g.wires@[k]).0.node.0) < rank(
            g.wires@[k].1.node.0,
        ) by {
            if k > 0 {
                assert(g.wires@[(k - 1) + 1] == wire_of(1, (k - 1) as usize, 2, (k - 1) as usize));
            }
        }
    }
    law_eval_agrees_with_meaning_when_acyclic(g, fns, p);
    assert(denotes(g, fns, args, p, Some(ValueModel::Byte(x))));
    lemma_denotes_unique(g, fns, args, p, eval_graph_model(max_fuel(), g, fns).unwrap()[p], Some(ValueModel::Byte(x)));
}

} // verus!
