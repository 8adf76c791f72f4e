use egui_snarl::Snarl;
use vstd::prelude::*;

use crate::graph::{GraphData, InPinId, NodeId, OutPinId};
use crate::snarl_graph::{
    snarl_connect, snarl_disconnect, snarl_node_copy, snarl_nodes, snarl_sources_of, snarl_wires,
};
use crate::text::string_of;
use crate::types::{
    in_type_of, lemma_pin_types_by_model, out_type_of, values_view, KindModel, NodeKind, NodeValue,
    WireType,
};

verus! {

/// Every wire joins two stored nodes.
pub open spec fn wired(nodes: Map<usize, NodeKind>, wires: Set<(OutPinId, InPinId)>) -> bool {
    forall|w: (OutPinId, InPinId)|
        #[trigger] wires.contains(w) ==> nodes.contains_key(w.0.node.0) && nodes.contains_key(
            w.1.node.0,
        )
}

/// The output `from` carries the type that the input `to` expects.
pub open spec fn accepts(nodes: Map<usize, NodeKind>, from: OutPinId, to: InPinId) -> bool {
    out_type_of(nodes[from.node.0]@, from.output) == in_type_of(nodes[to.node.0]@, to.input)
}

/// Every wire joins an output to an input of the same type.
pub open spec fn well_typed(nodes: Map<usize, NodeKind>, wires: Set<(OutPinId, InPinId)>) -> bool {
    forall|w: (OutPinId, InPinId)| #[trigger] wires.contains(w) ==> accepts(nodes, w.0, w.1)
}

/// No input has two wires.
pub open spec fn single_sourced(wires: Set<(OutPinId, InPinId)>) -> bool {
    forall|a: (OutPinId, InPinId), b: (OutPinId, InPinId)|
        #[trigger] wires.contains(a) && #[trigger] wires.contains(b) && a.1 == b.1 ==> a == b
}

/// The wires of `wires` that end elsewhere than at `to`, with `from -> to` added.
pub open spec fn rewired(wires: Set<(OutPinId, InPinId)>, from: OutPinId, to: InPinId) -> Set<
    (OutPinId, InPinId),
> {
    wires.filter(|w: (OutPinId, InPinId)| w.1 != to).insert((from, to))
}

/// The connection that the editor makes when a wire is dragged from `from` to `to`. When
/// the output's wire type differs from the input's, nothing changes and `false` is
/// returned; otherwise every wire into `to` is removed, `from -> to` is added and `true` is
/// returned. Afterwards `to` has the one source `from`, and an editor graph whose inputs
/// have one source each, or whose wires are all well typed, stays so.
pub fn connect_typed(s: &mut Snarl<NodeKind>, from: OutPinId, to: InPinId) -> (r: bool)
    requires
        snarl_nodes(*old(s)).contains_key(from.node.0),
        snarl_nodes(*old(s)).contains_key(to.node.0),
        wired(snarl_nodes(*old(s)), snarl_wires(*old(s))),
    ensures
        r == accepts(snarl_nodes(*old(s)), from, to),
        snarl_nodes(*final(s)) == snarl_nodes(*old(s)),
        r ==> snarl_wires(*final(s)) == rewired(snarl_wires(*old(s)), from, to),
        !r ==> snarl_wires(*final(s)) == snarl_wires(*old(s)),
        wired(snarl_nodes(*final(s)), snarl_wires(*final(s))),
        r ==> forall|o: OutPinId| #[trigger] snarl_wires(*final(s)).contains((o, to)) <==> o == from,
        single_sourced(snarl_wires(*old(s))) ==> single_sourced(snarl_wires(*final(s))),
        well_typed(snarl_nodes(*old(s)), snarl_wires(*old(s))) ==> well_typed(
            snarl_nodes(*final(s)),
            snarl_wires(*final(s)),
        ),
{
    let ghost n0 = snarl_nodes(*s);
    let ghost w0 = snarl_wires(*s);
    let source = snarl_node_copy(s, from.node.0);
    let target = snarl_node_copy(s, to.node.0);
    let from_type = source.output_wire_type(from.output);
    let to_type = target.input_wire_type(to.input);
    proof {
        lemma_pin_types_by_model(&source, from.output);
        lemma_pin_types_by_model(&target, to.input);
    }
    if from_type != to_type {
        return false;
    }
    let remotes = snarl_sources_of(s, to);
    let mut k: usize = 0;
    while k < remotes.len()
        invariant
            k <= remotes@.len(),
            remotes@.no_duplicates(),
            forall|o: OutPinId| #[trigger] remotes@.contains(o) <==> w0.contains((o, to)),
            wired(n0, w0),
            n0.contains_key(to.node.0),
            snarl_nodes(*s) == n0,
            snarl_wires(*s) == w0.filter(
                |w: (OutPinId, InPinId)|
                    !(w.1 == to && exists|j: int| 0 <= j < k && #[trigger] remotes@[j] == w.0),
            ),
        decreases remotes@.len() - k,
    {
        let remote = remotes[k];
        proof {
            assert(remotes@.contains(remote));
            assert(w0.contains((remote, to)));
        }
        snarl_disconnect(s, remote, to);
        proof {
            assert(snarl_wires(*s) =~= w0.filter(
                |w: (OutPinId, InPinId)|
                    !(w.1 == to && exists|j: int| 0 <= j < k + 1 && #[trigger] remotes@[j] == w.0),
            )) by {
                assert forall|w: (OutPinId, InPinId)|
                    (exists|j: int| 0 <= j < k + 1 && #[trigger] remotes@[j] == w.0) <==> ((exists|j: int|
                        0 <= j < k && #[trigger] remotes@[j] == w.0) || w.0 == remote) by {
                    if w.0 == remote {
                        assert(remotes@[k as int] == w.0);
                    }
                }
            }
        }
        k = k + 1;
    }
    proof {
        assert(snarl_wires(*s) =~= w0.filter(|w: (OutPinId, InPinId)| w.1 != to)) by {
            assert forall|w: (OutPinId, InPinId)| w0.contains(w) && w.1 == to implies exists|j: int|
                0 <= j < remotes@.len() && #[trigger] remotes@[j] == w.0 by {
                assert(remotes@.contains(w.0));
            }
        }
    }
    snarl_connect(s, from, to);
    proof {
        let w1 = snarl_wires(*s);
        assert(w1 =~= rewired(w0, from, to));
        assert forall|o: OutPinId| #[trigger] w1.contains((o, to)) <==> o == from by {}
        assert forall|w: (OutPinId, InPinId)| #[trigger] w1.contains(w) implies n0.contains_key(
            w.0.node.0,
        ) && n0.contains_key(w.1.node.0) by {
            if w != (from, to) {
                assert(w0.contains(w));
            }
        }
        if single_sourced(w0) {
            assert forall|a: (OutPinId, InPinId), b: (OutPinId, InPinId)|
                #[trigger] w1.contains(a) && #[trigger] w1.contains(b) && a.1 == b.1 implies a == b by {
                if a != (from, to) && b != (from, to) {
                    assert(w0.contains(a) && w0.contains(b));
                }
            }
        }
        if well_typed(n0, w0) {
            assert forall|w: (OutPinId, InPinId)| #[trigger] w1.contains(w) implies accepts(
                n0,
                w.0,
                w.1,
            ) by {
                if w != (from, to) {
                    assert(w0.contains(w));
                }
            }
        }
    }
    true
}

/// The graph a new project starts with: a `Source` with an empty file name (id 0) wired
/// into a `Sink` (id 1).
pub fn starter_graph() -> (g: GraphData)
    ensures
        g@.nodes == seq![(0usize, KindModel::Source { filename: ""@ }), (1usize, KindModel::Sink)],
        g@.wires == seq![
            (OutPinId { node: NodeId(0), output: 0 }, InPinId { node: NodeId(1), input: 0 }),
        ],
{
    let g = GraphData {
        nodes: vec![(0, NodeKind::Source { filename: string_of("") }), (1, NodeKind::Sink)],
        wires: vec![(OutPinId { node: NodeId(0), output: 0 }, InPinId { node: NodeId(1), input: 0 })],
    };
    assert(g@.nodes =~= seq![(0usize, KindModel::Source { filename: ""@ }), (1usize, KindModel::Sink)]);
    g
}

/// Gives a `Constant` node one more output, holding `v`; other kinds stay as they are.
pub fn add_constant_output(kind: &mut NodeKind, v: NodeValue)
    ensures
        final(kind)@ == match old(kind)@ {
            KindModel::Constant(values) => KindModel::Constant(values.push(v@)),
            other => other,
        },
{
    match kind {
        NodeKind::Constant(values) => {
            let ghost before = values@;
            let ghost added = v@;
            values.push(v);
            assert(values_view(values@) =~= values_view(before).push(added));
        },
        _ => {},
    }
}

/// Removes the last output of a `Constant` node that has one; other nodes stay as they are.
pub fn remove_constant_output(kind: &mut NodeKind)
    ensures
        final(kind)@ == match old(kind)@ {
            KindModel::Constant(values) => if values.len() > 0 {
                KindModel::Constant(values.drop_last())
            } else {
                KindModel::Constant(values)
            },
            other => other,
        },
{
    match kind {
        NodeKind::Constant(values) => {
            if values.len() > 0 {
                let ghost before = values@;
                values.pop();
                assert(values_view(values@) =~= values_view(before).drop_last());
            }
        },
        _ => {},
    }
}

/// Gives a `Concat` node one more input; other kinds stay as they are. The count is a
/// byte, so a `Concat` must have fewer than 255 inputs.
pub fn add_concat_input(kind: &mut NodeKind)
    requires
        old(kind)@ matches KindModel::Concat { count } ==> count < 255,
    ensures
        final(kind)@ == match old(kind)@ {
            KindModel::Concat { count } => KindModel::Concat { count: (count + 1) as u8 },
            other => other,
        },
{
    match kind {
        NodeKind::Concat { count } => {
            *count = *count + 1;
        },
        _ => {},
    }
}

/// Removes the last input of a `Concat` node that has more than one; other nodes stay as
/// they are.
pub fn remove_concat_input(kind: &mut NodeKind)
    ensures
        final(kind)@ == match old(kind)@ {
            KindModel::Concat { count } => if count > 1 {
                KindModel::Concat { count: (count - 1) as u8 }
            } else {
                KindModel::Concat { count }
            },
            other => other,
        },
{
    match kind {
        NodeKind::Concat { count } => {
            if *count > 1 {
                *count = *count - 1;
            }
        },
        _ => {},
    }
}

/// The nodes offered when a wire whose pin carries `wt` is dropped on empty canvas; an
/// unknown type is taken as `Byte`, and a `Sink` is offered for a `Byte` wire in the root
/// graph only.
pub open spec fn offer_of(wt: Option<WireType>, in_subgraph: bool) -> Seq<KindModel> {
    match wt {
        Some(WireType::Bit) => seq![KindModel::And, KindModel::Or, KindModel::Not, KindModel::Pack],
        Some(WireType::Word) => seq![KindModel::Add, KindModel::Sub, KindModel::And, KindModel::Slice],
        _ => if in_subgraph {
            seq![KindModel::And, KindModel::Concat { count: 2 }, KindModel::Unpack]
        } else {
            seq![KindModel::And, KindModel::Concat { count: 2 }, KindModel::Unpack, KindModel::Sink]
        },
    }
}

/// The nodes the editor offers, in menu order, when a wire whose pin carries `wt` is
/// dropped on empty canvas.
pub fn dropped_wire_offer(wt: Option<WireType>, in_subgraph: bool) -> (r: Vec<NodeKind>)
    ensures
        r@.map_values(|k: NodeKind| k@) == offer_of(wt, in_subgraph),
{
    let r = match wt {
        Some(WireType::Bit) => vec![NodeKind::And, NodeKind::Or, NodeKind::Not, NodeKind::Pack],
        Some(WireType::Word) => vec![NodeKind::Add, NodeKind::Sub, NodeKind::And, NodeKind::Slice],
        _ => {
            let mut v = vec![NodeKind::And, NodeKind::Concat { count: 2 }, NodeKind::Unpack];
            if !in_subgraph {
                v.push(NodeKind::Sink);
            }
            v
        },
    };
    assert(r@.map_values(|k: NodeKind| k@) =~= offer_of(wt, in_subgraph));
    r
}

/// The sections of the menu for adding a node on empty canvas.
#[derive(Clone, Copy, Debug, PartialEq, Eq, Structural)]
pub enum MenuSection {
    Values,
    Bitwise,
    Arithmetic,
    ByteManipulation,
    Terminals,
}

/// The nodes a section of the add-node menu offers, in menu order; a `Sink` is offered in
/// the root graph only.
pub open spec fn menu_of(section: MenuSection, in_subgraph: bool) -> Seq<KindModel> {
    match section {
        MenuSection::Values => seq![KindModel::Constant(Seq::empty())],
        MenuSection::Bitwise => seq![
            KindModel::And,
            KindModel::Or,
            KindModel::Xor,
            KindModel::Not,
            KindModel::Nand,
            KindModel::Nor,
            KindModel::Shl,
            KindModel::Shr,
        ],
        MenuSection::Arithmetic => seq![
            KindModel::Add,
            KindModel::Sub,
            KindModel::Mul,
            KindModel::Div,
            KindModel::Mod,
        ],
        MenuSection::ByteManipulation => seq![
            KindModel::Concat { count: 2 },
            KindModel::Slice,
            KindModel::Pack,
            KindModel::Unpack,
        ],
        MenuSection::Terminals => if in_subgraph {
            Seq::empty()
        } else {
            seq![KindModel::Sink]
        },
    }
}

/// The nodes a section of the add-node menu offers, in menu order.
pub fn graph_menu_offer(section: MenuSection, in_subgraph: bool) -> (r: Vec<NodeKind>)
    ensures
        r@.map_values(|k: NodeKind| k@) == menu_of(section, in_subgraph),
{
    let r = match section {
        MenuSection::Values => vec![NodeKind::Constant(Vec::new())],
        MenuSection::Bitwise => vec![
            NodeKind::And,
            NodeKind::Or,
            NodeKind::Xor,
            NodeKind::Not,
            NodeKind::Nand,
            NodeKind::Nor,
            NodeKind::Shl,
            NodeKind::Shr,
        ],
        MenuSection::Arithmetic => vec![
            NodeKind::Add,
            NodeKind::Sub,
            NodeKind::Mul,
            NodeKind::Div,
            NodeKind::Mod,
        ],
        MenuSection::ByteManipulation => vec![
            NodeKind::Concat { count: 2 },
            NodeKind::Slice,
            NodeKind::Pack,
            NodeKind::Unpack,
        ],
        MenuSection::Terminals => if in_subgraph {
            Vec::new()
        } else {
            vec![NodeKind::Sink]
        },
    };
    proof {
        if section == MenuSection::Values {
            assert(values_view(Seq::<NodeValue>::empty()) =~= Seq::<crate::types::ValueModel>::empty());
        }
    }
    assert(r@.map_values(|k: NodeKind| k@) =~= menu_of(section, in_subgraph));
    r
}

} // verus!
