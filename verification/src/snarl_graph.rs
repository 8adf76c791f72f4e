use std::collections::HashMap;

use egui_snarl::Snarl;
use vstd::prelude::*;

use crate::editor::wired;
use crate::graph::{entries_view, functions_view, FunctionDef, FunctionModel, GraphData, InPinId, NodeId, OutPinId};
use crate::library::{
    calls, calls_resolve, delete_function, deletion_of, index_after_delete,
    law_delete_keeps_calls_resolvable, renumber, renumbered,
};
use crate::types::{KindModel, NodeKind};

verus! {

#[verifier::external_type_specification]
#[verifier::external_body]
#[verifier::reject_recursive_types(T)]
pub struct ExSnarl<T>(Snarl<T>);

/// The nodes that an editor graph holds, by key.
pub uninterp spec fn snarl_nodes(s: Snarl<NodeKind>) -> Map<usize, NodeKind>;

/// The wires that an editor graph holds.
pub uninterp spec fn snarl_wires(s: Snarl<NodeKind>) -> Set<(OutPinId, InPinId)>;

/// No node has ever been removed from the editor graph's slab: every key below the node
/// count is taken, so the next node gets the key equal to the count.
pub uninterp spec fn snarl_packed(s: Snarl<NodeKind>) -> bool;

/// `Snarl::new`: an editor graph with no node and no wire.
#[verifier::external_body]
pub(crate) fn snarl_new() -> (s: Snarl<NodeKind>)
    ensures
        snarl_nodes(s).dom().is_empty(),
        snarl_wires(s).is_empty(),
        snarl_packed(s),
{
    Snarl::new()
}

/// `Snarl::insert_node` at the canvas origin: the node is stored under a key that was free,
/// which is returned; the wires stay. The slab takes its next free key, which, when no node
/// was ever removed, is the node count.
#[verifier::external_body]
pub(crate) fn snarl_insert_node(s: &mut Snarl<NodeKind>, node: NodeKind) -> (id: usize)
    ensures
        !snarl_nodes(*old(s)).contains_key(id),
        snarl_packed(*old(s)) ==> id == snarl_nodes(*old(s)).len() && snarl_packed(*final(s)),
        snarl_nodes(*final(s)) == snarl_nodes(*old(s)).insert(id, node),
        snarl_wires(*final(s)) == snarl_wires(*old(s)),
{
    s.insert_node(egui::Pos2::ZERO, node).0
}

/// `Snarl::connect`: adds the wire `from -> to` (a wire already there stays once) and
/// returns whether it was new; the nodes stay. It panics when either node is missing.
#[verifier::external_body]
pub(crate) fn snarl_connect(s: &mut Snarl<NodeKind>, from: OutPinId, to: InPinId) -> (r: bool)
    requires
        snarl_nodes(*old(s)).contains_key(from.node.0),
        snarl_nodes(*old(s)).contains_key(to.node.0),
    ensures
        snarl_nodes(*final(s)) == snarl_nodes(*old(s)),
        snarl_wires(*final(s)) == snarl_wires(*old(s)).insert((from, to)),
        snarl_packed(*final(s)) == snarl_packed(*old(s)),
        r == !snarl_wires(*old(s)).contains((from, to)),
{
    s.connect(
        egui_snarl::OutPinId { node: egui_snarl::NodeId(from.node.0), output: from.output },
        egui_snarl::InPinId { node: egui_snarl::NodeId(to.node.0), input: to.input },
    )
}

/// `Snarl::node_ids`, each node copied: one entry per stored node, by increasing key.
#[verifier::external_body]
pub(crate) fn snarl_node_list(s: &Snarl<NodeKind>) -> (r: Vec<(usize, NodeKind)>)
    ensures
        forall|a: int, b: int| 0 <= a < b < r@.len() ==> r@[a].0 < r@[b].0,
        forall|k: usize|
            #[trigger] snarl_nodes(*s).contains_key(k) <==> exists|a: int|
                0 <= a < r@.len() && r@[a].0 == k,
        forall|a: int| 0 <= a < r@.len() ==> (#[trigger] r@[a]).1@ == snarl_nodes(*s)[r@[a].0]@,
{
    s.node_ids().map(|(id, n)| (id.0, n.clone())).collect()
}

/// `Snarl::wires`: every stored wire once, in no particular order.
#[verifier::external_body]
pub(crate) fn snarl_wire_list(s: &Snarl<NodeKind>) -> (r: Vec<(OutPinId, InPinId)>)
    ensures
        r@.no_duplicates(),
        r@.to_set() == snarl_wires(*s),
{
    s.wires().map(
        |(o, i)|
            (
                OutPinId { node: NodeId(o.node.0), output: o.output },
                InPinId { node: NodeId(i.node.0), input: i.input },
            ),
    ).collect()
}

/// `Snarl::remove_node`: the node leaves, with every wire that touches it, and is returned.
/// It panics when the node is missing.
#[verifier::external_body]
pub(crate) fn snarl_remove_node(s: &mut Snarl<NodeKind>, id: usize) -> (r: NodeKind)
    requires
        snarl_nodes(*old(s)).contains_key(id),
    ensures
        r == snarl_nodes(*old(s))[id],
        snarl_nodes(*final(s)) == snarl_nodes(*old(s)).remove(id),
        snarl_wires(*final(s)) == snarl_wires(*old(s)).filter(
            |w: (OutPinId, InPinId)| w.0.node.0 != id && w.1.node.0 != id,
        ),
{
    s.remove_node(egui_snarl::NodeId(id))
}

/// Index into the `Snarl`, then `clone`: a copy of the node stored under `id`. Indexing
/// panics when the node is missing.
#[verifier::external_body]
pub(crate) fn snarl_node_copy(s: &Snarl<NodeKind>, id: usize) -> (r: NodeKind)
    requires
        snarl_nodes(*s).contains_key(id),
    ensures
        r@ == snarl_nodes(*s)[id]@,
{
    s[egui_snarl::NodeId(id)].clone()
}

/// `Snarl::in_pin(..).remotes`: the output pins wired into `pin`, each once, in no
/// particular order.
#[verifier::external_body]
pub(crate) fn snarl_sources_of(s: &Snarl<NodeKind>, pin: InPinId) -> (r: Vec<OutPinId>)
    ensures
        r@.no_duplicates(),
        forall|o: OutPinId| #[trigger] r@.contains(o) <==> snarl_wires(*s).contains((o, pin)),
{
    s.in_pin(egui_snarl::InPinId { node: egui_snarl::NodeId(pin.node.0), input: pin.input }).remotes.into_iter().map(
        |o| OutPinId { node: NodeId(o.node.0), output: o.output },
    ).collect()
}

/// `Snarl::disconnect`: removes the wire `from -> to` if it is there and returns whether it
/// was; the nodes stay. It panics when either node is missing.
#[verifier::external_body]
pub(crate) fn snarl_disconnect(s: &mut Snarl<NodeKind>, from: OutPinId, to: InPinId) -> (r: bool)
    requires
        snarl_nodes(*old(s)).contains_key(from.node.0),
        snarl_nodes(*old(s)).contains_key(to.node.0),
    ensures
        snarl_nodes(*final(s)) == snarl_nodes(*old(s)),
        snarl_wires(*final(s)) == snarl_wires(*old(s)).remove((from, to)),
        r == snarl_wires(*old(s)).contains((from, to)),
{
    s.disconnect(
        egui_snarl::OutPinId { node: egui_snarl::NodeId(from.node.0), output: from.output },
        egui_snarl::InPinId { node: egui_snarl::NodeId(to.node.0), input: to.input },
    )
}

/// Assignment through `Snarl`'s `IndexMut`: the node under `id` is replaced; the wires stay.
/// It panics when the node is missing.
#[verifier::external_body]
pub(crate) fn snarl_replace_node(s: &mut Snarl<NodeKind>, id: usize, node: NodeKind)
    requires
        snarl_nodes(*old(s)).contains_key(id),
    ensures
        snarl_nodes(*final(s)) == snarl_nodes(*old(s)).insert(id, node),
        snarl_wires(*final(s)) == snarl_wires(*old(s)),
{
    s[egui_snarl::NodeId(id)] = node;
}


/// The key given, in building an editor graph, to the node ids of the first `k` entries
/// (a later entry with the same id wins).
pub open spec fn remap_of(nodes: Seq<(usize, KindModel)>, ids: Seq<usize>, k: int) -> Map<usize, usize>
    decreases k,
{
    if k <= 0 {
        Map::empty()
    } else {
        remap_of(nodes, ids, k - 1).insert(nodes[k - 1].0, ids[k - 1])
    }
}

/// A wire with both ends renamed by `m`, if both ends have a new name.
pub open spec fn remapped_wire(w: (OutPinId, InPinId), m: Map<usize, usize>) -> Option<(OutPinId, InPinId)> {
    if m.contains_key(w.0.node.0) && m.contains_key(w.1.node.0) {
        Some(
            (
                OutPinId { node: NodeId(m[w.0.node.0]), output: w.0.output },
                InPinId { node: NodeId(m[w.1.node.0]), input: w.1.input },
            ),
        )
    } else {
        None
    }
}

/// The renamed wires among the first `k` wires.
pub open spec fn remapped_wires(wires: Seq<(OutPinId, InPinId)>, m: Map<usize, usize>, k: int) -> Set<
    (OutPinId, InPinId),
> {
    Set::new(
        |x: (OutPinId, InPinId)|
            exists|j: int| 0 <= j < k && #[trigger] remapped_wire(wires[j], m) == Some(x),
    )
}

/// An editor graph's nodes and wires are those of `g`: node `k` of `g` is stored under the
/// fresh key `ids[k]`, and each wire of `g` whose two ends name nodes of `g` is stored with
/// its ends renamed.
pub open spec fn built_from(
    g: crate::graph::GraphModel,
    ids: Seq<usize>,
    nodes: Map<usize, NodeKind>,
    wires: Set<(OutPinId, InPinId)>,
) -> bool {
    &&& ids.len() == g.nodes.len()
    &&& ids.no_duplicates()
    &&& nodes.dom() == ids.to_set()
    &&& forall|k: int| 0 <= k < ids.len() ==> nodes[#[trigger] ids[k]]@ == g.nodes[k].1
    &&& wires == remapped_wires(g.wires, remap_of(g.nodes, ids, ids.len() as int), g.wires.len() as int)
}

proof fn lemma_remap_values(nodes: Seq<(usize, KindModel)>, ids: Seq<usize>, k: int)
    requires
        0 <= k <= nodes.len(),
        k <= ids.len(),
    ensures
        forall|x: usize| #[trigger] remap_of(nodes, ids, k).contains_key(x) ==> exists|a: int|
            0 <= a < k && #[trigger] ids[a] == remap_of(nodes, ids, k)[x],
    decreases k,
{
    if k > 0 {
        lemma_remap_values(nodes, ids, k - 1);
        assert forall|x: usize| #[trigger] remap_of(nodes, ids, k).contains_key(x) implies exists|a: int|
            0 <= a < k && #[trigger] ids[a] == remap_of(nodes, ids, k)[x] by {
            if x == nodes[k - 1].0 {
                assert(ids[k - 1] == remap_of(nodes, ids, k)[x]);
            } else {
                let y = remap_of(nodes, ids, k - 1)[x];
                let a = choose|a: int| 0 <= a < k - 1 && #[trigger] ids[a] == y;
                assert(ids[a] == remap_of(nodes, ids, k)[x]);
            }
        }
    }
}

/// Builds an editor graph holding the nodes and wires of `g`; also returns the key each
/// node got.
fn build_snarl(g: &GraphData) -> (r: (Snarl<NodeKind>, Vec<usize>))
    ensures
        built_from(g@, r.1@, snarl_nodes(r.0), snarl_wires(r.0)),
        wired(snarl_nodes(r.0), snarl_wires(r.0)),
        r.1@ == first_keys(g@.nodes.len()),
        snarl_packed(r.0),
{
    broadcast use vstd::std_specs::hash::group_hash_axioms;

    let ghost gv = g@;
    let mut snarl = snarl_new();
    let mut id_map: HashMap<usize, usize> = HashMap::new();
    let mut ids: Vec<usize> = Vec::new();
    let mut k: usize = 0;
    while k < g.nodes.len()
        invariant
            k <= g.nodes@.len(),
            gv == g@,
            ids@.len() == k,
            ids@.no_duplicates(),
            snarl_nodes(snarl).dom() == ids@.to_set(),
            forall|a: int| 0 <= a < k ==> snarl_nodes(snarl)[#[trigger] ids@[a]]@ == gv.nodes[a].1,
            snarl_wires(snarl).is_empty(),
            id_map@ == remap_of(gv.nodes, ids@, k as int),
            snarl_packed(snarl),
            ids@ == Seq::new(k as nat, |a: int| a as usize),
        decreases g.nodes@.len() - k,
    {
        let ghost before = snarl_nodes(snarl);
        proof {
            ids@.unique_seq_to_set();
        }
        let new_id = snarl_insert_node(&mut snarl, g.nodes[k].1.clone());
        proof {
            assert(!ids@.contains(new_id));
        }
        id_map.insert(g.nodes[k].0, new_id);
        let ghost old_ids = ids@;
        ids.push(new_id);
        proof {
            assert(ids@ =~= Seq::new((k + 1) as nat, |a: int| a as usize));
            assert(ids@.drop_last() == old_ids);
            assert(remap_of(gv.nodes, ids@, k + 1) == remap_of(gv.nodes, ids@, k as int).insert(gv.nodes[k as int].0, new_id));
            assert(forall|j: int| 0 <= j <= k ==> remap_of(gv.nodes, ids@, j) == remap_of(gv.nodes, old_ids, j)) by {
                assert forall|j: int| 0 <= j <= k implies remap_of(gv.nodes, ids@, j) == remap_of(gv.nodes, old_ids, j) by {
                    lemma_remap_prefix(gv.nodes, ids@, old_ids, j);
                }
            }
            assert(snarl_nodes(snarl).dom() =~= ids@.to_set()) by {
                assert forall|x: usize| snarl_nodes(snarl).dom().contains(x) <==> ids@.to_set().contains(x) by {
                    if x == new_id {
                        assert(ids@[k as int] == x);
                    } else if old_ids.contains(x) {
                        let a = choose|a: int| 0 <= a < old_ids.len() && old_ids[a] == x;
                        assert(ids@[a] == x);
                    }
                }
            }
            assert forall|a: int| 0 <= a < k + 1 implies snarl_nodes(snarl)[#[trigger] ids@[a]]@ == gv.nodes[a].1 by {
                if a < k {
                    assert(ids@[a] == old_ids[a]);
                    assert(old_ids.contains(old_ids[a]));
                }
            }
        }
        k = k + 1;
    }
    let ghost m = remap_of(gv.nodes, ids@, ids@.len() as int);
    proof {
        lemma_remap_values(gv.nodes, ids@, ids@.len() as int);
        assert forall|x: usize| #[trigger] m.contains_key(x) implies ids@.contains(m[x]) by {
            let a = choose|a: int| 0 <= a < ids@.len() && #[trigger] ids@[a] == m[x];
        }
    }
    let mut k: usize = 0;
    while k < g.wires.len()
        invariant
            k <= g.wires@.len(),
            gv == g@,
            ids@.len() == gv.nodes.len(),
            id_map@ == m,
            m == remap_of(gv.nodes, ids@, ids@.len() as int),
            forall|x: usize| #[trigger] m.contains_key(x) ==> ids@.contains(m[x]),
            ids@.no_duplicates(),
            snarl_nodes(snarl).dom() == ids@.to_set(),
            forall|a: int| 0 <= a < ids@.len() ==> snarl_nodes(snarl)[#[trigger] ids@[a]]@ == gv.nodes[a].1,
            snarl_wires(snarl) == remapped_wires(gv.wires, m, k as int),
            wired(snarl_nodes(snarl), snarl_wires(snarl)),
            snarl_packed(snarl),
            ids@ == Seq::new(gv.nodes.len(), |a: int| a as usize),
        decreases g.wires@.len() - k,
    {
        let (out, inp) = g.wires[k];
        let from = id_map.get(&out.node.0);
        let to = id_map.get(&inp.node.0);
        let ghost before = snarl_wires(snarl);
        match (from, to) {
            (Some(a), Some(b)) => {
                proof {
                    assert(ids@.contains(*a));
                    assert(ids@.contains(*b));
                }
                snarl_connect(
                    &mut snarl,
                    OutPinId { node: NodeId(*a), output: out.output },
                    InPinId { node: NodeId(*b), input: inp.input },
                );
            },
            _ => {},
        }
        proof {
            assert(snarl_wires(snarl) =~= remapped_wires(gv.wires, m, k + 1)) by {
                assert forall|x: (OutPinId, InPinId)| snarl_wires(snarl).contains(x) <==> remapped_wires(gv.wires, m, k + 1).contains(x) by {
                    if remapped_wires(gv.wires, m, k + 1).contains(x) {
                        let j = choose|j: int| 0 <= j < k + 1 && #[trigger] remapped_wire(gv.wires[j], m) == Some(x);
                        if j < k {
                            assert(remapped_wires(gv.wires, m, k as int).contains(x));
                        }
                    }
                    if before.contains(x) {
                        let j = choose|j: int| 0 <= j < k && #[trigger] remapped_wire(gv.wires[j], m) == Some(x);
                        assert(0 <= j < k + 1 && remapped_wire(gv.wires[j], m) == Some(x));
                    }
                    if remapped_wire(gv.wires[k as int], m) == Some(x) {
                        assert(0 <= k < k + 1 && remapped_wire(gv.wires[k as int], m) == Some(x));
                    }
                }
            }
        }
        k = k + 1;
    }
    (snarl, ids)
}

proof fn lemma_remap_prefix(nodes: Seq<(usize, KindModel)>, ids: Seq<usize>, shorter: Seq<usize>, j: int)
    requires
        0 <= j <= shorter.len(),
        shorter.len() <= ids.len(),
        forall|a: int| 0 <= a < shorter.len() ==> ids[a] == shorter[a],
    ensures
        remap_of(nodes, ids, j) == remap_of(nodes, shorter, j),
    decreases j,
{
    if j > 0 {
        lemma_remap_prefix(nodes, ids, shorter, j - 1);
    }
}

/// Builds an editor graph holding the nodes and wires of `g`, every node at the canvas
/// origin. Node `k` of `g` gets the key `k`, whatever its id in `g` (ids need not be
/// contiguous), and the wires are renamed accordingly; a wire whose end names no node of `g`
/// is left out.
pub fn snarl_from_graph(g: &GraphData) -> (s: Snarl<NodeKind>)
    ensures
        built_from(g@, first_keys(g@.nodes.len()), snarl_nodes(s), snarl_wires(s)),
        wired(snarl_nodes(s), snarl_wires(s)),
        snarl_packed(s),
{
    let (s, ids) = build_snarl(g);
    s
}


/// `g` lists the nodes and wires of an editor graph: one node entry per stored node, by
/// increasing key, and each stored wire once.
pub open spec fn snapshot_of(
    g: crate::graph::GraphModel,
    nodes: Map<usize, NodeKind>,
    wires: Set<(OutPinId, InPinId)>,
) -> bool {
    &&& forall|a: int, b: int| 0 <= a < b < g.nodes.len() ==> g.nodes[a].0 < g.nodes[b].0
    &&& forall|k: usize|
        #[trigger] nodes.contains_key(k) <==> exists|a: int| 0 <= a < g.nodes.len() && g.nodes[a].0 == k
    &&& forall|a: int| 0 <= a < g.nodes.len() ==> (#[trigger] g.nodes[a]).1 == nodes[g.nodes[a].0]@
    &&& g.wires.no_duplicates()
    &&& g.wires.to_set() == wires
}

/// Lists the nodes and wires of an editor graph, without positions.
pub fn graph_from_snarl(s: &Snarl<NodeKind>) -> (g: GraphData)
    ensures
        snapshot_of(g@, snarl_nodes(*s), snarl_wires(*s)),
{
    let nodes = snarl_node_list(s);
    let wires = snarl_wire_list(s);
    let g = GraphData { nodes, wires };
    proof {
        assert forall|a: int| 0 <= a < g@.nodes.len() implies (#[trigger] g@.nodes[a]).1 == snarl_nodes(*s)[g@.nodes[a].0]@ by {
            assert(g@.nodes[a] == (g.nodes@[a].0, g.nodes@[a].1@));
        }
        assert forall|k: usize| #[trigger] snarl_nodes(*s).contains_key(k) <==> exists|a: int|
            0 <= a < g@.nodes.len() && g@.nodes[a].0 == k by {
            if snarl_nodes(*s).contains_key(k) {
                let a = choose|a: int| 0 <= a < g.nodes@.len() && g.nodes@[a].0 == k;
                assert(g@.nodes[a].0 == k);
            }
            if exists|a: int| 0 <= a < g@.nodes.len() && g@.nodes[a].0 == k {
                let a = choose|a: int| 0 <= a < g@.nodes.len() && g@.nodes[a].0 == k;
                assert(g.nodes@[a].0 == k);
            }
        }
    }
    g
}

/// The keys `0..n` in order.
pub open spec fn first_keys(n: nat) -> Seq<usize> {
    Seq::new(n, |k: int| k as usize)
}

proof fn lemma_increasing_gap(s: Seq<usize>, a: int, b: int)
    requires
        0 <= a <= b < s.len(),
        forall|i: int, j: int| 0 <= i < j < s.len() ==> s[i] < s[j],
    ensures
        s[b] >= s[a] + (b - a),
    decreases b - a,
{
    if a < b {
        lemma_increasing_gap(s, a, b - 1);
        assert(s[b - 1] < s[b]);
    }
}

/// A strictly increasing sequence of `n` keys below `n` is `0..n`.
proof fn lemma_increasing_keys(s: Seq<usize>)
    requires
        forall|i: int, j: int| 0 <= i < j < s.len() ==> s[i] < s[j],
        forall|i: int| 0 <= i < s.len() ==> s[i] < s.len(),
    ensures
        forall|i: int| 0 <= i < s.len() ==> s[i] == i,
{
    assert forall|i: int| 0 <= i < s.len() implies s[i] == i by {
        lemma_increasing_gap(s, 0, i);
        lemma_increasing_gap(s, i, s.len() - 1);
    }
}

/// When node `k` of `nodes` has id `k` and gets the key `k`, the renaming is the identity
/// on `0..j`.
proof fn lemma_remap_identity(nodes: Seq<(usize, KindModel)>, j: int)
    requires
        0 <= j <= nodes.len(),
        forall|k: int| 0 <= k < nodes.len() ==> #[trigger] nodes[k].0 == k,
    ensures
        remap_of(nodes, first_keys(nodes.len()), j) == Map::new(|x: usize| x < j, |x: usize| x),
    decreases j,
{
    if j > 0 {
        lemma_remap_identity(nodes, j - 1);
        assert(nodes[j - 1].0 == j - 1);
        assert(remap_of(nodes, first_keys(nodes.len()), j) =~= Map::new(|x: usize| x < j, |x: usize| x));
    }
}

/// With distinct node ids, the renaming of the first `j` nodes sends the id of node `k` to
/// `k`, and names no other id.
proof fn lemma_remap_distinct(nodes: Seq<(usize, KindModel)>, j: int)
    requires
        0 <= j <= nodes.len(),
        nodes.len() <= usize::MAX + 1,
        forall|a: int, b: int| 0 <= a < b < nodes.len() ==> nodes[a].0 != nodes[b].0,
    ensures
        forall|k: int|
            0 <= k < j ==> #[trigger] remap_of(nodes, first_keys(nodes.len()), j).contains_key(nodes[k].0)
                && remap_of(nodes, first_keys(nodes.len()), j)[nodes[k].0] == k,
        forall|x: usize|
            #[trigger] remap_of(nodes, first_keys(nodes.len()), j).contains_key(x) ==> exists|k: int|
                0 <= k < j && nodes[k].0 == x,
    decreases j,
{
    if j > 0 {
        lemma_remap_distinct(nodes, j - 1);
        let m = remap_of(nodes, first_keys(nodes.len()), j);
        let prev = remap_of(nodes, first_keys(nodes.len()), j - 1);
        assert(first_keys(nodes.len())[j - 1] == j - 1);
        assert(m == prev.insert(nodes[j - 1].0, first_keys(nodes.len())[j - 1]));
        assert forall|k: int| 0 <= k < j implies #[trigger] m.contains_key(nodes[k].0) && m[nodes[k].0] == k by {
            if k < j - 1 {
                assert(nodes[k].0 != nodes[j - 1].0);
                assert(prev.contains_key(nodes[k].0));
            }
        }
        assert forall|x: usize| #[trigger] m.contains_key(x) implies exists|k: int| 0 <= k < j && nodes[k].0 == x by {
            if x != nodes[j - 1].0 {
                assert(remap_of(nodes, first_keys(nodes.len()), j - 1).contains_key(x));
            }
        }
    }
}

/// Putting a graph into the editor and listing the editor graph back keeps every node, in
/// order, and every wire whose ends exist: node `k` of the listing is node `k` of `g` under
/// the key `k`, and the wires are those of `g` with both ends renamed. When the ids of `g`
/// are distinct, the renaming is a one-to-one map from them onto `0..n` (the id of node `k`
/// goes to `k`), and when every wire of `g` joins ids of `g`, every wire comes back renamed.
/// When the ids of `g` are `0..n` in order, the listing has exactly the nodes of `g` and the
/// wires of `g` whose ends are nodes of `g`.
pub proof fn law_round_trip_keeps_graph(
    g: crate::graph::GraphModel,
    nodes: Map<usize, NodeKind>,
    wires: Set<(OutPinId, InPinId)>,
    h: crate::graph::GraphModel,
)
    requires
        built_from(g, first_keys(g.nodes.len()), nodes, wires),
        snapshot_of(h, nodes, wires),
    ensures
        h.nodes.len() == g.nodes.len(),
        forall|k: int| 0 <= k < g.nodes.len() ==> #[trigger] h.nodes[k] == (k as usize, g.nodes[k].1),
        h.wires.to_set() == remapped_wires(
            g.wires,
            remap_of(g.nodes, first_keys(g.nodes.len()), g.nodes.len() as int),
            g.wires.len() as int,
        ),
        (forall|a: int, b: int| 0 <= a < b < g.nodes.len() ==> g.nodes[a].0 != g.nodes[b].0) ==> {
            let m = remap_of(g.nodes, first_keys(g.nodes.len()), g.nodes.len() as int);
            &&& forall|k: int|
                0 <= k < g.nodes.len() ==> #[trigger] m.contains_key(g.nodes[k].0) && m[g.nodes[k].0]
                    == k
            &&& forall|x: usize| #[trigger] m.contains_key(x) ==> exists|k: int|
                0 <= k < g.nodes.len() && g.nodes[k].0 == x
            &&& (forall|j: int|
                0 <= j < g.wires.len() ==> (exists|a: int|
                    0 <= a < g.nodes.len() && g.nodes[a].0 == (#[trigger] g.wires[j]).0.node.0) && (exists|b: int|
                    0 <= b < g.nodes.len() && g.nodes[b].0 == g.wires[j].1.node.0)) ==> forall|j: int|
                0 <= j < g.wires.len() ==> #[trigger] remapped_wire(g.wires[j], m) is Some
        },
        (forall|k: int| 0 <= k < g.nodes.len() ==> #[trigger] g.nodes[k].0 == k) ==> {
            &&& h.nodes == g.nodes
            &&& h.wires.to_set() == g.wires.to_set().filter(
                |w: (OutPinId, InPinId)| w.0.node.0 < g.nodes.len() && w.1.node.0 < g.nodes.len(),
            )
        },
{
    let ids = first_keys(g.nodes.len());
    let keys = h.nodes.map_values(|e: (usize, KindModel)| e.0);
    assert(keys.no_duplicates()) by {
        assert forall|a: int, b: int| 0 <= a < keys.len() && 0 <= b < keys.len() && a != b implies keys[a]
            != keys[b] by {
            if a < b {
                assert(h.nodes[a].0 < h.nodes[b].0);
            } else {
                assert(h.nodes[b].0 < h.nodes[a].0);
            }
        }
    }
    assert(keys.to_set() =~= ids.to_set()) by {
        assert forall|x: usize| keys.to_set().contains(x) <==> ids.to_set().contains(x) by {
            if keys.to_set().contains(x) {
                let a = choose|a: int| 0 <= a < keys.len() && keys[a] == x;
                assert(h.nodes[a].0 == x);
                assert(nodes.contains_key(x));
            }
            if ids.to_set().contains(x) {
                assert(nodes.contains_key(x));
                let a = choose|a: int| 0 <= a < h.nodes.len() && h.nodes[a].0 == x;
                assert(keys[a] == x);
            }
        }
    }
    keys.unique_seq_to_set();
    ids.unique_seq_to_set();
    assert forall|a: int| 0 <= a < keys.len() implies keys[a] < keys.len() by {
        assert(keys.to_set().contains(keys[a]));
        assert(ids.to_set().contains(keys[a]));
        let j = choose|j: int| 0 <= j < ids.len() && ids[j] == keys[a];
    }
    assert forall|i: int, j: int| 0 <= i < j < keys.len() implies keys[i] < keys[j] by {
        assert(h.nodes[i].0 < h.nodes[j].0);
    }
    lemma_increasing_keys(keys);
    if forall|a: int, b: int| 0 <= a < b < g.nodes.len() ==> g.nodes[a].0 != g.nodes[b].0 {
        if g.nodes.len() > 0 {
            assert(keys[g.nodes.len() - 1] == g.nodes.len() - 1);
        }
        lemma_remap_distinct(g.nodes, g.nodes.len() as int);
        let m = remap_of(g.nodes, first_keys(g.nodes.len()), g.nodes.len() as int);
        if forall|j: int|
            0 <= j < g.wires.len() ==> (exists|a: int|
                0 <= a < g.nodes.len() && g.nodes[a].0 == (#[trigger] g.wires[j]).0.node.0) && (exists|b: int|
                0 <= b < g.nodes.len() && g.nodes[b].0 == g.wires[j].1.node.0) {
            assert forall|j: int| 0 <= j < g.wires.len() implies #[trigger] remapped_wire(g.wires[j], m) is Some by {
                let w = g.wires[j];
                let a = choose|a: int| 0 <= a < g.nodes.len() && g.nodes[a].0 == w.0.node.0;
                let b = choose|b: int| 0 <= b < g.nodes.len() && g.nodes[b].0 == w.1.node.0;
                assert(m.contains_key(g.nodes[a].0));
                assert(m.contains_key(g.nodes[b].0));
            }
        }
    }
    assert forall|k: int| 0 <= k < g.nodes.len() implies #[trigger] h.nodes[k] == (k as usize, g.nodes[k].1) by {
        assert(keys[k] == k);
        assert(h.nodes[k].0 == k);
        assert(ids[k] == k);
        assert(nodes[ids[k]]@ == g.nodes[k].1);
    }
    if forall|k: int| 0 <= k < g.nodes.len() ==> #[trigger] g.nodes[k].0 == k {
        assert forall|k: int| 0 <= k < g.nodes.len() implies h.nodes[k] == g.nodes[k] by {
            assert(g.nodes[k].0 == k);
            assert(h.nodes[k] == (k as usize, g.nodes[k].1));
        }
        assert(h.nodes =~= g.nodes);
        let n = g.nodes.len() as int;
        lemma_remap_identity(g.nodes, n);
        let m = remap_of(g.nodes, ids, n);
        let target = g.wires.to_set().filter(
            |w: (OutPinId, InPinId)| w.0.node.0 < g.nodes.len() && w.1.node.0 < g.nodes.len(),
        );
        assert(h.wires.to_set() =~= target) by {
            assert forall|x: (OutPinId, InPinId)| remapped_wires(g.wires, m, g.wires.len() as int).contains(x)
                <==> target.contains(x) by {
                if target.contains(x) {
                    let j = choose|j: int| 0 <= j < g.wires.len() && g.wires[j] == x;
                    assert(remapped_wire(g.wires[j], m) == Some(x));
                }
                if remapped_wires(g.wires, m, g.wires.len() as int).contains(x) {
                    let j = choose|j: int| 0 <= j < g.wires.len() && #[trigger] remapped_wire(g.wires[j], m) == Some(x);
                    assert(g.wires[j] == x);
                    assert(g.wires.contains(x));
                }
            }
        }
    }
}

/// The keys of the stored nodes that call function `i`.
pub open spec fn calling_keys(nodes: Map<usize, NodeKind>, i: usize) -> Set<usize> {
    nodes.dom().filter(|k: usize| calls(nodes[k]@, i))
}

/// Removes from an editor graph every node that calls function `i` (with the wires that
/// touch it), and renumbers the calls of later functions.
pub fn remove_function_calls(s: &mut Snarl<NodeKind>, i: usize)
    ensures
        snarl_nodes(*final(s)).dom() == snarl_nodes(*old(s)).dom().difference(
            calling_keys(snarl_nodes(*old(s)), i),
        ),
        forall|k: usize|
            #[trigger] snarl_nodes(*final(s)).contains_key(k) ==> snarl_nodes(*final(s))[k]@
                == renumbered(snarl_nodes(*old(s))[k]@, i),
        snarl_wires(*final(s)) == snarl_wires(*old(s)).filter(
            |w: (OutPinId, InPinId)|
                !calling_keys(snarl_nodes(*old(s)), i).contains(w.0.node.0) && !calling_keys(
                    snarl_nodes(*old(s)),
                    i,
                ).contains(w.1.node.0),
        ),
        wired(snarl_nodes(*old(s)), snarl_wires(*old(s))) ==> wired(
            snarl_nodes(*final(s)),
            snarl_wires(*final(s)),
        ),
{
    let ghost n0 = snarl_nodes(*s);
    let ghost w0 = snarl_wires(*s);
    let ghost gone = calling_keys(n0, i);
    let list = snarl_node_list(s);
    let mut k: usize = 0;
    let ghost mut removed: Set<usize> = Set::empty();
    while k < list.len()
        invariant
            k <= list@.len(),
            forall|a: int, b: int| 0 <= a < b < list@.len() ==> list@[a].0 < list@[b].0,
            forall|x: usize| #[trigger] n0.contains_key(x) <==> exists|a: int| 0 <= a < list@.len() && list@[a].0 == x,
            forall|a: int| 0 <= a < list@.len() ==> (#[trigger] list@[a]).1@ == n0[list@[a].0]@,
            gone == calling_keys(n0, i),
            removed == gone.filter(|x: usize| exists|a: int| 0 <= a < k && list@[a].0 == x),
            snarl_nodes(*s) == n0.remove_keys(removed),
            snarl_wires(*s) == w0.filter(
                |w: (OutPinId, InPinId)| !removed.contains(w.0.node.0) && !removed.contains(w.1.node.0),
            ),
        decreases list@.len() - k,
    {
        if crate::library::is_call_of(&list[k].1, i) {
            let id = list[k].0;
            proof {
                assert(n0.contains_key(id));
                assert(!removed.contains(id));
            }
            snarl_remove_node(s, id);
            proof {
                removed = removed.insert(id);
            }
        }
        proof {
            let nr = gone.filter(|x: usize| exists|a: int| 0 <= a < k + 1 && list@[a].0 == x);
            assert(removed =~= nr) by {
                assert forall|x: usize| removed.contains(x) <==> nr.contains(x) by {
                    if nr.contains(x) {
                        let a = choose|a: int| 0 <= a < k + 1 && list@[a].0 == x;
                        if a < k {
                            assert(exists|a: int| 0 <= a < k && list@[a].0 == x);
                        }
                    }
                    if removed.contains(x) && x != list@[k as int].0 {
                        let a = choose|a: int| 0 <= a < k && list@[a].0 == x;
                        assert(0 <= a < k + 1 && list@[a].0 == x);
                    }
                }
            }
            assert(snarl_nodes(*s) =~= n0.remove_keys(removed));
            assert(snarl_wires(*s) =~= w0.filter(
                |w: (OutPinId, InPinId)| !removed.contains(w.0.node.0) && !removed.contains(w.1.node.0),
            ));
        }
        k = k + 1;
    }
    proof {
        assert(removed =~= gone) by {
            assert forall|x: usize| gone.contains(x) implies removed.contains(x) by {
                assert(n0.contains_key(x));
                let a = choose|a: int| 0 <= a < list@.len() && list@[a].0 == x;
            }
        }
    }
    let ghost n1 = snarl_nodes(*s);
    let list = snarl_node_list(s);
    let mut k: usize = 0;
    while k < list.len()
        invariant
            k <= list@.len(),
            forall|a: int, b: int| 0 <= a < b < list@.len() ==> list@[a].0 < list@[b].0,
            forall|x: usize| #[trigger] n1.contains_key(x) <==> exists|a: int| 0 <= a < list@.len() && list@[a].0 == x,
            forall|a: int| 0 <= a < list@.len() ==> (#[trigger] list@[a]).1@ == n1[list@[a].0]@,
            snarl_nodes(*s).dom() == n1.dom(),
            forall|x: usize| #[trigger] n1.contains_key(x) ==> {
                if exists|a: int| 0 <= a < k && list@[a].0 == x {
                    snarl_nodes(*s)[x]@ == renumbered(n1[x]@, i)
                } else {
                    snarl_nodes(*s)[x] == n1[x]
                }
            },
            snarl_wires(*s) == w0.filter(
                |w: (OutPinId, InPinId)| !gone.contains(w.0.node.0) && !gone.contains(w.1.node.0),
            ),
        decreases list@.len() - k,
    {
        let id = list[k].0;
        let ghost before = snarl_nodes(*s);
        if crate::library::calls_later(&list[k].1, i) {
            proof {
                assert(n1.contains_key(id));
            }
            snarl_replace_node(s, id, crate::library::renumbered_kind(&list[k].1, i));
        }
        proof {
            assert(snarl_nodes(*s).dom() =~= n1.dom());
            assert forall|x: usize| #[trigger] n1.contains_key(x) implies {
                if exists|a: int| 0 <= a < k + 1 && list@[a].0 == x {
                    snarl_nodes(*s)[x]@ == renumbered(n1[x]@, i)
                } else {
                    snarl_nodes(*s)[x] == n1[x]
                }
            } by {
                if x == id {
                    assert(0 <= k < k + 1 && list@[k as int].0 == x);
                    assert(!exists|a: int| 0 <= a < k && list@[a].0 == x);
                } else {
                    if exists|a: int| 0 <= a < k + 1 && list@[a].0 == x {
                        let a = choose|a: int| 0 <= a < k + 1 && list@[a].0 == x;
                        assert(a != k);
                    } else {
                        assert(!exists|a: int| 0 <= a < k && list@[a].0 == x);
                    }
                }
            }
        }
        k = k + 1;
    }
    proof {
        assert forall|x: usize| #[trigger] snarl_nodes(*s).contains_key(x) implies snarl_nodes(*s)[x]@
            == renumbered(n0[x]@, i) by {
            let a = choose|a: int| 0 <= a < list@.len() && list@[a].0 == x;
        }
        assert(snarl_nodes(*s).dom() =~= n0.dom().difference(gone));
    }
}

/// Every call node among `nodes` names one of the first `n` functions.
pub open spec fn calls_below(nodes: Map<usize, NodeKind>, n: nat) -> bool {
    forall|k: usize|
        #[trigger] nodes.contains_key(k) && nodes[k]@ is FunctionCall ==> nodes[k]@->def_index < n
}

/// Removing the calls of function `i` from an editor graph, as `remove_function_calls`
/// does, leaves no dangling call once function `i` leaves a library of `n`: calls that
/// named one of the `n` functions name one of the `n - 1` left.
pub proof fn law_removed_calls_stay_resolvable(
    before: Map<usize, NodeKind>,
    after: Map<usize, NodeKind>,
    i: usize,
    n: nat,
)
    requires
        i < n,
        calls_below(before, n),
        after.dom() == before.dom().difference(calling_keys(before, i)),
        forall|k: usize| #[trigger] after.contains_key(k) ==> after[k]@ == renumbered(before[k]@, i),
    ensures
        calls_below(after, (n - 1) as nat),
{
    assert forall|k: usize| #[trigger] after.contains_key(k) && after[k]@ is FunctionCall implies after[k]@->def_index < n - 1 by {
        assert(before.contains_key(k));
        assert(!calling_keys(before, i).contains(k));
    }
}

/// `(n1, w1)` is the editor graph `(n0, w0)` after the calls of function `i` are removed:
/// every node that called `i` leaves with the wires touching it, and calls of later
/// functions are renumbered.
pub open spec fn calls_removed(
    n0: Map<usize, NodeKind>,
    w0: Set<(OutPinId, InPinId)>,
    n1: Map<usize, NodeKind>,
    w1: Set<(OutPinId, InPinId)>,
    i: usize,
) -> bool {
    &&& n1.dom() == n0.dom().difference(calling_keys(n0, i))
    &&& forall|k: usize| #[trigger] n1.contains_key(k) ==> n1[k]@ == renumbered(n0[k]@, i)
    &&& w1 == w0.filter(
        |w: (OutPinId, InPinId)|
            !calling_keys(n0, i).contains(w.0.node.0) && !calling_keys(n0, i).contains(w.1.node.0),
    )
}

/// Deletes function `i` from the library and from everything that refers to it: the root
/// editor graph and the open subgraph (if any) lose their calls of `i`, with the wires
/// touching them, and renumber their calls of later functions; the subgraph of `i` itself,
/// if open, is closed, and the index of another open subgraph follows the shift; the
/// library loses function `i` and its other functions lose their calls of it.
pub fn delete_function_everywhere(
    root: &mut Snarl<NodeKind>,
    editing: &mut Option<(usize, Snarl<NodeKind>)>,
    functions: &mut Vec<FunctionDef>,
    i: usize,
)
    requires
        i < old(functions)@.len(),
    ensures
        deletion_of(functions_view(old(functions)@), functions_view(final(functions)@), i),
        calls_removed(
            snarl_nodes(*old(root)),
            snarl_wires(*old(root)),
            snarl_nodes(*final(root)),
            snarl_wires(*final(root)),
            i,
        ),
        match *old(editing) {
            None => *final(editing) is None,
            Some((idx, s)) => if idx == i {
                *final(editing) is None
            } else {
                *final(editing) matches Some((j, t)) && j == renumber(idx, i) && calls_removed(
                    snarl_nodes(s),
                    snarl_wires(s),
                    snarl_nodes(t),
                    snarl_wires(t),
                    i,
                )
            },
        },
{
    remove_function_calls(root, i);
    let taken = editing.take();
    match taken {
        Some((idx, mut s)) => {
            match index_after_delete(idx, i) {
                Some(j) => {
                    remove_function_calls(&mut s, i);
                    *editing = Some((j, s));
                },
                None => {},
            }
        },
        None => {},
    }
    delete_function(functions, i);
}

/// After `delete_function_everywhere`, no call dangles: when every call in an editor graph
/// it touched (the root graph or the open subgraph) and in the library named one of the `n`
/// functions before, every call names one of the `n - 1` left after.
pub proof fn law_delete_everywhere_keeps_calls_resolvable(
    root0: Map<usize, NodeKind>,
    root1: Map<usize, NodeKind>,
    root_wires0: Set<(OutPinId, InPinId)>,
    root_wires1: Set<(OutPinId, InPinId)>,
    old_fns: Seq<FunctionModel>,
    new_fns: Seq<FunctionModel>,
    i: usize,
)
    requires
        deletion_of(old_fns, new_fns, i),
        calls_below(root0, old_fns.len()),
        calls_resolve(old_fns),
        calls_removed(root0, root_wires0, root1, root_wires1, i),
    ensures
        calls_below(root1, new_fns.len()),
        calls_resolve(new_fns),
{
    law_removed_calls_stay_resolvable(root0, root1, i, old_fns.len());
    law_delete_keeps_calls_resolvable(old_fns, new_fns, i);
}

} // verus!
