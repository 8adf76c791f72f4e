use vstd::prelude::*;

use crate::graph::{
    entries_view, functions_view, terminal_count, FunctionDef, FunctionModel, GraphData,
    GraphModel, InPinId, OutPinId,
};
use crate::types::{clone_wire_types, KindModel, NodeKind, WireType};

verus! {

/// A call index after function `i` is removed from the library.
pub open spec fn renumber(d: usize, i: usize) -> usize {
    if d > i {
        (d - 1) as usize
    } else {
        d
    }
}

/// `k` calls function `i`.
pub open spec fn calls(k: KindModel, i: usize) -> bool {
    k matches KindModel::FunctionCall { def_index, .. } && def_index == i
}

/// `k` with its call index renumbered for the removal of function `i`.
pub open spec fn renumbered(k: KindModel, i: usize) -> KindModel {
    match k {
        KindModel::FunctionCall { def_index, name, in_types, out_types } => KindModel::FunctionCall {
            def_index: renumber(def_index, i),
            name,
            in_types,
            out_types,
        },
        _ => k,
    }
}

/// The node entry kept, renumbered, when function `i` is removed; none for a call of `i`.
pub open spec fn kept_entry(e: (usize, KindModel), i: usize) -> Option<(usize, KindModel)> {
    if calls(e.1, i) {
        None
    } else {
        Some((e.0, renumbered(e.1, i)))
    }
}

/// The ids of the nodes that call function `i`.
pub open spec fn calling_ids(nodes: Seq<(usize, KindModel)>, i: usize) -> Set<usize> {
    Set::new(|id: usize| exists|k: int| 0 <= k < nodes.len() && nodes[k].0 == id && calls(nodes[k].1, i))
}

/// A wire survives the removal of nodes `ids` when neither end is one of them.
pub open spec fn wire_kept(w: (OutPinId, InPinId), ids: Set<usize>) -> bool {
    !ids.contains(w.0.node.0) && !ids.contains(w.1.node.0)
}

/// A graph without its calls of function `i` (and the wires touching the ids of those
/// calls), its other calls renumbered.
pub open spec fn without_calls(g: GraphModel, i: usize) -> GraphModel {
    GraphModel {
        nodes: g.nodes.filter_map(|e: (usize, KindModel)| kept_entry(e, i)),
        wires: g.wires.filter(|w: (OutPinId, InPinId)| wire_kept(w, calling_ids(g.nodes, i))),
    }
}

/// `new` is the library `old` after function `i` is deleted: the others keep their order
/// and names, and their graphs lose their calls of `i`.
pub open spec fn deletion_of(old: Seq<FunctionModel>, new: Seq<FunctionModel>, i: usize) -> bool {
    &&& i < old.len()
    &&& new.len() + 1 == old.len()
    &&& forall|j: int|
        0 <= j < new.len() ==> {
            let oj = if j < i {
                j
            } else {
                j + 1
            };
            &&& (#[trigger] new[j]).name == old[oj].name
            &&& new[j].graph == without_calls(old[oj].graph, i)
        }
}

/// Whether `k` calls a function after `i`.
pub fn calls_later(k: &NodeKind, i: usize) -> (r: bool)
    ensures
        r == (k@ matches KindModel::FunctionCall { def_index, .. } && def_index > i),
{
    match k {
        NodeKind::FunctionCall { def_index, .. } => *def_index > i,
        _ => false,
    }
}

/// Whether `k` calls function `i`.
pub(crate) fn is_call_of(k: &NodeKind, i: usize) -> (r: bool)
    ensures
        r == calls(k@, i),
{
    match k {
        NodeKind::FunctionCall { def_index, .. } => *def_index == i,
        _ => false,
    }
}

/// `k` with its call index renumbered for the removal of function `i`.
pub(crate) fn renumbered_kind(k: &NodeKind, i: usize) -> (r: NodeKind)
    ensures
        r@ == renumbered(k@, i),
{
    match k {
        NodeKind::FunctionCall { def_index, name, in_types, out_types } => {
            let d = if *def_index > i {
                *def_index - 1
            } else {
                *def_index
            };
            NodeKind::FunctionCall {
                def_index: d,
                name: name.clone(),
                in_types: clone_wire_types(in_types),
                out_types: clone_wire_types(out_types),
            }
        },
        _ => k.clone(),
    }
}

/// Removes from `g` every node that calls function `i` and every wire touching the id of
/// such a node, and renumbers the remaining calls of later functions.
pub fn remove_function_refs(g: &mut GraphData, i: usize)
    ensures
        final(g)@ == without_calls(old(g)@, i),
{
    let ghost gv = g@;
    let ghost f = |e: (usize, KindModel)| kept_entry(e, i);
    // Ids of the nodes that call function `i`.
    let mut deleted_ids: Vec<usize> = Vec::new();
    let mut k: usize = 0;
    while k < g.nodes.len()
        invariant
            k <= g.nodes@.len(),
            g@ == gv,
            forall|id: usize|
                deleted_ids@.contains(id) <==> exists|j: int|
                    0 <= j < k && gv.nodes[j].0 == id && calls(gv.nodes[j].1, i),
        decreases g.nodes@.len() - k,
    {
        let ghost before = deleted_ids@;
        let is_call = is_call_of(&g.nodes[k].1, i);
        if is_call {
            deleted_ids.push(g.nodes[k].0);
        }
        proof {
            assert forall|id: usize|
                deleted_ids@.contains(id) <==> exists|j: int|
                    0 <= j < k + 1 && gv.nodes[j].0 == id && calls(gv.nodes[j].1, i) by {
                if deleted_ids@.contains(id) {
                    let x = choose|x: int| 0 <= x < deleted_ids@.len() && deleted_ids@[x] == id;
                    if x < before.len() {
                        assert(before[x] == id);
                        assert(before.contains(id));
                        let j = choose|j: int| 0 <= j < k && gv.nodes[j].0 == id && calls(gv.nodes[j].1, i);
                        assert(0 <= j < k + 1 && gv.nodes[j].0 == id && calls(gv.nodes[j].1, i));
                    } else {
                        assert(0 <= k < k + 1 && gv.nodes[k as int].0 == id && calls(gv.nodes[k as int].1, i));
                    }
                }
                if exists|j: int| 0 <= j < k + 1 && gv.nodes[j].0 == id && calls(gv.nodes[j].1, i) {
                    let j = choose|j: int| 0 <= j < k + 1 && gv.nodes[j].0 == id && calls(gv.nodes[j].1, i);
                    if j < k {
                        assert(before.contains(id));
                        let x = choose|x: int| 0 <= x < before.len() && before[x] == id;
                        assert(deleted_ids@[x] == id);
                    } else {
                        assert(deleted_ids@[deleted_ids@.len() - 1] == id);
                    }
                }
            }
        }
        k = k + 1;
    }
    assert(forall|id: usize| deleted_ids@.contains(id) <==> calling_ids(gv.nodes, i).contains(id));
    // The kept nodes, renumbered.
    let mut nodes: Vec<(usize, NodeKind)> = Vec::new();
    let mut k: usize = 0;
    while k < g.nodes.len()
        invariant
            k <= g.nodes@.len(),
            g@ == gv,
            f == (|e: (usize, KindModel)| kept_entry(e, i)),
            entries_view(nodes@) == gv.nodes.take(k as int).filter_map(f),
        decreases g.nodes@.len() - k,
    {
        proof {
            assert(gv.nodes.take(k + 1).drop_last() =~= gv.nodes.take(k as int));
        }
        if !is_call_of(&g.nodes[k].1, i) {
            nodes.push((g.nodes[k].0, renumbered_kind(&g.nodes[k].1, i)));
            proof {
                assert(entries_view(nodes@) =~= gv.nodes.take(k as int).filter_map(f) + seq![
                    (gv.nodes[k as int].0, renumbered(gv.nodes[k as int].1, i)),
                ]);
            }
        }
        k = k + 1;
    }
    assert(gv.nodes.take(g.nodes@.len() as int) =~= gv.nodes);
    // The wires that touch none of the removed ids.
    let ghost ids = calling_ids(gv.nodes, i);
    let ghost p = |w: (OutPinId, InPinId)| wire_kept(w, ids);
    let mut wires: Vec<(OutPinId, InPinId)> = Vec::new();
    let mut k: usize = 0;
    while k < g.wires.len()
        invariant
            k <= g.wires@.len(),
            g@ == gv,
            p == (|w: (OutPinId, InPinId)| wire_kept(w, ids)),
            forall|id: usize| deleted_ids@.contains(id) <==> ids.contains(id),
            wires@ == gv.wires.take(k as int).filter(p),
        decreases g.wires@.len() - k,
    {
        proof {
            assert(gv.wires.take(k + 1).drop_last() =~= gv.wires.take(k as int));
        }
        let w = g.wires[k];
        let keep = !contains_id(&deleted_ids, w.0.node.0) && !contains_id(&deleted_ids, w.1.node.0);
        assert(keep == p(w));
        proof {
            reveal_with_fuel(Seq::<_>::filter, 1);
        }
        assert(gv.wires.take(k + 1).filter(p) == if p(w) {
            gv.wires.take(k as int).filter(p).push(w)
        } else {
            gv.wires.take(k as int).filter(p)
        });
        if keep {
            wires.push(w);
        }
        k = k + 1;
    }
    assert(gv.wires.take(g.wires@.len() as int) =~= gv.wires);
    g.nodes = nodes;
    g.wires = wires;
}

fn contains_id(ids: &Vec<usize>, id: usize) -> (r: bool)
    ensures
        r == ids@.contains(id),
{
    let mut k: usize = 0;
    while k < ids.len()
        invariant
            k <= ids@.len(),
            forall|j: int| 0 <= j < k ==> ids@[j] != id,
        decreases ids@.len() - k,
    {
        if ids[k] == id {
            return true;
        }
        k = k + 1;
    }
    false
}

/// Where an index into the library points after function `i` is deleted: nowhere if it
/// pointed at `i`, one place lower if it pointed past `i`.
pub fn index_after_delete(idx: usize, i: usize) -> (r: Option<usize>)
    ensures
        r == if idx == i {
            None
        } else {
            Some(renumber(idx, i))
        },
{
    if idx == i {
        None
    } else if idx > i {
        Some(idx - 1)
    } else {
        Some(idx)
    }
}

impl FunctionDef {
    /// A node that calls this function, found at `index` in the library: it carries the
    /// function's name and the port types of a call.
    pub fn call_node(&self, index: usize) -> (r: NodeKind)
        ensures
            r@ == (KindModel::FunctionCall {
                def_index: index,
                name: self.name@,
                in_types: Seq::new(terminal_count(self.graph.nodes@, false), |k: int| WireType::Byte),
                out_types: Seq::new(terminal_count(self.graph.nodes@, true), |k: int| WireType::Byte),
            }),
    {
        let (in_types, out_types) = self.call_types();
        NodeKind::FunctionCall { def_index: index, name: self.name.clone(), in_types, out_types }
    }
}

/// Deletes function `i` from the library: every call of it is removed from the other
/// functions' graphs (with the wires touching it), and calls of later functions are
/// renumbered to follow the shift.
pub fn delete_function(functions: &mut Vec<FunctionDef>, i: usize)
    requires
        i < old(functions)@.len(),
    ensures
        deletion_of(functions_view(old(functions)@), functions_view(final(functions)@), i),
{
    let ghost old_view = functions_view(functions@);
    let mut rest: Vec<FunctionDef> = Vec::new();
    std::mem::swap(&mut rest, functions);
    let ghost all = rest@;
    let total = rest.len();
    let mut j: usize = 0;
    while rest.len() > 0
        invariant
            i < all.len(),
            all.len() == total,
            old_view == functions_view(all),
            j + rest@.len() == all.len(),
            rest@ == all.subrange(j as int, all.len() as int),
            functions@.len() == if j <= i { j as int } else { j - 1 },
            forall|m: int|
                0 <= m < functions@.len() ==> {
                    let om = if m < i {
                        m
                    } else {
                        m + 1
                    };
                    &&& (#[trigger] functions@[m])@.name == all[om]@.name
                    &&& functions@[m]@.graph == without_calls(all[om]@.graph, i)
                },
        decreases rest@.len(),
    {
        let mut f = rest.remove(0);
        if j != i {
            remove_function_refs(&mut f.graph, i);
            functions.push(f);
        }
        j = j + 1;
    }
    proof {
        let new_view = functions_view(functions@);
        assert forall|m: int| 0 <= m < new_view.len() implies {
            let om = if m < i {
                m
            } else {
                m + 1
            };
            &&& (#[trigger] new_view[m]).name == old_view[om].name
            &&& new_view[m].graph == without_calls(old_view[om].graph, i)
        } by {
            assert(functions@[m]@ == new_view[m]);
        }
    }
}


/// After function `i` is deleted, each function `d` other than `i` sits at `renumber(d, i)`:
/// same name, same graph without its calls of `i`.
pub proof fn law_delete_shifts_functions(
    old: Seq<FunctionModel>,
    new: Seq<FunctionModel>,
    i: usize,
    d: usize,
)
    requires
        deletion_of(old, new, i),
        d < old.len(),
        d != i,
    ensures
        renumber(d, i) < new.len(),
        new[renumber(d, i) as int].name == old[d as int].name,
        new[renumber(d, i) as int].graph == without_calls(old[d as int].graph, i),
{
    let j = renumber(d, i) as int;
    assert(new[j].name == old[d as int].name);
}

/// After function `i` is deleted, no call of it remains: every call node in the new
/// library comes from a node of the same function (before the deletion) that called a
/// function `d` other than `i`, with the same id and signature, and it now calls
/// `renumber(d, i)`, which is where function `d` went.
pub proof fn law_delete_removes_calls(
    old: Seq<FunctionModel>,
    new: Seq<FunctionModel>,
    i: usize,
    j: int,
    k: int,
)
    requires
        deletion_of(old, new, i),
        0 <= j < new.len(),
        0 <= k < new[j].graph.nodes.len(),
        new[j].graph.nodes[k].1 is FunctionCall,
    ensures
        ({
            let oj = if j < i {
                j
            } else {
                j + 1
            };
            let e = new[j].graph.nodes[k];
            exists|d: usize|
                #![trigger renumber(d, i)]
                d != i && renumber(d, i) == e.1->def_index && old[oj].graph.nodes.contains(
                    (
                        e.0,
                        KindModel::FunctionCall {
                            def_index: d,
                            name: e.1->name,
                            in_types: e.1->in_types,
                            out_types: e.1->out_types,
                        },
                    ),
                )
        }),
{
    let oj = if j < i {
        j
    } else {
        j + 1
    };
    let e = new[j].graph.nodes[k];
    let f = |x: (usize, KindModel)| kept_entry(x, i);
    assert(new[j].graph.nodes == old[oj].graph.nodes.filter_map(f));
    assert(new[j].graph.nodes.contains(e));
    old[oj].graph.nodes.lemma_filter_map_contains(f, e);
    let t = choose|t: (usize, KindModel)| #[trigger] old[oj].graph.nodes.contains(t) && f(t) == Some(e);
    let d = t.1->def_index;
    assert(renumber(d, i) == e.1->def_index);
}

/// Every call node in the library names an existing function.
pub open spec fn calls_resolve(fns: Seq<FunctionModel>) -> bool {
    forall|j: int, k: int|
        0 <= j < fns.len() && 0 <= k < fns[j].graph.nodes.len() && (#[trigger] fns[j].graph.nodes[k]).1 is FunctionCall
            ==> fns[j].graph.nodes[k].1->def_index < fns.len()
}

/// Deleting a function leaves no dangling call: when every call in the library named an
/// existing function before, every call names an existing function after.
pub proof fn law_delete_keeps_calls_resolvable(old: Seq<FunctionModel>, new: Seq<FunctionModel>, i: usize)
    requires
        deletion_of(old, new, i),
        calls_resolve(old),
    ensures
        calls_resolve(new),
{
    assert forall|j: int, k: int|
        0 <= j < new.len() && 0 <= k < new[j].graph.nodes.len() && (#[trigger] new[j].graph.nodes[k]).1 is FunctionCall
            implies new[j].graph.nodes[k].1->def_index < new.len() by {
        law_delete_removes_calls(old, new, i, j, k);
        let oj = if j < i {
            j
        } else {
            j + 1
        };
        let e = new[j].graph.nodes[k];
        let d = choose|d: usize|
            #![trigger renumber(d, i)]
            d != i && renumber(d, i) == e.1->def_index && old[oj].graph.nodes.contains(
                (
                    e.0,
                    KindModel::FunctionCall {
                        def_index: d,
                        name: e.1->name,
                        in_types: e.1->in_types,
                        out_types: e.1->out_types,
                    },
                ),
            );
        let t = (
            e.0,
            KindModel::FunctionCall {
                def_index: d,
                name: e.1->name,
                in_types: e.1->in_types,
                out_types: e.1->out_types,
            },
        );
        let a = choose|a: int| 0 <= a < old[oj].graph.nodes.len() && old[oj].graph.nodes[a] == t;
        assert(old[oj].graph.nodes[a].1 is FunctionCall);
        assert(d < old.len());
    }
}

} // verus!
