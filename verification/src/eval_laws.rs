use vstd::prelude::*;

use crate::cache::CacheModel;
use crate::graph::{
    lemma_node_pos_from, lemma_source_pos_from, node_pos, source_pos, FunctionDef, GraphData,
    InPinId, NodeId, OutPinId,
};
use crate::model::{
    binary_model, compute_model, concat_model, eval_graph_model, eval_nodes_model,
    eval_output_model, eval_outputs_model, evaluates, get_in_model, inject_model, max_fuel,
    not_model, pack_model, shift_model, slice_model, unpack_model,
};
use crate::denote::{
    denotes, lemma_mono_in, pure_args, pure_binary, pure_compute, pure_concat, pure_in,
    pure_not, pure_out, pure_pack, pure_shift, pure_slice, pure_unpack,
};
use crate::model::sink_model;
use crate::types::{NodeKind, ValueModel};

verus! {

/// `c` extends `cache`: every pin with an entry in `cache` has one in `c`.
pub open spec fn grows(cache: CacheModel, c: CacheModel) -> bool {
    forall|p: OutPinId| cache.contains_key(p) ==> #[trigger] c.contains_key(p)
}

proof fn lemma_grow_eval_output(
    fuel: nat,
    g: GraphData,
    fns: Seq<FunctionDef>,
    cache: CacheModel,
    pin: OutPinId,
)
    ensures
        eval_output_model(fuel, g, fns, cache, pin) matches Some((_, c)) ==> c.contains_key(pin)
            && grows(cache, c),
    decreases fuel, 0nat, 0nat,
{
    if !cache.contains_key(pin) && fuel > 0 {
        lemma_grow_compute((fuel - 1) as nat, g, fns, cache.insert(pin, None), pin);
    }
}

proof fn lemma_grow_get_in(
    fuel: nat,
    g: GraphData,
    fns: Seq<FunctionDef>,
    cache: CacheModel,
    n: NodeId,
    i: usize,
)
    ensures
        get_in_model(fuel, g, fns, cache, n, i) matches Some((_, c)) ==> grows(cache, c),
    decreases fuel, 1nat, 0nat,
{
    match source_pos(g.wires@, InPinId { node: n, input: i }) {
        Some(k) => lemma_grow_eval_output(fuel, g, fns, cache, g.wires@[k].0),
        None => {},
    }
}

proof fn lemma_grow_two_inputs(
    fuel: nat,
    g: GraphData,
    fns: Seq<FunctionDef>,
    cache: CacheModel,
    n: NodeId,
    first: usize,
    second: usize,
)
    ensures
        get_in_model(fuel, g, fns, cache, n, first) matches Some((_, c1)) ==> grows(cache, c1) && (
        get_in_model(fuel, g, fns, c1, n, second) matches Some((_, c2)) ==> grows(cache, c2)),
    decreases fuel, 2nat, 0nat,
{
    lemma_grow_get_in(fuel, g, fns, cache, n, first);
    match get_in_model(fuel, g, fns, cache, n, first) {
        Some((_, c1)) => lemma_grow_get_in(fuel, g, fns, c1, n, second),
        None => {},
    }
}

proof fn lemma_grow_concat(
    fuel: nat,
    g: GraphData,
    fns: Seq<FunctionDef>,
    cache: CacheModel,
    n: NodeId,
    count: usize,
    i: usize,
    acc: Seq<u8>,
)
    ensures
        concat_model(fuel, g, fns, cache, n, count, i, acc) matches Some((_, c)) ==> grows(cache, c),
    decreases fuel, 2nat, count - i,
{
    if i < count {
        lemma_grow_get_in(fuel, g, fns, cache, n, i);
        match get_in_model(fuel, g, fns, cache, n, i) {
            Some((Some(ValueModel::Byte(b)), c1)) => lemma_grow_concat(
                fuel,
                g,
                fns,
                c1,
                n,
                count,
                (i + 1) as usize,
                acc.push(b),
            ),
            _ => {},
        }
    }
}

proof fn lemma_grow_pack(
    fuel: nat,
    g: GraphData,
    fns: Seq<FunctionDef>,
    cache: CacheModel,
    n: NodeId,
    i: u8,
    byte: u8,
)
    ensures
        pack_model(fuel, g, fns, cache, n, i, byte) matches Some((_, c)) ==> grows(cache, c),
    decreases fuel, 2nat, 8 - i,
{
    if i < 8 {
        lemma_grow_get_in(fuel, g, fns, cache, n, i as usize);
        match get_in_model(fuel, g, fns, cache, n, i as usize) {
            Some((Some(ValueModel::Bit(bit)), c1)) => lemma_grow_pack(
                fuel,
                g,
                fns,
                c1,
                n,
                (i + 1) as u8,
                if bit {
                    byte | (1u8 << i)
                } else {
                    byte
                },
            ),
            _ => {},
        }
    }
}

proof fn lemma_grow_inject(
    fuel: nat,
    g: GraphData,
    fns: Seq<FunctionDef>,
    cache: CacheModel,
    n: NodeId,
    sub: GraphData,
    k: nat,
    arg: nat,
    sub_cache: CacheModel,
)
    ensures
        inject_model(fuel, g, fns, cache, n, sub, k, arg, sub_cache) matches Some((pc, _)) ==> grows(
            cache,
            pc,
        ),
    decreases fuel, 2nat, sub.nodes@.len() - k,
{
    if k < sub.nodes@.len() {
        if sub.nodes@[k as int].1 is Source {
            lemma_grow_get_in(fuel, g, fns, cache, n, arg as usize);
            match get_in_model(fuel, g, fns, cache, n, arg as usize) {
                Some((v, c1)) => lemma_grow_inject(
                    fuel,
                    g,
                    fns,
                    c1,
                    n,
                    sub,
                    k + 1,
                    arg + 1,
                    sub_cache.insert(OutPinId { node: NodeId(sub.nodes@[k as int].0), output: 0 }, v),
                ),
                None => {},
            }
        } else {
            lemma_grow_inject(fuel, g, fns, cache, n, sub, k + 1, arg, sub_cache);
        }
    }
}

proof fn lemma_grow_compute(
    fuel: nat,
    g: GraphData,
    fns: Seq<FunctionDef>,
    cache: CacheModel,
    pin: OutPinId,
)
    ensures
        compute_model(fuel, g, fns, cache, pin) matches Some((_, c)) ==> grows(cache, c),
    decreases fuel, 3nat, 0nat,
{
    match crate::graph::node_pos(g.nodes@, pin.node.0) {
        None => {},
        Some(p) => {
            let kind = g.nodes@[p].1;
            let n = pin.node;
            match kind {
                NodeKind::And | NodeKind::Or | NodeKind::Xor | NodeKind::Nand | NodeKind::Nor
                | NodeKind::Add | NodeKind::Sub | NodeKind::Mul | NodeKind::Div | NodeKind::Mod => {
                    lemma_grow_two_inputs(fuel, g, fns, cache, n, 0, 1);
                },
                NodeKind::Not => lemma_grow_get_in(fuel, g, fns, cache, n, 0),
                NodeKind::Shl | NodeKind::Shr => lemma_grow_two_inputs(fuel, g, fns, cache, n, 1, 0),
                NodeKind::Concat { count } => lemma_grow_concat(
                    fuel,
                    g,
                    fns,
                    cache,
                    n,
                    count as usize,
                    0,
                    Seq::empty(),
                ),
                NodeKind::Slice => lemma_grow_two_inputs(fuel, g, fns, cache, n, 0, 1),
                NodeKind::Pack => lemma_grow_pack(fuel, g, fns, cache, n, 0, 0),
                NodeKind::Unpack => lemma_grow_get_in(fuel, g, fns, cache, n, 0),
                NodeKind::FunctionCall { def_index, .. } => if def_index < fns.len() {
                    lemma_grow_inject(
                        fuel,
                        g,
                        fns,
                        cache,
                        n,
                        fns[def_index as int].graph,
                        0,
                        0,
                        Map::empty(),
                    );
                },
                _ => {},
            }
        },
    }
}

/// `p` is an output pin of a node of `g`.
pub open spec fn pin_of(g: GraphData, p: OutPinId) -> bool {
    exists|k: int|
        0 <= k < g.nodes@.len() && g.nodes@[k].0 == p.node.0 && p.output < (#[trigger] g.nodes@[k]).1.output_count()
}

/// Every key of the table is an output pin of a node of `g`.
pub open spec fn keys_ok(g: GraphData, c: CacheModel) -> bool {
    forall|p: OutPinId| #[trigger] c.contains_key(p) ==> pin_of(g, p)
}

/// Every wire that starts at a node of `g` starts at an output that node has (the node
/// being the first with that id, the one evaluation reads).
pub open spec fn sources_valid(g: GraphData) -> bool {
    forall|k: int|
        0 <= k < g.wires@.len() ==> (node_pos(g.nodes@, (#[trigger] g.wires@[k]).0.node.0) matches Some(a)
            ==> g.wires@[k].0.output < g.nodes@[a].1.output_count())
}

proof fn lemma_keys_eval_output(
    fuel: nat,
    g: GraphData,
    fns: Seq<FunctionDef>,
    cache: CacheModel,
    pin: OutPinId,
)
    requires
        keys_ok(g, cache),
        sources_valid(g),
        node_pos(g.nodes@, pin.node.0) is Some ==> pin_of(g, pin),
    ensures
        eval_output_model(fuel, g, fns, cache, pin) matches Some((_, c)) ==> keys_ok(g, c),
    decreases fuel, 0nat, 0nat,
{
    if !cache.contains_key(pin) && fuel > 0 {
        if node_pos(g.nodes@, pin.node.0) is Some {
            lemma_keys_compute((fuel - 1) as nat, g, fns, cache.insert(pin, None), pin);
        }
    }
}

proof fn lemma_keys_get_in(
    fuel: nat,
    g: GraphData,
    fns: Seq<FunctionDef>,
    cache: CacheModel,
    n: NodeId,
    i: usize,
)
    requires
        keys_ok(g, cache),
        sources_valid(g),
    ensures
        get_in_model(fuel, g, fns, cache, n, i) matches Some((_, c)) ==> keys_ok(g, c),
    decreases fuel, 1nat, 0nat,
{
    match source_pos(g.wires@, InPinId { node: n, input: i }) {
        Some(k) => {
            lemma_source_pos_from(g.wires@, InPinId { node: n, input: i }, 0);
            let src = g.wires@[k].0;
            lemma_node_pos_from(g.nodes@, src.node.0, 0);
            if node_pos(g.nodes@, src.node.0) is Some {
                let a = node_pos(g.nodes@, src.node.0).unwrap();
                assert(pin_of(g, src));
            }
            lemma_keys_eval_output(fuel, g, fns, cache, src);
        },
        None => {},
    }
}

proof fn lemma_keys_two_inputs(
    fuel: nat,
    g: GraphData,
    fns: Seq<FunctionDef>,
    cache: CacheModel,
    n: NodeId,
    first: usize,
    second: usize,
)
    requires
        keys_ok(g, cache),
        sources_valid(g),
    ensures
        get_in_model(fuel, g, fns, cache, n, first) matches Some((_, c1)) ==> keys_ok(g, c1) && (
        get_in_model(fuel, g, fns, c1, n, second) matches Some((_, c2)) ==> keys_ok(g, c2)),
    decreases fuel, 2nat, 0nat,
{
    lemma_keys_get_in(fuel, g, fns, cache, n, first);
    match get_in_model(fuel, g, fns, cache, n, first) {
        Some((_, c1)) => lemma_keys_get_in(fuel, g, fns, c1, n, second),
        None => {},
    }
}

proof fn lemma_keys_concat(
    fuel: nat,
    g: GraphData,
    fns: Seq<FunctionDef>,
    cache: CacheModel,
    n: NodeId,
    count: usize,
    i: usize,
    acc: Seq<u8>,
)
    requires
        keys_ok(g, cache),
        sources_valid(g),
    ensures
        concat_model(fuel, g, fns, cache, n, count, i, acc) matches Some((_, c)) ==> keys_ok(g, c),
    decreases fuel, 2nat, count - i,
{
    if i < count {
        lemma_keys_get_in(fuel, g, fns, cache, n, i);
        match get_in_model(fuel, g, fns, cache, n, i) {
            Some((Some(ValueModel::Byte(b)), c1)) => lemma_keys_concat(
                fuel,
                g,
                fns,
                c1,
                n,
                count,
                (i + 1) as usize,
                acc.push(b),
            ),
            _ => {},
        }
    }
}

proof fn lemma_keys_pack(
    fuel: nat,
    g: GraphData,
    fns: Seq<FunctionDef>,
    cache: CacheModel,
    n: NodeId,
    i: u8,
    byte: u8,
)
    requires
        keys_ok(g, cache),
        sources_valid(g),
    ensures
        pack_model(fuel, g, fns, cache, n, i, byte) matches Some((_, c)) ==> keys_ok(g, c),
    decreases fuel, 2nat, 8 - i,
{
    if i < 8 {
        lemma_keys_get_in(fuel, g, fns, cache, n, i as usize);
        match get_in_model(fuel, g, fns, cache, n, i as usize) {
            Some((Some(ValueModel::Bit(bit)), c1)) => lemma_keys_pack(
                fuel,
                g,
                fns,
                c1,
                n,
                (i + 1) as u8,
                if bit {
                    byte | (1u8 << i)
                } else {
                    byte
                },
            ),
            _ => {},
        }
    }
}

proof fn lemma_keys_inject(
    fuel: nat,
    g: GraphData,
    fns: Seq<FunctionDef>,
    cache: CacheModel,
    n: NodeId,
    sub: GraphData,
    k: nat,
    arg: nat,
    sub_cache: CacheModel,
)
    requires
        keys_ok(g, cache),
        sources_valid(g),
    ensures
        inject_model(fuel, g, fns, cache, n, sub, k, arg, sub_cache) matches Some((pc, _)) ==> keys_ok(
            g,
            pc,
        ),
    decreases fuel, 2nat, sub.nodes@.len() - k,
{
    if k < sub.nodes@.len() {
        if sub.nodes@[k as int].1 is Source {
            lemma_keys_get_in(fuel, g, fns, cache, n, arg as usize);
            match get_in_model(fuel, g, fns, cache, n, arg as usize) {
                Some((v, c1)) => lemma_keys_inject(
                    fuel,
                    g,
                    fns,
                    c1,
                    n,
                    sub,
                    k + 1,
                    arg + 1,
                    sub_cache.insert(OutPinId { node: NodeId(sub.nodes@[k as int].0), output: 0 }, v),
                ),
                None => {},
            }
        } else {
            lemma_keys_inject(fuel, g, fns, cache, n, sub, k + 1, arg, sub_cache);
        }
    }
}

proof fn lemma_keys_compute(
    fuel: nat,
    g: GraphData,
    fns: Seq<FunctionDef>,
    cache: CacheModel,
    pin: OutPinId,
)
    requires
        keys_ok(g, cache),
        sources_valid(g),
    ensures
        compute_model(fuel, g, fns, cache, pin) matches Some((_, c)) ==> keys_ok(g, c),
    decreases fuel, 3nat, 0nat,
{
    match crate::graph::node_pos(g.nodes@, pin.node.0) {
        None => {},
        Some(p) => {
            let kind = g.nodes@[p].1;
            let n = pin.node;
            match kind {
                NodeKind::And | NodeKind::Or | NodeKind::Xor | NodeKind::Nand | NodeKind::Nor
                | NodeKind::Add | NodeKind::Sub | NodeKind::Mul | NodeKind::Div | NodeKind::Mod => {
                    lemma_keys_two_inputs(fuel, g, fns, cache, n, 0, 1);
                },
                NodeKind::Not => lemma_keys_get_in(fuel, g, fns, cache, n, 0),
                NodeKind::Shl | NodeKind::Shr => lemma_keys_two_inputs(fuel, g, fns, cache, n, 1, 0),
                NodeKind::Concat { count } => lemma_keys_concat(
                    fuel,
                    g,
                    fns,
                    cache,
                    n,
                    count as usize,
                    0,
                    Seq::empty(),
                ),
                NodeKind::Slice => lemma_keys_two_inputs(fuel, g, fns, cache, n, 0, 1),
                NodeKind::Pack => lemma_keys_pack(fuel, g, fns, cache, n, 0, 0),
                NodeKind::Unpack => lemma_keys_get_in(fuel, g, fns, cache, n, 0),
                NodeKind::FunctionCall { def_index, .. } => if def_index < fns.len() {
                    lemma_keys_inject(
                        fuel,
                        g,
                        fns,
                        cache,
                        n,
                        fns[def_index as int].graph,
                        0,
                        0,
                        Map::empty(),
                    );
                },
                _ => {},
            }
        },
    }
}

proof fn lemma_outputs_cover(
    fuel: nat,
    g: GraphData,
    fns: Seq<FunctionDef>,
    cache: CacheModel,
    id: usize,
    out: usize,
    count: usize,
)
    ensures
        eval_outputs_model(fuel, g, fns, cache, id, out, count) matches Some(c) ==> grows(cache, c)
            && forall|o: usize|
            out <= o < count ==> #[trigger] c.contains_key(OutPinId { node: NodeId(id), output: o }),
    decreases count - out,
{
    if out < count {
        let pin = OutPinId { node: NodeId(id), output: out };
        lemma_grow_eval_output(fuel, g, fns, cache, pin);
        match eval_output_model(fuel, g, fns, cache, pin) {
            Some((_, c1)) => {
                lemma_outputs_cover(fuel, g, fns, c1, id, (out + 1) as usize, count);
            },
            None => {},
        }
    }
}

proof fn lemma_nodes_cover(fuel: nat, g: GraphData, fns: Seq<FunctionDef>, cache: CacheModel, k: int)
    requires
        0 <= k,
    ensures
        eval_nodes_model(fuel, g, fns, cache, k) matches Some(c) ==> grows(cache, c) && forall|
            j: int,
            o: usize,
        |
            k <= j < g.nodes@.len() && o < g.nodes@[j].1.output_count() ==> #[trigger] c.contains_key(
                OutPinId { node: NodeId(g.nodes@[j].0), output: o },
            ),
    decreases g.nodes@.len() - k,
{
    if k < g.nodes@.len() {
        let count = g.nodes@[k].1.output_count();
        lemma_outputs_cover(fuel, g, fns, cache, g.nodes@[k].0, 0, count);
        match eval_outputs_model(fuel, g, fns, cache, g.nodes@[k].0, 0, count) {
            Some(c1) => {
                lemma_nodes_cover(fuel, g, fns, c1, k + 1);
                match eval_nodes_model(fuel, g, fns, c1, k + 1) {
                    Some(c) => {
                        assert forall|j: int, o: usize|
                            k <= j < g.nodes@.len() && o < g.nodes@[j].1.output_count()
                                implies #[trigger] c.contains_key(
                            OutPinId { node: NodeId(g.nodes@[j].0), output: o },
                        ) by {
                            if j == k {
                                assert(c1.contains_key(
                                    OutPinId { node: NodeId(g.nodes@[j].0), output: o },
                                ));
                            }
                        }
                    },
                    None => {},
                }
            },
            None => {},
        }
    }
}

/// Evaluating a graph visits every output pin of every node: the table that `eval_graph`
/// returns has an entry for each of them.
pub proof fn law_eval_covers_every_output(g: GraphData, fns: Seq<FunctionDef>, k: int, out: usize)
    requires
        evaluates(g, fns),
        0 <= k < g.nodes@.len(),
        out < g.nodes@[k].1.output_count(),
    ensures
        eval_graph_model(max_fuel(), g, fns).unwrap().contains_key(
            OutPinId { node: NodeId(g.nodes@[k].0), output: out },
        ),
{
    lemma_nodes_cover(max_fuel(), g, fns, Map::empty(), 0);
}


proof fn lemma_keys_outputs(
    fuel: nat,
    g: GraphData,
    fns: Seq<FunctionDef>,
    cache: CacheModel,
    k: int,
    out: usize,
    count: usize,
)
    requires
        keys_ok(g, cache),
        sources_valid(g),
        0 <= k < g.nodes@.len(),
        count == g.nodes@[k].1.output_count(),
    ensures
        eval_outputs_model(fuel, g, fns, cache, g.nodes@[k].0, out, count) matches Some(c) ==> keys_ok(g, c),
    decreases count - out,
{
    if out < count {
        let pin = OutPinId { node: NodeId(g.nodes@[k].0), output: out };
        assert(pin_of(g, pin));
        lemma_keys_eval_output(fuel, g, fns, cache, pin);
        match eval_output_model(fuel, g, fns, cache, pin) {
            Some((_, c)) => lemma_keys_outputs(fuel, g, fns, c, k, (out + 1) as usize, count),
            None => {},
        }
    }
}

proof fn lemma_keys_nodes(fuel: nat, g: GraphData, fns: Seq<FunctionDef>, cache: CacheModel, k: int)
    requires
        keys_ok(g, cache),
        sources_valid(g),
    ensures
        eval_nodes_model(fuel, g, fns, cache, k) matches Some(c) ==> keys_ok(g, c),
    decreases g.nodes@.len() - k,
{
    if 0 <= k < g.nodes@.len() {
        let count = g.nodes@[k].1.output_count();
        lemma_keys_outputs(fuel, g, fns, cache, k, 0, count);
        match eval_outputs_model(fuel, g, fns, cache, g.nodes@[k].0, 0, count) {
            Some(c1) => lemma_keys_nodes(fuel, g, fns, c1, k + 1),
            None => {},
        }
    }
}

/// Evaluating a graph whose wires start at outputs their nodes have visits nothing else:
/// every key of the table that `eval_graph` returns is an output pin of a node of `g`.
/// With `law_eval_covers_every_output`, the keys are exactly those pins.
pub proof fn law_eval_visits_only_outputs(g: GraphData, fns: Seq<FunctionDef>, p: OutPinId)
    requires
        sources_valid(g),
        evaluates(g, fns),
        eval_graph_model(max_fuel(), g, fns).unwrap().contains_key(p),
    ensures
        pin_of(g, p),
{
    lemma_keys_nodes(max_fuel(), g, fns, Map::empty(), 0);
}


// ----- acyclic graphs: the memoised evaluation agrees with the pure meaning -----

/// Every wire goes from a node of lower rank to a node of higher rank.
pub open spec fn acyclic_by(g: GraphData, rank: spec_fn(usize) -> nat) -> bool {
    forall|k: int|
        0 <= k < g.wires@.len() ==> rank((#[trigger] g.wires@[k]).0.node.0) < rank(
            g.wires@[k].1.node.0,
        )
}

/// The wires of `g` form no cycle.
pub open spec fn acyclic(g: GraphData) -> bool {
    exists|rank: spec_fn(usize) -> nat| acyclic_by(g, rank)
}

/// A table is consistent with the pure meaning: it holds the arguments, and each entry is
/// the pin's value, except for the pins being computed (`guards`).
pub open spec fn consistent(
    g: GraphData,
    fns: Seq<FunctionDef>,
    args: CacheModel,
    cache: CacheModel,
    guards: Set<OutPinId>,
) -> bool {
    &&& forall|p: OutPinId| args.contains_key(p) ==> #[trigger] cache.contains_key(p)
    &&& forall|p: OutPinId| guards.contains(p) ==> #[trigger] cache.contains_key(p)
    &&& forall|p: OutPinId|
        #[trigger] cache.contains_key(p) && !guards.contains(p) ==> denotes(g, fns, args, p, cache[p])
}

/// Every guarded pin belongs to a node of rank at least `r`.
pub open spec fn guards_above(guards: Set<OutPinId>, rank: spec_fn(usize) -> nat, r: nat) -> bool {
    forall|s: OutPinId| #[trigger] guards.contains(s) ==> rank(s.node.0) >= r
}

proof fn lemma_dag_out(
    f: nat,
    g: GraphData,
    fns: Seq<FunctionDef>,
    args: CacheModel,
    cache: CacheModel,
    pin: OutPinId,
    guards: Set<OutPinId>,
    rank: spec_fn(usize) -> nat,
)
    requires
        acyclic_by(g, rank),
        consistent(g, fns, args, cache, guards),
        guards_above(guards, rank, rank(pin.node.0) + 1),
    ensures
        eval_output_model(f, g, fns, cache, pin) matches Some((v, c)) ==> denotes(g, fns, args, pin, v)
            && consistent(g, fns, args, c, guards),
    decreases f, 0nat, 0nat,
{
    if cache.contains_key(pin) {
        assert(!guards.contains(pin));
    } else if f > 0 {
        let c1 = cache.insert(pin, None);
        let g1 = guards.insert(pin);
        assert(consistent(g, fns, args, c1, g1)) by {
            assert forall|p: OutPinId| #[trigger] c1.contains_key(p) && !g1.contains(p) implies denotes(
                g,
                fns,
                args,
                p,
                c1[p],
            ) by {
                assert(cache.contains_key(p));
            }
        }
        lemma_dag_compute((f - 1) as nat, g, fns, args, c1, pin, g1, rank);
        match compute_model((f - 1) as nat, g, fns, c1, pin) {
            Some((r, c)) => {
                let f1 = choose|f1: nat| #[trigger] pure_compute(f1, g, fns, args, pin) == Some(r);
                assert(!args.contains_key(pin));
                assert(pure_out(f1 + 1, g, fns, args, pin) == Some(r));
                let c2 = c.insert(pin, r);
                assert forall|p: OutPinId| #[trigger] c2.contains_key(p) && !guards.contains(p) implies denotes(
                    g,
                    fns,
                    args,
                    p,
                    c2[p],
                ) by {
                    if p != pin {
                        assert(c.contains_key(p) && !g1.contains(p));
                    }
                }
            },
            None => {},
        }
    }
}

proof fn lemma_dag_in(
    f: nat,
    g: GraphData,
    fns: Seq<FunctionDef>,
    args: CacheModel,
    cache: CacheModel,
    n: NodeId,
    i: usize,
    guards: Set<OutPinId>,
    rank: spec_fn(usize) -> nat,
)
    requires
        acyclic_by(g, rank),
        consistent(g, fns, args, cache, guards),
        guards_above(guards, rank, rank(n.0)),
    ensures
        get_in_model(f, g, fns, cache, n, i) matches Some((v, c)) ==> (exists|f1: nat|
            #[trigger] pure_in(f1, g, fns, args, n, i) == Some(v)) && consistent(g, fns, args, c, guards),
    decreases f, 1nat, 0nat,
{
    let pin = InPinId { node: n, input: i };
    crate::graph::lemma_source_pos_from(g.wires@, pin, 0);
    match source_pos(g.wires@, pin) {
        Some(k) => {
            let src = g.wires@[k].0;
            assert(rank(src.node.0) < rank(n.0));
            lemma_dag_out(f, g, fns, args, cache, src, guards, rank);
            match eval_output_model(f, g, fns, cache, src) {
                Some((v, c)) => {
                    let f1 = choose|f1: nat| #[trigger] pure_out(f1, g, fns, args, src) == Some(v);
                    assert(pure_in(f1, g, fns, args, n, i) == Some(v));
                },
                None => {},
            }
        },
        None => {
            assert(pure_in(0, g, fns, args, n, i) == Some(None::<ValueModel>));
        },
    }
}

proof fn lemma_dag_binary(
    f: nat,
    g: GraphData,
    fns: Seq<FunctionDef>,
    args: CacheModel,
    cache: CacheModel,
    kind: NodeKind,
    n: NodeId,
    guards: Set<OutPinId>,
    rank: spec_fn(usize) -> nat,
)
    requires
        acyclic_by(g, rank),
        consistent(g, fns, args, cache, guards),
        guards_above(guards, rank, rank(n.0)),
    ensures
        binary_model(f, g, fns, cache, kind, n) matches Some((v, c)) ==> (exists|f1: nat|
            #[trigger] pure_binary(f1, g, fns, args, kind, n) == Some(v)) && consistent(
            g,
            fns,
            args,
            c,
            guards,
        ),
    decreases f, 2nat, 0nat,
{
    lemma_dag_in(f, g, fns, args, cache, n, 0, guards, rank);
    match get_in_model(f, g, fns, cache, n, 0) {
        None => {},
        Some((ra, c1)) => {
            let fa = choose|f1: nat| #[trigger] pure_in(f1, g, fns, args, n, 0) == Some(ra);
            match ra {
                None => {
                    assert(pure_binary(fa, g, fns, args, kind, n) == Some(None::<ValueModel>));
                },
                Some(a) => {
                    if !crate::model::takes_first(kind, a) {
                        assert(pure_binary(fa, g, fns, args, kind, n) == Some(None::<ValueModel>));
                    } else {
                        lemma_dag_in(f, g, fns, args, c1, n, 1, guards, rank);
                        match get_in_model(f, g, fns, c1, n, 1) {
                            None => {},
                            Some((rb, c2)) => {
                                let fb = choose|f1: nat|
                                    #[trigger] pure_in(f1, g, fns, args, n, 1) == Some(rb);
                                let ff = if fa <= fb {
                                    fb
                                } else {
                                    fa
                                };
                                lemma_mono_in(fa, ff, g, fns, args, n, 0);
                                lemma_mono_in(fb, ff, g, fns, args, n, 1);
                                assert(binary_model(f, g, fns, cache, kind, n) == Some(
                                    (
                                        match rb {
                                            None => None,
                                            Some(b) => crate::model::apply_binary(kind, a, b),
                                        },
                                        c2,
                                    ),
                                ));
                                assert(pure_binary(ff, g, fns, args, kind, n) == Some(
                                    match rb {
                                        None => None,
                                        Some(b) => crate::model::apply_binary(kind, a, b),
                                    },
                                ));
                            },
                        }
                    }
                },
            }
        },
    }
}


proof fn lemma_dag_not(
    f: nat,
    g: GraphData,
    fns: Seq<FunctionDef>,
    args: CacheModel,
    cache: CacheModel,
    n: NodeId,
    guards: Set<OutPinId>,
    rank: spec_fn(usize) -> nat,
)
    requires
        acyclic_by(g, rank),
        consistent(g, fns, args, cache, guards),
        guards_above(guards, rank, rank(n.0)),
    ensures
        not_model(f, g, fns, cache, n) matches Some((v, c)) ==> (exists|f1: nat|
            #[trigger] pure_not(f1, g, fns, args, n) == Some(v)) && consistent(g, fns, args, c, guards),
    decreases f, 2nat, 0nat,
{
    lemma_dag_in(f, g, fns, args, cache, n, 0, guards, rank);
    match get_in_model(f, g, fns, cache, n, 0) {
        None => {},
        Some((ra, c1)) => {
            let fa = choose|f1: nat| #[trigger] pure_in(f1, g, fns, args, n, 0) == Some(ra);
            assert(pure_not(fa, g, fns, args, n) == Some(
                match ra {
                    None => None,
                    Some(a) => crate::model::apply_not(a),
                },
            ));
        },
    }
}

proof fn lemma_dag_unpack(
    f: nat,
    g: GraphData,
    fns: Seq<FunctionDef>,
    args: CacheModel,
    cache: CacheModel,
    n: NodeId,
    o: usize,
    guards: Set<OutPinId>,
    rank: spec_fn(usize) -> nat,
)
    requires
        acyclic_by(g, rank),
        consistent(g, fns, args, cache, guards),
        guards_above(guards, rank, rank(n.0)),
    ensures
        unpack_model(f, g, fns, cache, n, o) matches Some((v, c)) ==> (exists|f1: nat|
            #[trigger] pure_unpack(f1, g, fns, args, n, o) == Some(v)) && consistent(
            g,
            fns,
            args,
            c,
            guards,
        ),
    decreases f, 2nat, 0nat,
{
    lemma_dag_in(f, g, fns, args, cache, n, 0, guards, rank);
    match get_in_model(f, g, fns, cache, n, 0) {
        None => {},
        Some((ra, c1)) => {
            let fa = choose|f1: nat| #[trigger] pure_in(f1, g, fns, args, n, 0) == Some(ra);
            assert(unpack_model(f, g, fns, cache, n, o) is Some ==> pure_unpack(fa, g, fns, args, n, o)
                == Some(unpack_model(f, g, fns, cache, n, o).unwrap().0));
        },
    }
}

proof fn lemma_dag_slice(
    f: nat,
    g: GraphData,
    fns: Seq<FunctionDef>,
    args: CacheModel,
    cache: CacheModel,
    n: NodeId,
    guards: Set<OutPinId>,
    rank: spec_fn(usize) -> nat,
)
    requires
        acyclic_by(g, rank),
        consistent(g, fns, args, cache, guards),
        guards_above(guards, rank, rank(n.0)),
    ensures
        slice_model(f, g, fns, cache, n) matches Some((v, c)) ==> (exists|f1: nat|
            #[trigger] pure_slice(f1, g, fns, args, n) == Some(v)) && consistent(g, fns, args, c, guards),
    decreases f, 2nat, 0nat,
{
    lemma_dag_in(f, g, fns, args, cache, n, 0, guards, rank);
    match get_in_model(f, g, fns, cache, n, 0) {
        None => {},
        Some((ra, c1)) => {
            let fa = choose|f1: nat| #[trigger] pure_in(f1, g, fns, args, n, 0) == Some(ra);
            match ra {
                Some(ValueModel::Word(w)) => {
                    lemma_dag_in(f, g, fns, args, c1, n, 1, guards, rank);
                    match get_in_model(f, g, fns, c1, n, 1) {
                        None => {},
                        Some((rb, c2)) => {
                            let fb = choose|f1: nat|
                                #[trigger] pure_in(f1, g, fns, args, n, 1) == Some(rb);
                            let ff = if fa <= fb {
                                fb
                            } else {
                                fa
                            };
                            lemma_mono_in(fa, ff, g, fns, args, n, 0);
                            lemma_mono_in(fb, ff, g, fns, args, n, 1);
                            assert(slice_model(f, g, fns, cache, n) is Some ==> pure_slice(
                                ff,
                                g,
                                fns,
                                args,
                                n,
                            ) == Some(slice_model(f, g, fns, cache, n).unwrap().0));
                        },
                    }
                },
                _ => {
                    assert(pure_slice(fa, g, fns, args, n) == Some(None::<ValueModel>));
                },
            }
        },
    }
}

proof fn lemma_dag_shift(
    f: nat,
    g: GraphData,
    fns: Seq<FunctionDef>,
    args: CacheModel,
    cache: CacheModel,
    kind: NodeKind,
    n: NodeId,
    guards: Set<OutPinId>,
    rank: spec_fn(usize) -> nat,
)
    requires
        acyclic_by(g, rank),
        consistent(g, fns, args, cache, guards),
        guards_above(guards, rank, rank(n.0)),
    ensures
        shift_model(f, g, fns, cache, kind, n) matches Some((v, c)) ==> (exists|f1: nat|
            #[trigger] pure_shift(f1, g, fns, args, kind, n) == Some(v)) && consistent(
            g,
            fns,
            args,
            c,
            guards,
        ),
    decreases f, 2nat, 0nat,
{
    lemma_dag_in(f, g, fns, args, cache, n, 1, guards, rank);
    match get_in_model(f, g, fns, cache, n, 1) {
        None => {},
        Some((ra, c1)) => {
            let fa = choose|f1: nat| #[trigger] pure_in(f1, g, fns, args, n, 1) == Some(ra);
            match ra {
                Some(ValueModel::Byte(amount)) => {
                    lemma_dag_in(f, g, fns, args, c1, n, 0, guards, rank);
                    match get_in_model(f, g, fns, c1, n, 0) {
                        None => {},
                        Some((rb, c2)) => {
                            let fb = choose|f1: nat|
                                #[trigger] pure_in(f1, g, fns, args, n, 0) == Some(rb);
                            let ff = if fa <= fb {
                                fb
                            } else {
                                fa
                            };
                            lemma_mono_in(fa, ff, g, fns, args, n, 1);
                            lemma_mono_in(fb, ff, g, fns, args, n, 0);
                            assert(shift_model(f, g, fns, cache, kind, n) is Some ==> pure_shift(
                                ff,
                                g,
                                fns,
                                args,
                                kind,
                                n,
                            ) == Some(shift_model(f, g, fns, cache, kind, n).unwrap().0));
                        },
                    }
                },
                _ => {
                    assert(pure_shift(fa, g, fns, args, kind, n) == Some(None::<ValueModel>));
                },
            }
        },
    }
}

proof fn lemma_dag_concat(
    f: nat,
    g: GraphData,
    fns: Seq<FunctionDef>,
    args: CacheModel,
    cache: CacheModel,
    n: NodeId,
    count: usize,
    i: usize,
    acc: Seq<u8>,
    guards: Set<OutPinId>,
    rank: spec_fn(usize) -> nat,
)
    requires
        acyclic_by(g, rank),
        consistent(g, fns, args, cache, guards),
        guards_above(guards, rank, rank(n.0)),
    ensures
        concat_model(f, g, fns, cache, n, count, i, acc) matches Some((v, c)) ==> (exists|f1: nat|
            #[trigger] pure_concat(f1, g, fns, args, n, count, i, acc) == Some(v)) && consistent(
            g,
            fns,
            args,
            c,
            guards,
        ),
    decreases f, 2nat, count - i,
{
    if i >= count {
        assert(pure_concat(0, g, fns, args, n, count, i, acc) == Some(
            Some(ValueModel::Bytes(acc)),
        ));
    } else {
        lemma_dag_in(f, g, fns, args, cache, n, i, guards, rank);
        match get_in_model(f, g, fns, cache, n, i) {
            None => {},
            Some((ra, c1)) => {
                let fa = choose|f1: nat| #[trigger] pure_in(f1, g, fns, args, n, i) == Some(ra);
                match ra {
                    Some(ValueModel::Byte(b)) => {
                        let i2 = (i + 1) as usize;
                        lemma_dag_concat(f, g, fns, args, c1, n, count, i2, acc.push(b), guards, rank);
                        match concat_model(f, g, fns, c1, n, count, i2, acc.push(b)) {
                            Some((v, c)) => {
                                let fb = choose|f1: nat|
                                    #[trigger] pure_concat(f1, g, fns, args, n, count, i2, acc.push(b))
                                        == Some(v);
                                let ff = if fa <= fb {
                                    fb
                                } else {
                                    fa
                                };
                                lemma_mono_in(fa, ff, g, fns, args, n, i);
                                crate::denote::lemma_mono_concat(
                                    fb,
                                    ff,
                                    g,
                                    fns,
                                    args,
                                    n,
                                    count,
                                    i2,
                                    acc.push(b),
                                );
                                assert(pure_concat(ff, g, fns, args, n, count, i, acc) == Some(v));
                            },
                            None => {},
                        }
                    },
                    _ => {
                        assert(pure_concat(fa, g, fns, args, n, count, i, acc) == Some(
                            None::<ValueModel>,
                        ));
                    },
                }
            },
        }
    }
}

proof fn lemma_dag_pack(
    f: nat,
    g: GraphData,
    fns: Seq<FunctionDef>,
    args: CacheModel,
    cache: CacheModel,
    n: NodeId,
    i: u8,
    byte: u8,
    guards: Set<OutPinId>,
    rank: spec_fn(usize) -> nat,
)
    requires
        acyclic_by(g, rank),
        consistent(g, fns, args, cache, guards),
        guards_above(guards, rank, rank(n.0)),
    ensures
        pack_model(f, g, fns, cache, n, i, byte) matches Some((v, c)) ==> (exists|f1: nat|
            #[trigger] pure_pack(f1, g, fns, args, n, i, byte) == Some(v)) && consistent(
            g,
            fns,
            args,
            c,
            guards,
        ),
    decreases f, 2nat, 8 - i,
{
    if i >= 8 {
        assert(pure_pack(0, g, fns, args, n, i, byte) == Some(Some(ValueModel::Byte(byte))));
    } else {
        lemma_dag_in(f, g, fns, args, cache, n, i as usize, guards, rank);
        match get_in_model(f, g, fns, cache, n, i as usize) {
            None => {},
            Some((ra, c1)) => {
                let fa = choose|f1: nat|
                    #[trigger] pure_in(f1, g, fns, args, n, i as usize) == Some(ra);
                match ra {
                    Some(ValueModel::Bit(bit)) => {
                        let i2 = (i + 1) as u8;
                        let b2 = if bit {
                            byte | (1u8 << i)
                        } else {
                            byte
                        };
                        lemma_dag_pack(f, g, fns, args, c1, n, i2, b2, guards, rank);
                        match pack_model(f, g, fns, c1, n, i2, b2) {
                            Some((v, c)) => {
                                let fb = choose|f1: nat|
                                    #[trigger] pure_pack(f1, g, fns, args, n, i2, b2) == Some(v);
                                let ff = if fa <= fb {
                                    fb
                                } else {
                                    fa
                                };
                                lemma_mono_in(fa, ff, g, fns, args, n, i as usize);
                                crate::denote::lemma_mono_pack(fb, ff, g, fns, args, n, i2, b2);
                                assert(pure_pack(ff, g, fns, args, n, i, byte) == Some(v));
                            },
                            None => {},
                        }
                    },
                    _ => {
                        assert(pure_pack(fa, g, fns, args, n, i, byte) == Some(None::<ValueModel>));
                    },
                }
            },
        }
    }
}

proof fn lemma_dag_inject(
    f: nat,
    g: GraphData,
    fns: Seq<FunctionDef>,
    args: CacheModel,
    cache: CacheModel,
    n: NodeId,
    sub: GraphData,
    k: nat,
    arg: nat,
    sc: CacheModel,
    guards: Set<OutPinId>,
    rank: spec_fn(usize) -> nat,
)
    requires
        acyclic_by(g, rank),
        consistent(g, fns, args, cache, guards),
        guards_above(guards, rank, rank(n.0)),
    ensures
        inject_model(f, g, fns, cache, n, sub, k, arg, sc) matches Some((pc, sc2)) ==> (exists|
            f1: nat,
        | #[trigger] pure_args(f1, g, fns, args, n, sub, k, arg, sc) == Some(sc2)) && consistent(
            g,
            fns,
            args,
            pc,
            guards,
        ),
    decreases f, 2nat, sub.nodes@.len() - k,
{
    if k >= sub.nodes@.len() {
        assert(pure_args(0, g, fns, args, n, sub, k, arg, sc) == Some(sc));
    } else if sub.nodes@[k as int].1 is Source {
        lemma_dag_in(f, g, fns, args, cache, n, arg as usize, guards, rank);
        match get_in_model(f, g, fns, cache, n, arg as usize) {
            None => {},
            Some((v, c1)) => {
                let fa = choose|f1: nat|
                    #[trigger] pure_in(f1, g, fns, args, n, arg as usize) == Some(v);
                let sc1 = sc.insert(OutPinId { node: NodeId(sub.nodes@[k as int].0), output: 0 }, v);
                lemma_dag_inject(f, g, fns, args, c1, n, sub, k + 1, arg + 1, sc1, guards, rank);
                match inject_model(f, g, fns, c1, n, sub, k + 1, arg + 1, sc1) {
                    Some((pc, sc2)) => {
                        let fb = choose|f1: nat|
                            #[trigger] pure_args(f1, g, fns, args, n, sub, k + 1, arg + 1, sc1)
                                == Some(sc2);
                        let ff = if fa <= fb {
                            fb
                        } else {
                            fa
                        };
                        lemma_mono_in(fa, ff, g, fns, args, n, arg as usize);
                        crate::denote::lemma_mono_args(fb, ff, g, fns, args, n, sub, k + 1, arg + 1, sc1);
                        assert(pure_args(ff, g, fns, args, n, sub, k, arg, sc) == Some(sc2));
                    },
                    None => {},
                }
            },
        }
    } else {
        lemma_dag_inject(f, g, fns, args, cache, n, sub, k + 1, arg, sc, guards, rank);
        match inject_model(f, g, fns, cache, n, sub, k + 1, arg, sc) {
            Some((pc, sc2)) => {
                let fb = choose|f1: nat|
                    #[trigger] pure_args(f1, g, fns, args, n, sub, k + 1, arg, sc) == Some(sc2);
                assert(pure_args(fb, g, fns, args, n, sub, k, arg, sc) == Some(sc2));
            },
            None => {},
        }
    }
}

proof fn lemma_dag_compute(
    f: nat,
    g: GraphData,
    fns: Seq<FunctionDef>,
    args: CacheModel,
    cache: CacheModel,
    pin: OutPinId,
    guards: Set<OutPinId>,
    rank: spec_fn(usize) -> nat,
)
    requires
        acyclic_by(g, rank),
        consistent(g, fns, args, cache, guards),
        guards_above(guards, rank, rank(pin.node.0)),
    ensures
        compute_model(f, g, fns, cache, pin) matches Some((v, c)) ==> (exists|f1: nat|
            #[trigger] pure_compute(f1, g, fns, args, pin) == Some(v)) && consistent(
            g,
            fns,
            args,
            c,
            guards,
        ),
    decreases f, 3nat, 0nat,
{
    match crate::graph::node_pos(g.nodes@, pin.node.0) {
        None => {},
        Some(p) => {
            let kind = g.nodes@[p].1;
            let n = pin.node;
            let o = pin.output;
            match kind {
                NodeKind::Constant(values) => {
                    assert(pure_compute(0, g, fns, args, pin) == Some(
                        compute_model(f, g, fns, cache, pin).unwrap().0,
                    ));
                },
                NodeKind::And | NodeKind::Or | NodeKind::Xor | NodeKind::Nand | NodeKind::Nor
                | NodeKind::Add | NodeKind::Sub | NodeKind::Mul | NodeKind::Div | NodeKind::Mod => {
                    lemma_dag_binary(f, g, fns, args, cache, kind, n, guards, rank);
                    if binary_model(f, g, fns, cache, kind, n) is Some {
                        let v = binary_model(f, g, fns, cache, kind, n).unwrap().0;
                        let f1 = choose|f1: nat| #[trigger] pure_binary(f1, g, fns, args, kind, n) == Some(v);
                        assert(pure_compute(f1, g, fns, args, pin) == Some(v));
                    }
                },
                NodeKind::Not => {
                    lemma_dag_not(f, g, fns, args, cache, n, guards, rank);
                    if not_model(f, g, fns, cache, n) is Some {
                        let v = not_model(f, g, fns, cache, n).unwrap().0;
                        let f1 = choose|f1: nat| #[trigger] pure_not(f1, g, fns, args, n) == Some(v);
                        assert(pure_compute(f1, g, fns, args, pin) == Some(v));
                    }
                },
                NodeKind::Shl | NodeKind::Shr => {
                    lemma_dag_shift(f, g, fns, args, cache, kind, n, guards, rank);
                    if shift_model(f, g, fns, cache, kind, n) is Some {
                        let v = shift_model(f, g, fns, cache, kind, n).unwrap().0;
                        let f1 = choose|f1: nat| #[trigger] pure_shift(f1, g, fns, args, kind, n) == Some(v);
                        assert(pure_compute(f1, g, fns, args, pin) == Some(v));
                    }
                },
                NodeKind::Concat { count } => {
                    lemma_dag_concat(f, g, fns, args, cache, n, count as usize, 0, Seq::empty(), guards, rank);
                    if concat_model(f, g, fns, cache, n, count as usize, 0, Seq::empty()) is Some {
                        let v = concat_model(f, g, fns, cache, n, count as usize, 0, Seq::empty()).unwrap().0;
                        let f1 = choose|f1: nat|
                            #[trigger] pure_concat(f1, g, fns, args, n, count as usize, 0, Seq::empty()) == Some(v);
                        assert(pure_compute(f1, g, fns, args, pin) == Some(v));
                    }
                },
                NodeKind::Slice => {
                    lemma_dag_slice(f, g, fns, args, cache, n, guards, rank);
                    if slice_model(f, g, fns, cache, n) is Some {
                        let v = slice_model(f, g, fns, cache, n).unwrap().0;
                        let f1 = choose|f1: nat| #[trigger] pure_slice(f1, g, fns, args, n) == Some(v);
                        assert(pure_compute(f1, g, fns, args, pin) == Some(v));
                    }
                },
                NodeKind::Pack => {
                    lemma_dag_pack(f, g, fns, args, cache, n, 0, 0, guards, rank);
                    if pack_model(f, g, fns, cache, n, 0, 0) is Some {
                        let v = pack_model(f, g, fns, cache, n, 0, 0).unwrap().0;
                        let f1 = choose|f1: nat| #[trigger] pure_pack(f1, g, fns, args, n, 0, 0) == Some(v);
                        assert(pure_compute(f1, g, fns, args, pin) == Some(v));
                    }
                },
                NodeKind::Unpack => {
                    lemma_dag_unpack(f, g, fns, args, cache, n, o, guards, rank);
                    if unpack_model(f, g, fns, cache, n, o) is Some {
                        let v = unpack_model(f, g, fns, cache, n, o).unwrap().0;
                        let f1 = choose|f1: nat| #[trigger] pure_unpack(f1, g, fns, args, n, o) == Some(v);
                        assert(pure_compute(f1, g, fns, args, pin) == Some(v));
                    }
                },
                NodeKind::FunctionCall { def_index, .. } => {
                    if def_index < fns.len() {
                        let sub = fns[def_index as int].graph;
                        lemma_dag_inject(f, g, fns, args, cache, n, sub, 0, 0, Map::empty(), guards, rank);
                        match inject_model(f, g, fns, cache, n, sub, 0, 0, Map::empty()) {
                            Some((pc, sc)) => {
                                let fa = choose|f1: nat|
                                    #[trigger] pure_args(f1, g, fns, args, n, sub, 0, 0, Map::empty()) == Some(sc);
                                match sink_model(f, sub, fns, sc, o, 0) {
                                    Some(v) => {
                                        let ff = if fa <= f {
                                            f
                                        } else {
                                            fa
                                        };
                                        crate::denote::lemma_mono_args(fa, ff, g, fns, args, n, sub, 0, 0, Map::empty());
                                        crate::model_mono::lemma_model_mono_sink(f, ff, sub, fns, sc, o, 0);
                                        assert(pure_compute(ff, g, fns, args, pin) == Some(v));
                                    },
                                    None => {},
                                }
                            },
                            None => {},
                        }
                    } else {
                        assert(pure_compute(0, g, fns, args, pin) == Some(None::<ValueModel>));
                    }
                },
                _ => {
                    assert(pure_compute(0, g, fns, args, pin) == Some(None::<ValueModel>));
                },
            }
        },
    }
}

proof fn lemma_dag_outputs(
    fuel: nat,
    g: GraphData,
    fns: Seq<FunctionDef>,
    cache: CacheModel,
    id: usize,
    out: usize,
    count: usize,
    rank: spec_fn(usize) -> nat,
)
    requires
        acyclic_by(g, rank),
        consistent(g, fns, Map::empty(), cache, Set::empty()),
    ensures
        eval_outputs_model(fuel, g, fns, cache, id, out, count) matches Some(c) ==> consistent(
            g,
            fns,
            Map::empty(),
            c,
            Set::empty(),
        ),
    decreases count - out,
{
    if out < count {
        let pin = OutPinId { node: NodeId(id), output: out };
        lemma_dag_out(fuel, g, fns, Map::empty(), cache, pin, Set::empty(), rank);
        match eval_output_model(fuel, g, fns, cache, pin) {
            Some((_, c1)) => lemma_dag_outputs(fuel, g, fns, c1, id, (out + 1) as usize, count, rank),
            None => {},
        }
    }
}

proof fn lemma_dag_nodes(
    fuel: nat,
    g: GraphData,
    fns: Seq<FunctionDef>,
    cache: CacheModel,
    k: int,
    rank: spec_fn(usize) -> nat,
)
    requires
        acyclic_by(g, rank),
        consistent(g, fns, Map::empty(), cache, Set::empty()),
    ensures
        eval_nodes_model(fuel, g, fns, cache, k) matches Some(c) ==> consistent(
            g,
            fns,
            Map::empty(),
            c,
            Set::empty(),
        ),
    decreases g.nodes@.len() - k,
{
    if 0 <= k < g.nodes@.len() {
        let count = g.nodes@[k].1.output_count();
        lemma_dag_outputs(fuel, g, fns, cache, g.nodes@[k].0, 0, count, rank);
        match eval_outputs_model(fuel, g, fns, cache, g.nodes@[k].0, 0, count) {
            Some(c1) => lemma_dag_nodes(fuel, g, fns, c1, k + 1, rank),
            None => {},
        }
    }
}

/// On a graph whose wires form no cycle, memoisation changes no value: each entry of the
/// table that `eval_graph` returns is the value of its pin by the recursive meaning without
/// memoisation (`denotes`, where a call is the callee's own evaluation), whatever order the
/// pins were visited in. The functions' subgraphs may hold cycles: each call evaluates its
/// callee in a table of its own.
pub proof fn law_eval_agrees_with_meaning_when_acyclic(g: GraphData, fns: Seq<FunctionDef>, p: OutPinId)
    requires
        acyclic(g),
        evaluates(g, fns),
        eval_graph_model(max_fuel(), g, fns).unwrap().contains_key(p),
    ensures
        denotes(g, fns, Map::empty(), p, eval_graph_model(max_fuel(), g, fns).unwrap()[p]),
{
    let rank = choose|r: spec_fn(usize) -> nat| acyclic_by(g, r);
    lemma_dag_nodes(max_fuel(), g, fns, Map::empty(), 0, rank);
}

/// On a graph whose wires form no cycle, each entry of the table that `eval_graph` returns
/// equals the value that a fresh evaluation of that pin alone (from an empty table) gives,
/// whatever order the pins were visited in: a fresh evaluation that completes, at any
/// recursion depth, gives the memoised value. The functions' subgraphs may hold cycles.
pub proof fn law_memoised_equals_fresh(g: GraphData, fns: Seq<FunctionDef>, p: OutPinId, depth: nat)
    requires
        acyclic(g),
        evaluates(g, fns),
        eval_graph_model(max_fuel(), g, fns).unwrap().contains_key(p),
    ensures
        eval_output_model(depth, g, fns, Map::empty(), p) matches Some((v, _)) ==> v
            == eval_graph_model(max_fuel(), g, fns).unwrap()[p],
{
    let rank = choose|r: spec_fn(usize) -> nat| acyclic_by(g, r);
    law_eval_agrees_with_meaning_when_acyclic(g, fns, p);
    assert(consistent(g, fns, Map::empty(), Map::empty(), Set::empty()));
    lemma_dag_out(depth, g, fns, Map::empty(), Map::empty(), p, Set::empty(), rank);
    if eval_output_model(depth, g, fns, Map::empty(), p) is Some {
        crate::denote::lemma_denotes_unique(
            g,
            fns,
            Map::empty(),
            p,
            eval_graph_model(max_fuel(), g, fns).unwrap()[p],
            eval_output_model(depth, g, fns, Map::empty(), p).unwrap().0,
        );
    }
}

} // verus!
