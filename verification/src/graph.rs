use vstd::prelude::*;

use crate::text::{
    append_decimal, append_hex, decimal, hex_digits, lemma_hex_digits_len, lemma_text_order_total,
    sort_texts, string_of,
    text_order, texts,
};
use crate::types::{title_of, KindModel, NodeKind, WireType};

verus! {

/// Identifier of a node within one graph.
#[derive(Clone, Copy, Debug, PartialEq, Eq, Hash, Structural)]
pub struct NodeId(pub usize);

/// An output port of a node.
#[derive(Clone, Copy, Debug, PartialEq, Eq, Hash, Structural)]
pub struct OutPinId {
    pub node: NodeId,
    pub output: usize,
}

/// An input port of a node.
#[derive(Clone, Copy, Debug, PartialEq, Eq, Hash, Structural)]
pub struct InPinId {
    pub node: NodeId,
    pub input: usize,
}

/// The first position at or after `i` whose entry carries node id `id`.
pub open spec fn node_pos_from(nodes: Seq<(usize, NodeKind)>, id: usize, i: int) -> Option<int>
    decreases nodes.len() - i,
{
    if i < 0 || i >= nodes.len() {
        None
    } else if nodes[i].0 == id {
        Some(i)
    } else {
        node_pos_from(nodes, id, i + 1)
    }
}

/// The first position whose entry carries node id `id`.
pub open spec fn node_pos(nodes: Seq<(usize, NodeKind)>, id: usize) -> Option<int> {
    node_pos_from(nodes, id, 0)
}

/// The first position at or after `k` of a wire that ends at `pin`.
pub open spec fn source_pos_from(wires: Seq<(OutPinId, InPinId)>, pin: InPinId, k: int) -> Option<
    int,
>
    decreases wires.len() - k,
{
    if k < 0 || k >= wires.len() {
        None
    } else if wires[k].1 == pin {
        Some(k)
    } else {
        source_pos_from(wires, pin, k + 1)
    }
}

/// The first wire that ends at `pin`, if any.
pub open spec fn source_pos(wires: Seq<(OutPinId, InPinId)>, pin: InPinId) -> Option<int> {
    source_pos_from(wires, pin, 0)
}

pub proof fn lemma_node_pos_from(nodes: Seq<(usize, NodeKind)>, id: usize, i: int)
    requires
        0 <= i,
    ensures
        node_pos_from(nodes, id, i) matches Some(p) ==> i <= p < nodes.len() && nodes[p].0 == id
            && forall|j: int| i <= j < p ==> nodes[j].0 != id,
        node_pos_from(nodes, id, i) is None ==> forall|j: int| i <= j < nodes.len() ==> nodes[j].0
            != id,
    decreases nodes.len() - i,
{
    if i < nodes.len() && nodes[i].0 != id {
        lemma_node_pos_from(nodes, id, i + 1);
    }
}

pub proof fn lemma_source_pos_from(wires: Seq<(OutPinId, InPinId)>, pin: InPinId, k: int)
    requires
        0 <= k,
    ensures
        source_pos_from(wires, pin, k) matches Some(p) ==> k <= p < wires.len() && wires[p].1 == pin
            && forall|j: int| k <= j < p ==> wires[j].1 != pin,
        source_pos_from(wires, pin, k) is None ==> forall|j: int|
            k <= j < wires.len() ==> wires[j].1 != pin,
    decreases wires.len() - k,
{
    if k < wires.len() && wires[k].1 != pin {
        lemma_source_pos_from(wires, pin, k + 1);
    }
}

/// Serializable graph representation: nodes with stable ids, and wires between pins.
/// Node positions are not stored here.
#[derive(Debug)]
pub struct GraphData {
    /// `(stable_id, node_kind)`.
    pub nodes: Vec<(usize, NodeKind)>,
    pub wires: Vec<(OutPinId, InPinId)>,
}

impl Default for GraphData {
    /// A graph with no node and no wire.
    fn default() -> (r: GraphData)
        ensures
            r.nodes@.len() == 0,
            r.wires@.len() == 0,
    {
        GraphData { nodes: Vec::new(), wires: Vec::new() }
    }
}

impl GraphData {
    /// Position of the first node entry with id `id`.
    pub fn find_node(&self, id: NodeId) -> (r: Option<usize>)
        ensures
            r matches Some(p) ==> node_pos(self.nodes@, id.0) == Some(p as int),
            r is None ==> node_pos(self.nodes@, id.0) is None,
    {
        let mut i: usize = 0;
        while i < self.nodes.len()
            invariant
                0 <= i <= self.nodes@.len(),
                node_pos(self.nodes@, id.0) == node_pos_from(self.nodes@, id.0, i as int),
            decreases self.nodes@.len() - i,
        {
            if self.nodes[i].0 == id.0 {
                return Some(i);
            }
            i = i + 1;
        }
        None
    }

    /// The source of the first wire that ends at `pin`.
    pub fn first_source(&self, pin: InPinId) -> (r: Option<OutPinId>)
        ensures
            r matches Some(src) ==> source_pos(self.wires@, pin) matches Some(k) && self.wires@[k].0
                == src,
            r is None ==> source_pos(self.wires@, pin) is None,
    {
        let mut k: usize = 0;
        while k < self.wires.len()
            invariant
                0 <= k <= self.wires@.len(),
                source_pos(self.wires@, pin) == source_pos_from(self.wires@, pin, k as int),
            decreases self.wires@.len() - k,
        {
            if self.wires[k].1 == pin {
                return Some(self.wires[k].0);
            }
            k = k + 1;
        }
        None
    }
}

/// A user-defined function: a named subgraph whose `Source` nodes receive the call's
/// arguments and whose `Sink` inputs are the call's results.
#[derive(Debug)]
pub struct FunctionDef {
    pub name: String,
    pub graph: GraphData,
}


/// The models of node entries.
pub open spec fn entries_view(s: Seq<(usize, NodeKind)>) -> Seq<(usize, KindModel)> {
    s.map_values(|e: (usize, NodeKind)| (e.0, e.1@))
}

/// Mathematical model of a graph.
pub struct GraphModel {
    pub nodes: Seq<(usize, KindModel)>,
    pub wires: Seq<(OutPinId, InPinId)>,
}

impl View for GraphData {
    type V = GraphModel;

    open spec fn view(&self) -> GraphModel {
        GraphModel { nodes: entries_view(self.nodes@), wires: self.wires@ }
    }
}

/// Mathematical model of a function definition.
pub struct FunctionModel {
    pub name: Seq<char>,
    pub graph: GraphModel,
}

impl View for FunctionDef {
    type V = FunctionModel;

    open spec fn view(&self) -> FunctionModel {
        FunctionModel { name: self.name@, graph: self.graph@ }
    }
}

/// The models of a sequence of function definitions.
pub open spec fn functions_view(s: Seq<FunctionDef>) -> Seq<FunctionModel> {
    s.map_values(|f: FunctionDef| f@)
}

/// Copies node entries, keeping their models.
pub fn clone_entries(s: &Vec<(usize, NodeKind)>) -> (r: Vec<(usize, NodeKind)>)
    ensures
        entries_view(r@) == entries_view(s@),
{
    let mut r: Vec<(usize, NodeKind)> = Vec::new();
    let mut i: usize = 0;
    while i < s.len()
        invariant
            i <= s@.len(),
            r@.len() == i,
            forall|j: int| 0 <= j < i ==> r@[j].0 == s@[j].0 && r@[j].1@ == s@[j].1@,
        decreases s@.len() - i,
    {
        r.push((s[i].0, s[i].1.clone()));
        i = i + 1;
    }
    assert(entries_view(r@) =~= entries_view(s@));
    r
}

/// Copies wires.
pub fn clone_wires(s: &Vec<(OutPinId, InPinId)>) -> (r: Vec<(OutPinId, InPinId)>)
    ensures
        r@ == s@,
{
    let mut r: Vec<(OutPinId, InPinId)> = Vec::new();
    let mut i: usize = 0;
    while i < s.len()
        invariant
            i <= s@.len(),
            r@ == s@.subrange(0, i as int),
        decreases s@.len() - i,
    {
        r.push(s[i]);
        i = i + 1;
    }
    assert(r@ =~= s@);
    r
}

impl Clone for GraphData {
    fn clone(&self) -> (r: Self)
        ensures
            r@ == self@,
    {
        GraphData { nodes: clone_entries(&self.nodes), wires: clone_wires(&self.wires) }
    }
}

impl Clone for FunctionDef {
    fn clone(&self) -> (r: Self)
        ensures
            r@ == self@,
    {
        FunctionDef { name: self.name.clone(), graph: self.graph.clone() }
    }
}


/// The digest of a sequence of strings by `std`'s `DefaultHasher`.
pub uninterp spec fn default_hasher_digest(entries: Seq<Seq<char>>) -> u64;

/// `DefaultHasher::new()`, fed the `Vec<String>` through its `Hash` impl, then `finish`:
/// the digest depends on the strings alone, which is all that is claimed.
#[verifier::external_body]
fn digest_strings(entries: &Vec<String>) -> (h: u64)
    ensures
        h == default_hasher_digest(texts(entries@)),
{
    let mut hasher = std::collections::hash_map::DefaultHasher::new();
    std::hash::Hash::hash(entries, &mut hasher);
    std::hash::Hasher::finish(&hasher)
}

/// The structural summary of a node: its title, input count and output count.
pub open spec fn node_summary(k: NodeKind) -> Seq<char> {
    title_of(k@) + ":"@ + decimal(k.input_count() as nat) + ":"@ + decimal(k.output_count() as nat)
}

/// The summaries of the nodes of a graph, in order.
pub open spec fn node_summaries(nodes: Seq<(usize, NodeKind)>) -> Seq<Seq<char>> {
    nodes.map_values(|e: (usize, NodeKind)| node_summary(e.1))
}

/// The structural hash of a graph: the digest of its node summaries in sorted order.
pub open spec fn structure_hash(g: GraphData) -> u64 {
    default_hasher_digest(node_summaries(g.nodes@).sort_by(text_order()))
}

/// The shape of a node: its title, input count and output count.
pub open spec fn node_shape(k: NodeKind) -> (Seq<char>, usize, usize) {
    (title_of(k@), k.input_count(), k.output_count())
}

/// The shapes of the nodes of a graph, in order.
pub open spec fn node_shapes(nodes: Seq<(usize, NodeKind)>) -> Seq<(Seq<char>, usize, usize)> {
    nodes.map_values(|e: (usize, NodeKind)| node_shape(e.1))
}

/// The summary written for a node of shape `t`.
pub open spec fn shape_summary(t: (Seq<char>, usize, usize)) -> Seq<char> {
    t.0 + ":"@ + decimal(t.1 as nat) + ":"@ + decimal(t.2 as nat)
}

/// Mapping two sequences with the same elements gives sequences with the same elements.
proof fn lemma_map_keeps_multiset<A, B>(s1: Seq<A>, s2: Seq<A>, f: spec_fn(A) -> B)
    requires
        s1.to_multiset() == s2.to_multiset(),
    ensures
        s1.map_values(f).to_multiset() == s2.map_values(f).to_multiset(),
    decreases s1.len(),
{
    broadcast use vstd::seq_lib::group_to_multiset_ensures;
    broadcast use vstd::multiset::group_multiset_axioms;

    vstd::seq_lib::to_multiset_len(s1);
    vstd::seq_lib::to_multiset_len(s2);
    if s1.len() == 0 {
        assert(s2.len() == 0);
        assert(s1.map_values(f) =~= Seq::<B>::empty());
        assert(s2.map_values(f) =~= Seq::<B>::empty());
    } else {
        let x = s1.last();
        assert(s1.to_multiset().contains(x));
        assert(s2.contains(x));
        let i = choose|i: int| 0 <= i < s2.len() && s2[i] == x;
        let s1p = s1.drop_last();
        let s2p = s2.remove(i);
        assert(s1 =~= s1p.push(x));
        assert(s2 =~= s2p.insert(i, x));
        vstd::seq_lib::to_multiset_insert(s2p, i, x);
        assert(s1p.to_multiset().insert(x) == s2p.to_multiset().insert(x));
        assert(s1p.to_multiset() =~= s1p.to_multiset().insert(x).remove(x));
        assert(s2p.to_multiset() =~= s2p.to_multiset().insert(x).remove(x));
        lemma_map_keeps_multiset(s1p, s2p, f);
        assert(s1.map_values(f) =~= s1p.map_values(f).push(f(x)));
        assert(s2.map_values(f) =~= s2p.map_values(f).insert(i, f(x)));
        vstd::seq_lib::to_multiset_insert(s2p.map_values(f), i, f(x));
    }
}

/// The structural hash depends on the shapes of the nodes alone (title, input count and
/// output count), counted with multiplicity: not on their order, the node ids, the wires,
/// constant values or file names. Two unnamed functions whose nodes have the same shapes
/// therefore have the same display name.
pub proof fn law_structure_hash_ignores_order(g1: GraphData, g2: GraphData)
    requires
        node_shapes(g1.nodes@).to_multiset() == node_shapes(g2.nodes@).to_multiset(),
    ensures
        structure_hash(g1) == structure_hash(g2),
        hash_label_of(structure_hash(g1)) == hash_label_of(structure_hash(g2)),
{
    let f = |t: (Seq<char>, usize, usize)| shape_summary(t);
    lemma_map_keeps_multiset(node_shapes(g1.nodes@), node_shapes(g2.nodes@), f);
    assert(node_summaries(g1.nodes@) =~= node_shapes(g1.nodes@).map_values(f));
    assert(node_summaries(g2.nodes@) =~= node_shapes(g2.nodes@).map_values(f));
    let s1 = node_summaries(g1.nodes@);
    let s2 = node_summaries(g2.nodes@);
    lemma_text_order_total();
    s1.lemma_sort_by_ensures(text_order());
    s2.lemma_sort_by_ensures(text_order());
    vstd::seq_lib::lemma_sorted_unique(s1.sort_by(text_order()), s2.sort_by(text_order()), text_order());
}

/// The label of an unnamed function: `#` and the low 32 bits of its hash in eight
/// lower-case hexadecimal digits.
pub open spec fn hash_label_of(hash: u64) -> Seq<char> {
    "#"@ + hex_digits((hash as u32) as nat, 8, false)
}

/// The label of an unnamed function whose structural hash is `hash`.
pub fn hash_label(hash: u64) -> (r: String)
    ensures
        r@ == hash_label_of(hash),
{
    let mut s = string_of("#");
    append_hex(&mut s, (hash as u32) as u64, 8, false);
    s
}

/// The summary of one node.
fn summary(k: &NodeKind) -> (r: String)
    ensures
        r@ == node_summary(*k),
{
    let mut s = k.node_title();
    s.append(":");
    append_decimal(&mut s, k.input_count() as u64);
    s.append(":");
    append_decimal(&mut s, k.output_count() as u64);
    s
}

/// The node kinds that a function's `Source` and `Sink` terminals stand for.
pub open spec fn terminal_count(nodes: Seq<(usize, NodeKind)>, sinks: bool) -> nat
    decreases nodes.len(),
{
    if nodes.len() == 0 {
        0
    } else {
        terminal_count(nodes.drop_last(), sinks) + if (sinks && nodes.last().1 is Sink) || (!sinks
            && nodes.last().1 is Source) {
            1nat
        } else {
            0nat
        }
    }
}

impl FunctionDef {
    /// A new function named `name`, whose subgraph holds a `Source` (id 0, for the
    /// arguments) and a `Sink` (id 1, for the results), not connected.
    pub fn new(name: &str) -> (r: FunctionDef)
        ensures
            r@.name == name@,
            r@.graph.nodes == seq![
                (0usize, KindModel::Source { filename: "args"@ }),
                (1usize, KindModel::Sink),
            ],
            r@.graph.wires.len() == 0,
    {
        let graph = GraphData {
            nodes: vec![(0, NodeKind::Source { filename: string_of("args") }), (1, NodeKind::Sink)],
            wires: Vec::new(),
        };
        let r = FunctionDef { name: string_of(name), graph };
        assert(r@.graph.nodes =~= seq![
            (0usize, KindModel::Source { filename: "args"@ }),
            (1usize, KindModel::Sink),
        ]);
        r
    }

    /// The structural hash of the subgraph: the summaries of its nodes (title, input count,
    /// output count), sorted, then digested.
    fn graph_hash(&self) -> (r: u64)
        ensures
            r == structure_hash(self.graph),
    {
        let mut entries: Vec<String> = Vec::new();
        let mut k: usize = 0;
        while k < self.graph.nodes.len()
            invariant
                k <= self.graph.nodes@.len(),
                texts(entries@) == node_summaries(self.graph.nodes@).take(k as int),
            decreases self.graph.nodes@.len() - k,
        {
            let ghost before = texts(entries@);
            let sm = summary(&self.graph.nodes[k].1);
            let ghost smv = sm@;
            assert(before.len() == k);
            entries.push(sm);
            assert(entries@.len() == k + 1);
            assert(entries@[k as int]@ == smv);
            assert(smv == node_summary(self.graph.nodes@[k as int].1));
            assert(texts(entries@)[k as int] == smv);
            assert(node_summaries(self.graph.nodes@)[k as int] == smv);
            assert(texts(entries@) =~= node_summaries(self.graph.nodes@).take(k + 1));
            k = k + 1;
        }
        assert(node_summaries(self.graph.nodes@).take(self.graph.nodes@.len() as int) =~= node_summaries(self.graph.nodes@));
        let sorted = sort_texts(&entries);
        digest_strings(&sorted)
    }

    /// The name shown for the function: its name, or its structural hash label when the
    /// name is empty.
    pub fn display_name(&self) -> (r: String)
        ensures
            r@ == if self.name@.len() == 0 {
                hash_label_of(structure_hash(self.graph))
            } else {
                self.name@
            },
            r@.len() == if self.name@.len() == 0 {
                9
            } else {
                self.name@.len()
            },
    {
        proof {
            reveal_strlit("#");
            lemma_hex_digits_len((structure_hash(self.graph) as u32) as nat, 8, false);
        }
        if self.name.as_str().is_empty() {
            hash_label(self.graph_hash())
        } else {
            self.name.clone()
        }
    }

    /// The port types of a call of this function: one per output of each `Source` node
    /// (its inputs) and one per input of each `Sink` node (its outputs), in node order; all
    /// are `Byte`.
    pub fn call_types(&self) -> (r: (Vec<WireType>, Vec<WireType>))
        ensures
            r.0@ == Seq::new(terminal_count(self.graph.nodes@, false), |i: int| WireType::Byte),
            r.1@ == Seq::new(terminal_count(self.graph.nodes@, true), |i: int| WireType::Byte),
    {
        let mut in_types: Vec<WireType> = Vec::new();
        let mut out_types: Vec<WireType> = Vec::new();
        let mut k: usize = 0;
        while k < self.graph.nodes.len()
            invariant
                k <= self.graph.nodes@.len(),
                in_types@ == Seq::new(terminal_count(self.graph.nodes@.take(k as int), false), |i: int| WireType::Byte),
                out_types@ == Seq::new(terminal_count(self.graph.nodes@.take(k as int), true), |i: int| WireType::Byte),
            decreases self.graph.nodes@.len() - k,
        {
            let node = &self.graph.nodes[k].1;
            assert(self.graph.nodes@.take(k + 1).drop_last() =~= self.graph.nodes@.take(k as int));
            match node {
                NodeKind::Source { .. } => {
                    let mut i: usize = 0;
                    let n = node.output_count();
                    while i < n
                        invariant
                            n == 1,
                            i <= n,
                            *node is Source,
                            in_types@ == Seq::new(terminal_count(self.graph.nodes@.take(k as int), false) + i as nat, |i: int| WireType::Byte),
                        decreases n - i,
                    {
                        in_types.push(node.output_wire_type(i));
                        assert(in_types@ =~= Seq::new(terminal_count(self.graph.nodes@.take(k as int), false) + i as nat + 1, |i: int| WireType::Byte));
                        i = i + 1;
                    }
                },
                NodeKind::Sink => {
                    let mut i: usize = 0;
                    let n = node.input_count();
                    while i < n
                        invariant
                            n == 1,
                            i <= n,
                            *node is Sink,
                            out_types@ == Seq::new(terminal_count(self.graph.nodes@.take(k as int), true) + i as nat, |i: int| WireType::Byte),
                        decreases n - i,
                    {
                        out_types.push(node.input_wire_type(i));
                        assert(out_types@ =~= Seq::new(terminal_count(self.graph.nodes@.take(k as int), true) + i as nat + 1, |i: int| WireType::Byte));
                        i = i + 1;
                    }
                },
                _ => {},
            }
            assert(in_types@ =~= Seq::new(terminal_count(self.graph.nodes@.take(k + 1), false), |i: int| WireType::Byte));
            assert(out_types@ =~= Seq::new(terminal_count(self.graph.nodes@.take(k + 1), true), |i: int| WireType::Byte));
            k = k + 1;
        }
        assert(self.graph.nodes@.take(self.graph.nodes@.len() as int) =~= self.graph.nodes@);
        (in_types, out_types)
    }
}


/// Whether a wire ends at `pin`.
pub open spec fn ends_at(pin: InPinId) -> spec_fn((OutPinId, InPinId)) -> bool {
    |w: (OutPinId, InPinId)| w.1 == pin
}

/// The output pin a wire starts from.
pub open spec fn wire_source() -> spec_fn((OutPinId, InPinId)) -> OutPinId {
    |w: (OutPinId, InPinId)| w.0
}

/// The sources of the wires of `wires` that end at `pin`, in wire order.
pub open spec fn sources_in(wires: Seq<(OutPinId, InPinId)>, pin: InPinId) -> Seq<OutPinId> {
    wires.filter(ends_at(pin)).map_values(wire_source())
}

/// A read-only view of a node graph: its nodes with their ids, and its wires.
pub trait Graph<N> {
    /// The nodes with their ids, in iteration order.
    spec fn node_entries(&self) -> Seq<(NodeId, N)>;

    /// The wires, in order.
    spec fn wire_entries(&self) -> Seq<(OutPinId, InPinId)>;

    /// The nodes with their ids, in iteration order.
    fn nodes(&self) -> (r: Vec<(NodeId, &N)>)
        ensures
            r@.len() == self.node_entries().len(),
            forall|i: int|
                0 <= i < r@.len() ==> (#[trigger] r@[i]).0 == self.node_entries()[i].0 && *r@[i].1
                    == self.node_entries()[i].1,
    ;

    /// The first node with id `id`; the id must be present.
    fn node(&self, id: NodeId) -> (r: &N)
        requires
            exists|i: int| 0 <= i < self.node_entries().len() && self.node_entries()[i].0 == id,
        ensures
            exists|i: int|
                0 <= i < self.node_entries().len() && self.node_entries()[i].0 == id && *r
                    == self.node_entries()[i].1 && forall|j: int|
                    0 <= j < i ==> self.node_entries()[j].0 != id,
    ;

    /// The sources of the wires that end at `pin`, in wire order.
    fn sources_of(&self, pin: InPinId) -> (r: Vec<OutPinId>)
        ensures
            r@ == sources_in(self.wire_entries(), pin),
    ;
}

impl Graph<NodeKind> for GraphData {
    open spec fn node_entries(&self) -> Seq<(NodeId, NodeKind)> {
        self.nodes@.map_values(|e: (usize, NodeKind)| (NodeId(e.0), e.1))
    }

    open spec fn wire_entries(&self) -> Seq<(OutPinId, InPinId)> {
        self.wires@
    }

    fn nodes(&self) -> (r: Vec<(NodeId, &NodeKind)>) {
        let mut r: Vec<(NodeId, &NodeKind)> = Vec::new();
        let mut k: usize = 0;
        while k < self.nodes.len()
            invariant
                k <= self.nodes@.len(),
                r@.len() == k,
                forall|i: int|
                    0 <= i < k ==> (#[trigger] r@[i]).0 == NodeId(self.nodes@[i].0) && *r@[i].1
                        == self.nodes@[i].1,
            decreases self.nodes@.len() - k,
        {
            r.push((NodeId(self.nodes[k].0), &self.nodes[k].1));
            k = k + 1;
        }
        r
    }

    fn node(&self, id: NodeId) -> (r: &NodeKind) {
        proof {
            lemma_node_pos_from(self.nodes@, id.0, 0);
            let i = choose|i: int| 0 <= i < self.node_entries().len() && self.node_entries()[i].0 == id;
            assert(self.nodes@[i].0 == id.0);
        }
        match self.find_node(id) {
            Some(p) => {
                proof {
                    assert(self.node_entries()[p as int].0 == id);
                    assert forall|j: int| 0 <= j < p implies self.node_entries()[j].0 != id by {
                        assert(self.nodes@[j].0 != id.0);
                    }
                }
                &self.nodes[p].1
            },
            None => {
                proof {
                    assert(false);
                }
                &self.nodes[0].1
            },
        }
    }

    fn sources_of(&self, pin: InPinId) -> (r: Vec<OutPinId>) {
        let ghost p = ends_at(pin);
        let ghost f = wire_source();
        let mut r: Vec<OutPinId> = Vec::new();
        let mut k: usize = 0;
        while k < self.wires.len()
            invariant
                k <= self.wires@.len(),
                p == ends_at(pin),
                f == wire_source(),
                r@ == self.wires@.take(k as int).filter(p).map_values(f),
            decreases self.wires@.len() - k,
        {
            proof {
                reveal_with_fuel(Seq::<_>::filter, 1);
                assert(self.wires@.take(k + 1).drop_last() =~= self.wires@.take(k as int));
            }
            if self.wires[k].1 == pin {
                r.push(self.wires[k].0);
                proof {
                    assert(self.wires@.take(k + 1).filter(p) == self.wires@.take(k as int).filter(p).push(self.wires@[k as int]));
                    assert(r@ =~= self.wires@.take(k + 1).filter(p).map_values(f));
                }
            } else {
                assert(self.wires@.take(k + 1).filter(p) == self.wires@.take(k as int).filter(p));
            }
            k = k + 1;
        }
        proof {
            assert(self.wires@.take(self.wires@.len() as int) =~= self.wires@);
            reveal_with_fuel(Seq::<_>::filter, 1);
        }
        r
    }
}

} // verus!
