use std::collections::HashMap;

use vstd::prelude::*;

use crate::graph::OutPinId;
use crate::types::{opt_view, NodeValue, ValueModel};

verus! {

/// Mathematical model of an evaluation cache: the value (or its absence) memoised for each
/// output pin that has been visited.
pub type CacheModel = Map<OutPinId, Option<ValueModel>>;

/// The hash-table key of an output pin: its node id in the high 64 bits, its output index in
/// the low 64 bits.
pub open spec fn pin_key(p: OutPinId) -> u128 {
    ((p.node.0 as u128) << 64u128) | (p.output as u128)
}

/// Different pins have different keys.
proof fn lemma_pin_key_injective(p: OutPinId, q: OutPinId)
    requires
        pin_key(p) == pin_key(q),
    ensures
        p == q,
{
    let (a, b, c, d) = (p.node.0, p.output, q.node.0, q.output);
    assert(((a as u128) << 64u128) | (b as u128) == ((c as u128) << 64u128) | (d as u128) ==> a == c
        && b == d) by (bit_vector);
}

/// The key of `p`.
fn key_of(p: OutPinId) -> (k: u128)
    ensures
        k == pin_key(p),
{
    ((p.node.0 as u128) << 64u128) | (p.output as u128)
}

/// Memoisation table of the evaluator, keyed by output pin.
pub struct EvalCache {
    entries: HashMap<u128, Option<NodeValue>>,
    model: Ghost<CacheModel>,
}

impl View for EvalCache {
    type V = CacheModel;

    closed spec fn view(&self) -> CacheModel {
        self.model@
    }
}

impl EvalCache {
    /// Internal consistency of the table with its model.
    #[verifier::type_invariant]
    closed spec fn wf(&self) -> bool {
        &&& forall|p: OutPinId|
            #[trigger] self.model@.contains_key(p) <==> self.entries@.contains_key(pin_key(p))
        &&& forall|p: OutPinId|
            #[trigger] self.model@.contains_key(p) ==> self.model@[p] == opt_view(
                self.entries@[pin_key(p)],
            )
    }

    /// An empty table.
    pub fn new() -> (r: EvalCache)
        ensures
            r@ == CacheModel::empty(),
    {
        EvalCache { entries: HashMap::new(), model: Ghost(Map::empty()) }
    }

    /// The memoised entry of `pin`, if it was visited.
    pub fn get(&self, pin: OutPinId) -> (r: Option<&Option<NodeValue>>)
        ensures
            r is None <==> !self@.contains_key(pin),
            r matches Some(v) ==> opt_view(*v) == self@[pin],
    {
        broadcast use vstd::std_specs::hash::group_hash_axioms;

        proof {
            use_type_invariant(self);
        }
        let k = key_of(pin);
        let r = self.entries.get(&k);
        proof {
            if self.model@.contains_key(pin) {
                assert(self.entries@.contains_key(pin_key(pin)));
            }
        }
        r
    }

    /// Records `v` as the entry of `pin`, replacing any earlier entry.
    pub fn insert(&mut self, pin: OutPinId, v: Option<NodeValue>)
        ensures
            final(self)@ == old(self)@.insert(pin, opt_view(v)),
    {
        broadcast use vstd::std_specs::hash::group_hash_axioms;

        proof {
            use_type_invariant(&*self);
        }
        let k = key_of(pin);
        let ghost m = self.model@.insert(pin, opt_view(v));
        let mut table = EvalCache::new();
        std::mem::swap(&mut table, self);
        proof {
            use_type_invariant(&table);
        }
        let EvalCache { mut entries, model } = table;
        assert(model@ == old(self).model@);
        entries.insert(k, v);
        proof {
            assert forall|p: OutPinId| #[trigger] m.contains_key(p) <==> entries@.contains_key(
                pin_key(p),
            ) by {
                if pin_key(p) == pin_key(pin) {
                    lemma_pin_key_injective(p, pin);
                }
            }
            assert forall|p: OutPinId| #[trigger] m.contains_key(p) implies m[p] == opt_view(
                entries@[pin_key(p)],
            ) by {
                if pin_key(p) == pin_key(pin) {
                    lemma_pin_key_injective(p, pin);
                }
            }
        }
        *self = EvalCache { entries, model: Ghost(m) };
    }
}

} // verus!
