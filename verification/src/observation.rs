//! Pull-style observation edges.

use vstd::prelude::*;

use crate::node::Graph;
use crate::propagation::{spec_check, PROPAGATION_DEPTH};
use crate::util::Transform;

verus! {

/// A directed pull edge: the mutable node owns the edge and watches the
/// reference node. The edge caches the last-seen version counter of the
/// reference; it fires only when explicitly polled and the live counter
/// differs from the cache.
#[derive(Clone, Copy, Debug, PartialEq, Eq, Structural)]
pub struct Observation {
    /// The node that is watched.
    pub reference: usize,
    /// The node that owns the edge and is written to when it fires.
    pub mutable: usize,
    /// The transform run when the edge fires.
    pub event: Transform,
    /// The last-seen version counter of the reference node.
    pub counter: u64,
}

impl Observation {
    /// Creates an observation edge watching `reference` on behalf of
    /// `mutable`, with the cache seeded from the reference's live counter.
    pub fn new(graph: &Graph, reference: usize, mutable: usize, event: Transform) -> (r: Self)
        requires
            reference < graph@.len(),
        ensures
            r == (Observation {
                reference,
                mutable,
                event,
                counter: graph@[reference as int].counter,
            }),
    {
        let counter = graph.version(reference);
        Observation { reference, mutable, event, counter }
    }

    /// Polls the edge: when the cached counter differs from the reference's
    /// live counter, the cache is refreshed, the transform runs on the two
    /// payloads, and a reported change makes the mutable node broadcast in
    /// turn. When the counters are equal, nothing happens, so repeated polls
    /// with no intervening reference broadcast fire the transform at most
    /// once.
    pub fn check(&mut self, graph: &mut Graph)
        ensures
            final(graph)@ == spec_check(old(graph)@, *old(self), PROPAGATION_DEPTH as nat).0,
            *final(self) == spec_check(old(graph)@, *old(self), PROPAGATION_DEPTH as nat).1,
    {
        graph.check_fueled(self, PROPAGATION_DEPTH);
    }
}

} // verus!
