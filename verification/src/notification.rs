//! Push-style notification edges.

use vstd::prelude::*;

use crate::node::Graph;
use crate::propagation::{spec_send, PROPAGATION_DEPTH};
use crate::util::{NotificationPolicy, Transform};

verus! {

/// A directed push edge from a reference node to a mutable node, recording the
/// transform to run and the policy used when no explicit policy is supplied at
/// send time. The edge stores the indices of its endpoints, so edge identity
/// is decoupled from payload equality.
#[derive(Clone, Copy, Debug, PartialEq, Eq, Structural)]
pub struct Notification {
    /// The node that is read from; the edge belongs to this node's list.
    pub reference: usize,
    /// The node that is written to when the edge fires.
    pub mutable: usize,
    /// The transform run when the edge fires.
    pub event: Transform,
    /// The policy used by a broadcast that names no policy of its own.
    pub default_notification_policy: NotificationPolicy,
}

impl Notification {
    /// Creates a notification edge from `reference` to `mutable`.
    pub fn new(
        reference: usize,
        mutable: usize,
        event: Transform,
        default_notification_policy: NotificationPolicy,
    ) -> (r: Self)
        ensures
            r == (Notification { reference, mutable, event, default_notification_policy }),
    {
        Notification { reference, mutable, event, default_notification_policy }
    }

    /// Sends the edge under `policy`. The policy is evaluated over the
    /// reference node's live counter on both sides (see
    /// [`spec_send`]); when it passes, the transform runs on the two
    /// payloads, and a reported change makes the mutable node broadcast in
    /// turn. An edge with an endpoint outside `graph` sends nothing.
    pub fn send(&self, graph: &mut Graph, policy: NotificationPolicy)
        ensures
            final(graph)@ == spec_send(old(graph)@, *self, policy, PROPAGATION_DEPTH as nat),
    {
        graph.send_fueled(*self, policy, PROPAGATION_DEPTH);
    }

    /// Sends the edge under its own default policy.
    pub fn send_with_default_policy(&self, graph: &mut Graph)
        ensures
            final(graph)@ == spec_send(
                old(graph)@,
                *self,
                self.default_notification_policy,
                PROPAGATION_DEPTH as nat,
            ),
    {
        self.send(graph, self.default_notification_policy);
    }
}

} // verus!
