//! Graph vertices and the arena that owns them.

use vstd::prelude::*;

use crate::notification::Notification;
use crate::observation::Observation;
use crate::propagation::{
    lemma_check_shape, lemma_send_list_shape, lemma_send_list_snoc, lemma_watch_from_skeleton,
    lemma_watch_from_snoc, resolve_policy, spec_check, spec_notify, spec_send, spec_send_list,
    spec_watch, spec_watch_from, spec_watch_step, with_bumped_counter, with_value,
    PROPAGATION_DEPTH,
};
use crate::util::{NodeError, NotificationPolicy, Transform};

verus! {

/// A graph vertex: one payload value, its version counter, and the two edge
/// lists the node owns (outgoing notifications, and the observations it polls).
pub struct Node {
    /// The payload.
    pub value: i64,
    /// Monotonically increasing version counter; advanced once per broadcast.
    pub counter: u64,
    /// Outgoing notification edges, in insertion order.
    pub notifications: Vec<Notification>,
    /// Observation edges owned by this node, in insertion order.
    pub observations: Vec<Observation>,
}

/// The mathematical content of a node: payload, counter, and edge lists.
#[verifier::ext_equal]
pub ghost struct NodeModel {
    pub value: i64,
    pub counter: u64,
    pub notifications: Seq<Notification>,
    pub observations: Seq<Observation>,
}

impl View for Node {
    type V = NodeModel;

    open spec fn view(&self) -> NodeModel {
        NodeModel {
            value: self.value,
            counter: self.counter,
            notifications: self.notifications@,
            observations: self.observations@,
        }
    }
}

impl Node {
    /// Creates a node wrapping `value`, with version 0 and empty edge lists.
    pub fn new(value: i64) -> (n: Node)
        ensures
            n@ == (NodeModel {
                value,
                counter: 0,
                notifications: Seq::<Notification>::empty(),
                observations: Seq::<Observation>::empty(),
            }),
    {
        let n = Node { value, counter: 0, notifications: Vec::new(), observations: Vec::new() };
        proof {
            assert(n@.notifications =~= Seq::<Notification>::empty());
            assert(n@.observations =~= Seq::<Observation>::empty());
        }
        n
    }
}

/// Whether `edges` holds a notification edge whose mutable endpoint is
/// `other`.
pub open spec fn has_notification_to(edges: Seq<Notification>, other: usize) -> bool {
    exists|j: int| 0 <= j < edges.len() && (#[trigger] edges[j]).mutable == other
}

/// The position of the first notification edge of `edges` whose mutable
/// endpoint is `other`, if any.
pub open spec fn find_notification_to(edges: Seq<Notification>, other: usize) -> Option<int>
    decreases edges.len(),
{
    if edges.len() == 0 {
        None
    } else if edges[0].mutable == other {
        Some(0int)
    } else {
        match find_notification_to(edges.subrange(1, edges.len() as int), other) {
            Some(j) => Some(j + 1),
            None => None,
        }
    }
}

/// Whether `edges` holds an observation edge watching `other`.
pub open spec fn has_observation_of(edges: Seq<Observation>, other: usize) -> bool {
    exists|j: int| 0 <= j < edges.len() && (#[trigger] edges[j]).reference == other
}

/// The position of the first observation edge of `edges` watching `other`,
/// if any.
pub open spec fn find_observation_of(edges: Seq<Observation>, other: usize) -> Option<int>
    decreases edges.len(),
{
    if edges.len() == 0 {
        None
    } else if edges[0].reference == other {
        Some(0int)
    } else {
        match find_observation_of(edges.subrange(1, edges.len() as int), other) {
            Some(j) => Some(j + 1),
            None => None,
        }
    }
}

/// `g` with `edge` appended to node `i`'s notification list.
pub open spec fn with_notification(g: Seq<NodeModel>, i: int, edge: Notification) -> Seq<
    NodeModel,
> {
    g.update(i, NodeModel { notifications: g[i].notifications.push(edge), ..g[i] })
}

/// `g` with node `i`'s `j`-th notification edge removed.
pub open spec fn without_notification(g: Seq<NodeModel>, i: int, j: int) -> Seq<NodeModel> {
    g.update(i, NodeModel { notifications: g[i].notifications.remove(j), ..g[i] })
}

/// `g` with `edge` appended to node `i`'s observation list.
pub open spec fn with_observation(g: Seq<NodeModel>, i: int, edge: Observation) -> Seq<
    NodeModel,
> {
    g.update(i, NodeModel { observations: g[i].observations.push(edge), ..g[i] })
}

/// `g` with node `i`'s `j`-th observation edge removed.
pub open spec fn without_observation(g: Seq<NodeModel>, i: int, j: int) -> Seq<NodeModel> {
    g.update(i, NodeModel { observations: g[i].observations.remove(j), ..g[i] })
}

/// A first match at `j` is what [`find_notification_to`] returns.
proof fn lemma_find_notification_found(edges: Seq<Notification>, other: usize, j: int)
    requires
        0 <= j < edges.len(),
        edges[j].mutable == other,
        forall|k: int| 0 <= k < j ==> (#[trigger] edges[k]).mutable != other,
    ensures
        find_notification_to(edges, other) == Some(j),
    decreases edges.len(),
{
    if j == 0 {
    } else {
        lemma_find_notification_found(edges.subrange(1, edges.len() as int), other, j - 1);
    }
}

/// With no match anywhere, [`find_notification_to`] returns nothing.
proof fn lemma_find_notification_none(edges: Seq<Notification>, other: usize)
    requires
        forall|k: int| 0 <= k < edges.len() ==> (#[trigger] edges[k]).mutable != other,
    ensures
        find_notification_to(edges, other) is None,
    decreases edges.len(),
{
    if edges.len() == 0 {
    } else {
        lemma_find_notification_none(edges.subrange(1, edges.len() as int), other);
    }
}

/// A first match at `j` is what [`find_observation_of`] returns.
proof fn lemma_find_observation_found(edges: Seq<Observation>, other: usize, j: int)
    requires
        0 <= j < edges.len(),
        edges[j].reference == other,
        forall|k: int| 0 <= k < j ==> (#[trigger] edges[k]).reference != other,
    ensures
        find_observation_of(edges, other) == Some(j),
    decreases edges.len(),
{
    if j == 0 {
    } else {
        lemma_find_observation_found(edges.subrange(1, edges.len() as int), other, j - 1);
    }
}

/// With no match anywhere, [`find_observation_of`] returns nothing.
proof fn lemma_find_observation_none(edges: Seq<Observation>, other: usize)
    requires
        forall|k: int| 0 <= k < edges.len() ==> (#[trigger] edges[k]).reference != other,
    ensures
        find_observation_of(edges, other) is None,
    decreases edges.len(),
{
    if edges.len() == 0 {
    } else {
        lemma_find_observation_none(edges.subrange(1, edges.len() as int), other);
    }
}

/// The arena that owns every node. Nodes are addressed by the stable index
/// that [`Graph::add_node`] returns; edges store such indices. All propagation
/// runs through the graph, synchronously, on the caller's stack.
pub struct Graph {
    /// The nodes, in insertion order; a node's index never changes.
    pub nodes: Vec<Node>,
}

impl View for Graph {
    type V = Seq<NodeModel>;

    open spec fn view(&self) -> Seq<NodeModel> {
        Seq::new(self.nodes@.len(), |i: int| self.nodes@[i]@)
    }
}

impl Graph {
    /// Creates an empty graph.
    pub fn new() -> (g: Graph)
        ensures
            g@ == Seq::<NodeModel>::empty(),
    {
        let g = Graph { nodes: Vec::new() };
        proof {
            assert(g@ =~= Seq::<NodeModel>::empty());
        }
        g
    }

    /// Adds `node` to the graph and returns its stable index.
    pub fn add_node(&mut self, node: Node) -> (id: usize)
        ensures
            final(self)@ == old(self)@.push(node@),
            id == old(self)@.len(),
    {
        let id = self.nodes.len();
        self.nodes.push(node);
        proof {
            assert(final(self)@ =~= old(self)@.push(node@));
        }
        id
    }

    /// The number of nodes in the graph.
    pub fn node_count(&self) -> (n: usize)
        ensures
            n == self@.len(),
    {
        self.nodes.len()
    }

    /// Read-only view of the payload of node `id`.
    pub fn value(&self, id: usize) -> (v: i64)
        requires
            id < self@.len(),
        ensures
            v == self@[id as int].value,
    {
        self.nodes[id].value
    }

    /// The current version counter of node `id`.
    pub fn version(&self, id: usize) -> (c: u64)
        requires
            id < self@.len(),
        ensures
            c == self@[id as int].counter,
    {
        self.nodes[id].counter
    }

    /// Replaces the payload of node `id` in place; does not advance its
    /// version and does not propagate.
    pub fn set(&mut self, id: usize, new_value: i64)
        requires
            id < old(self)@.len(),
        ensures
            final(self)@ == old(self)@.update(
                id as int,
                (NodeModel { value: new_value, ..old(self)@[id as int] }),
            ),
    {
        let node = &mut self.nodes[id];
        node.value = new_value;
        proof {
            assert(final(self)@ =~~= old(self)@.update(
                id as int,
                NodeModel { value: new_value, ..old(self)@[id as int] },
            ));
        }
    }

    /// Sends one notification edge under `policy`, with `fuel` recursion
    /// depth left.
    pub(crate) fn send_fueled(&mut self, edge: Notification, policy: NotificationPolicy, fuel: u64)
        ensures
            final(self)@ == spec_send(old(self)@, edge, policy, fuel as nat),
        decreases fuel, 2int,
    {
        let ghost g0 = self@;
        if edge.reference >= self.nodes.len() || edge.mutable >= self.nodes.len() {
            return;
        }
        let reference_counter = self.nodes[edge.reference].counter;
        if !policy.should_notify(reference_counter, reference_counter) {
            return;
        }
        let reference_value = self.nodes[edge.reference].value;
        let mutable_value = self.nodes[edge.mutable].value;
        let (new_value, changed) = edge.event.apply(reference_value, mutable_value);
        let node = &mut self.nodes[edge.mutable];
        node.value = new_value;
        proof {
            assert(self@ =~~= with_value(g0, edge.mutable as int, new_value));
        }
        if changed && fuel > 0 {
            self.notify_fueled(edge.mutable, None, fuel - 1);
        }
    }

    /// The broadcast walk: advances node `id`'s counter, then sends each of
    /// its notification edges in insertion order, with `fuel` depth left.
    #[verifier::loop_isolation(false)]
    pub(crate) fn notify_fueled(
        &mut self,
        id: usize,
        overriding: Option<NotificationPolicy>,
        fuel: u64,
    )
        ensures
            final(self)@ == spec_notify(old(self)@, id as int, overriding, fuel as nat),
        decreases fuel, 3int,
    {
        if fuel == 0 || id >= self.nodes.len() {
            return;
        }
        let counter = self.nodes[id].counter;
        let advanced = if counter == u64::MAX {
            counter
        } else {
            counter + 1
        };
        let node = &mut self.nodes[id];
        node.counter = advanced;
        let ghost g1 = self@;
        proof {
            assert(g1 =~~= with_bumped_counter(old(self)@, id as int));
        }
        let ghost edges = g1[id as int].notifications;
        let n = self.nodes[id].notifications.len();
        for i in 0..n
            invariant
                self@ == spec_send_list(g1, edges.take(i as int), overriding, fuel as nat),
        {
            proof {
                lemma_send_list_shape(g1, edges.take(i as int), overriding, fuel as nat);
                assert(self@[id as int].notifications == edges);
            }
            let edge = self.nodes[id].notifications[i];
            let policy = match overriding {
                Some(p) => p,
                None => edge.default_notification_policy,
            };
            assert(policy == resolve_policy(overriding, edge));
            self.send_fueled(edge, policy, fuel);
            proof {
                lemma_send_list_snoc(g1, edges.take(i as int), edge, overriding, fuel as nat);
                assert(edges.take(i as int).push(edge) =~= edges.take(i as int + 1));
            }
        }
        proof {
            assert(edges.take(n as int) =~= edges);
        }
    }

    /// One observation poll: compares the edge's cache against the
    /// reference's live counter and, on mismatch, refreshes the cache, runs
    /// the transform, and propagates a reported change, with `fuel` depth
    /// left.
    pub(crate) fn check_fueled(&mut self, obs: &mut Observation, fuel: u64)
        ensures
            final(self)@ == spec_check(old(self)@, *old(obs), fuel as nat).0,
            *final(obs) == spec_check(old(self)@, *old(obs), fuel as nat).1,
        decreases fuel, 1int,
    {
        let ghost g0 = self@;
        if obs.reference >= self.nodes.len() || obs.mutable >= self.nodes.len() {
            return;
        }
        let live = self.nodes[obs.reference].counter;
        if obs.counter == live {
            return;
        }
        let reference_value = self.nodes[obs.reference].value;
        let mutable_value = self.nodes[obs.mutable].value;
        let target = obs.mutable;
        let (new_value, changed) = obs.event.apply(reference_value, mutable_value);
        obs.counter = live;
        let node = &mut self.nodes[target];
        node.value = new_value;
        proof {
            assert(self@ =~~= with_value(g0, target as int, new_value));
        }
        if changed && fuel > 0 {
            self.notify_fueled(target, None, fuel - 1);
        }
    }

    /// Polls every observation edge node `id` owns, in insertion order. Each
    /// edge whose cached counter differs from its reference's live counter
    /// refreshes the cache and runs its transform once; a reported change
    /// makes node `id` broadcast in turn.
    #[verifier::loop_isolation(false)]
    pub fn watch_for_updates(&mut self, id: usize)
        requires
            id < old(self)@.len(),
        ensures
            final(self)@ == spec_watch(old(self)@, id as int, PROPAGATION_DEPTH as nat),
    {
        let ghost g0 = self@;
        let n = self.nodes[id].observations.len();
        for j in 0..n
            invariant
                self@ == spec_watch_from(
                    g0,
                    id as int,
                    0,
                    j as nat,
                    PROPAGATION_DEPTH as nat,
                ),
        {
            proof {
                lemma_watch_from_skeleton(g0, id as int, 0, j as nat, PROPAGATION_DEPTH as nat);
            }
            let ghost gj = self@;
            let mut obs = self.nodes[id].observations[j];
            self.check_fueled(&mut obs, PROPAGATION_DEPTH);
            proof {
                lemma_check_shape(gj, gj[id as int].observations[j as int], PROPAGATION_DEPTH as nat);
                assert(self@[id as int].observations == gj[id as int].observations);
                assert(gj[id as int].observations.len() == g0[id as int].observations.len());
                assert(j < self@[id as int].observations.len());
            }
            let node = &mut self.nodes[id];
            node.observations[j] = obs;
            proof {
                let (g2, obs2) = spec_check(
                    gj,
                    gj[id as int].observations[j as int],
                    PROPAGATION_DEPTH as nat,
                );
                assert(self@ =~~= g2.update(
                    id as int,
                    NodeModel {
                        observations: g2[id as int].observations.update(j as int, obs2),
                        ..g2[id as int]
                    },
                ));
                assert(self@ == spec_watch_step(gj, id as int, j as int, PROPAGATION_DEPTH as nat));
                lemma_watch_from_snoc(g0, id as int, 0, j as nat, PROPAGATION_DEPTH as nat);
            }
        }
    }

    /// Advances node `id`'s version counter by one, then sends every
    /// notification edge it owns, in insertion order, each with its own
    /// default policy.
    pub fn notify_to_neighbors(&mut self, id: usize)
        requires
            id < old(self)@.len(),
        ensures
            final(self)@ == spec_notify(
                old(self)@,
                id as int,
                None::<NotificationPolicy>,
                PROPAGATION_DEPTH as nat,
            ),
    {
        self.notify_fueled(id, None, PROPAGATION_DEPTH);
    }

    /// Like [`Graph::notify_to_neighbors`], but every edge of this one
    /// broadcast uses `policy` in place of its own default.
    pub fn notify_to_neighbors_with_policy(&mut self, id: usize, policy: NotificationPolicy)
        requires
            id < old(self)@.len(),
        ensures
            final(self)@ == spec_notify(
                old(self)@,
                id as int,
                Some(policy),
                PROPAGATION_DEPTH as nat,
            ),
    {
        self.notify_fueled(id, Some(policy), PROPAGATION_DEPTH);
    }

    /// Replaces node `id`'s payload, then broadcasts to its neighbors.
    pub fn set_and_notify(&mut self, id: usize, new_value: i64)
        requires
            id < old(self)@.len(),
        ensures
            final(self)@ == spec_notify(
                with_value(old(self)@, id as int, new_value),
                id as int,
                None::<NotificationPolicy>,
                PROPAGATION_DEPTH as nat,
            ),
    {
        self.set(id, new_value);
        self.notify_to_neighbors(id);
    }

    /// Updates node `id`'s payload: a no-op when `new_value` equals the
    /// current payload (the version does not advance and nothing fires),
    /// otherwise exactly [`Graph::set_and_notify`].
    pub fn update(&mut self, id: usize, new_value: i64)
        requires
            id < old(self)@.len(),
        ensures
            new_value == old(self)@[id as int].value ==> final(self)@ == old(self)@,
            new_value != old(self)@[id as int].value ==> final(self)@ == spec_notify(
                with_value(old(self)@, id as int, new_value),
                id as int,
                None::<NotificationPolicy>,
                PROPAGATION_DEPTH as nat,
            ),
    {
        if new_value != self.nodes[id].value {
            self.set_and_notify(id, new_value);
        }
    }

    /// Marks node `other` for notification by node `id`: appends a
    /// notification edge from `id` to `other` carrying `event` and `policy`.
    /// Fails, leaving the graph untouched, when an edge from `id` to `other`
    /// is already present.
    #[verifier::loop_isolation(false)]
    pub fn try_mark_for_notification(
        &mut self,
        id: usize,
        other: usize,
        event: Transform,
        policy: NotificationPolicy,
    ) -> (r: Result<(), NodeError>)
        requires
            id < old(self)@.len(),
            other < old(self)@.len(),
        ensures
            has_notification_to(old(self)@[id as int].notifications, other) ==> r == Result::<
                (),
                NodeError,
            >::Err(NodeError::AlreadyExists) && final(self)@ == old(self)@,
            !has_notification_to(old(self)@[id as int].notifications, other) ==> r == Result::<
                (),
                NodeError,
            >::Ok(()) && final(self)@ == with_notification(
                old(self)@,
                id as int,
                (Notification {
                    reference: id,
                    mutable: other,
                    event,
                    default_notification_policy: policy,
                }),
            ),
    {
        let n = self.nodes[id].notifications.len();
        for j in 0..n
            invariant
                self@ == old(self)@,
                forall|k: int|
                    0 <= k < j ==> (#[trigger] self@[id as int].notifications[k]).mutable
                        != other,
        {
            if self.nodes[id].notifications[j].mutable == other {
                return Err(NodeError::AlreadyExists);
            }
        }
        assert(!has_notification_to(self@[id as int].notifications, other));
        let notification = Notification::new(id, other, event, policy);
        let node = &mut self.nodes[id];
        node.notifications.push(notification);
        proof {
            assert(self@ =~~= with_notification(
                old(self)@,
                id as int,
                Notification {
                    reference: id,
                    mutable: other,
                    event,
                    default_notification_policy: policy,
                },
            ));
        }
        Ok(())
    }

    /// Marks node `other` off notification by node `id`: removes the first
    /// notification edge from `id` to `other`. Fails, leaving the graph
    /// untouched, when no such edge is present.
    #[verifier::loop_isolation(false)]
    pub fn try_mark_off_notification(&mut self, id: usize, other: usize) -> (r: Result<
        (),
        NodeError,
    >)
        requires
            id < old(self)@.len(),
        ensures
            (match find_notification_to(old(self)@[id as int].notifications, other) {
                Some(j) => r == Result::<(), NodeError>::Ok(()) && final(self)@
                    == without_notification(old(self)@, id as int, j),
                None => r == Result::<(), NodeError>::Err(NodeError::DoesNotExist) && final(self)@ == old(self)@,
            }),
    {
        let n = self.nodes[id].notifications.len();
        for j in 0..n
            invariant
                self@ == old(self)@,
                forall|k: int|
                    0 <= k < j ==> (#[trigger] self@[id as int].notifications[k]).mutable
                        != other,
        {
            if self.nodes[id].notifications[j].mutable == other {
                proof {
                    lemma_find_notification_found(self@[id as int].notifications, other, j as int);
                }
                let node = &mut self.nodes[id];
                node.notifications.remove(j);
                proof {
                    assert(self@ =~~= without_notification(old(self)@, id as int, j as int));
                }
                return Ok(());
            }
        }
        proof {
            lemma_find_notification_none(self@[id as int].notifications, other);
        }
        Err(NodeError::DoesNotExist)
    }

    /// Marks node `other` for observation by node `id`: appends to `id`'s own
    /// observation list an edge watching `other`, with its cache seeded from
    /// `other`'s live counter. Fails, leaving the graph untouched, when `id`
    /// already watches `other`.
    #[verifier::loop_isolation(false)]
    pub fn try_mark_for_observation(&mut self, id: usize, other: usize, event: Transform) -> (r:
        Result<(), NodeError>)
        requires
            id < old(self)@.len(),
            other < old(self)@.len(),
        ensures
            has_observation_of(old(self)@[id as int].observations, other) ==> r == Result::<
                (),
                NodeError,
            >::Err(NodeError::AlreadyExists) && final(self)@ == old(self)@,
            !has_observation_of(old(self)@[id as int].observations, other) ==> r == Result::<
                (),
                NodeError,
            >::Ok(()) && final(self)@ == with_observation(
                old(self)@,
                id as int,
                (Observation {
                    reference: other,
                    mutable: id,
                    event,
                    counter: old(self)@[other as int].counter,
                }),
            ),
    {
        let n = self.nodes[id].observations.len();
        for j in 0..n
            invariant
                self@ == old(self)@,
                forall|k: int|
                    0 <= k < j ==> (#[trigger] self@[id as int].observations[k]).reference
                        != other,
        {
            if self.nodes[id].observations[j].reference == other {
                return Err(NodeError::AlreadyExists);
            }
        }
        assert(!has_observation_of(self@[id as int].observations, other));
        let observation = Observation::new(self, other, id, event);
        let node = &mut self.nodes[id];
        node.observations.push(observation);
        proof {
            assert(self@ =~~= with_observation(
                old(self)@,
                id as int,
                Observation {
                    reference: other,
                    mutable: id,
                    event,
                    counter: old(self)@[other as int].counter,
                },
            ));
        }
        Ok(())
    }

    /// Marks node `other` off observation by node `id`: removes the first
    /// observation edge of `id` watching `other`. Fails, leaving the graph
    /// untouched, when no such edge is present.
    #[verifier::loop_isolation(false)]
    pub fn try_mark_off_observation(&mut self, id: usize, other: usize) -> (r: Result<
        (),
        NodeError,
    >)
        requires
            id < old(self)@.len(),
        ensures
            (match find_observation_of(old(self)@[id as int].observations, other) {
                Some(j) => r == Result::<(), NodeError>::Ok(()) && final(self)@
                    == without_observation(old(self)@, id as int, j),
                None => r == Result::<(), NodeError>::Err(NodeError::DoesNotExist) && final(self)@ == old(self)@,
            }),
    {
        let n = self.nodes[id].observations.len();
        for j in 0..n
            invariant
                self@ == old(self)@,
                forall|k: int|
                    0 <= k < j ==> (#[trigger] self@[id as int].observations[k]).reference
                        != other,
        {
            if self.nodes[id].observations[j].reference == other {
                proof {
                    lemma_find_observation_found(self@[id as int].observations, other, j as int);
                }
                let node = &mut self.nodes[id];
                node.observations.remove(j);
                proof {
                    assert(self@ =~~= without_observation(old(self)@, id as int, j as int));
                }
                return Ok(());
            }
        }
        proof {
            lemma_find_observation_none(self@[id as int].observations, other);
        }
        Err(NodeError::DoesNotExist)
    }
}

} // verus!
