//! The propagation engine's specification: recursive functions that state the
//! exact effect of a broadcast, of a single edge send, and of an observation
//! poll, together with the lemmas about them that the executable code and the
//! library's laws rest on.

use vstd::prelude::*;

use crate::node::NodeModel;
use crate::notification::Notification;
use crate::observation::Observation;
use crate::util::NotificationPolicy;

verus! {

/// The recursion depth bound used by the public propagation entry points. A
/// cyclic graph of always-firing edges recurses to the bound; acyclic graphs
/// never come near it.
pub const PROPAGATION_DEPTH: u64 = u64::MAX;

/// Whether `i` addresses a node of `g`.
pub open spec fn valid_index(g: Seq<NodeModel>, i: int) -> bool {
    0 <= i < g.len()
}

/// The version counter after one advance; it saturates at the top of its
/// range rather than wrap.
pub open spec fn bump_counter(c: u64) -> u64 {
    if c == u64::MAX {
        c
    } else {
        (c + 1) as u64
    }
}

/// `g` with node `i`'s payload replaced by `v`.
pub open spec fn with_value(g: Seq<NodeModel>, i: int, v: i64) -> Seq<NodeModel> {
    g.update(i, NodeModel { value: v, ..g[i] })
}

/// `g` with node `i`'s version counter advanced once.
pub open spec fn with_bumped_counter(g: Seq<NodeModel>, i: int) -> Seq<NodeModel> {
    g.update(i, NodeModel { counter: bump_counter(g[i].counter), ..g[i] })
}

/// The policy a broadcast uses for `edge`: the override if one was given,
/// else the edge's own default.
pub open spec fn resolve_policy(
    overriding: Option<NotificationPolicy>,
    edge: Notification,
) -> NotificationPolicy {
    match overriding {
        Some(p) => p,
        None => edge.default_notification_policy,
    }
}

/// Node `id`'s notification edges, or the empty list when `id` is out of
/// range.
pub open spec fn notification_edges(g: Seq<NodeModel>, id: int) -> Seq<Notification> {
    if valid_index(g, id) {
        g[id].notifications
    } else {
        Seq::<Notification>::empty()
    }
}

/// Node `id`'s observation edges, or the empty list when `id` is out of
/// range.
pub open spec fn observation_edges(g: Seq<NodeModel>, id: int) -> Seq<Observation> {
    if valid_index(g, id) {
        g[id].observations
    } else {
        Seq::<Observation>::empty()
    }
}

/// The graph after node `id` broadcasts: its counter advances once, then
/// every notification edge it owns is sent, in insertion order. `overriding`,
/// when present, replaces every edge's default policy for this one broadcast.
/// `fuel` bounds the recursion depth; a broadcast with no fuel left, or by an
/// index out of range, does nothing.
pub open spec fn spec_notify(
    g: Seq<NodeModel>,
    id: int,
    overriding: Option<NotificationPolicy>,
    fuel: nat,
) -> Seq<NodeModel>
    decreases fuel, notification_edges(g, id).len() + 1, 0int,
{
    if fuel == 0 || !valid_index(g, id) {
        g
    } else {
        let g1 = with_bumped_counter(g, id);
        spec_send_list(g1, g1[id].notifications, overriding, fuel)
    }
}

/// The graph after the edges of `edges` are sent, first to last, each under
/// its resolved policy.
pub open spec fn spec_send_list(
    g: Seq<NodeModel>,
    edges: Seq<Notification>,
    overriding: Option<NotificationPolicy>,
    fuel: nat,
) -> Seq<NodeModel>
    decreases fuel, edges.len(), 1int,
{
    if edges.len() == 0 {
        g
    } else {
        let g2 = spec_send(g, edges[0], resolve_policy(overriding, edges[0]), fuel);
        spec_send_list(g2, edges.subrange(1, edges.len() as int), overriding, fuel)
    }
}

/// The graph after one notification edge is sent under `policy`. The policy
/// is evaluated over the reference node's live counter on both sides: the
/// send is driven by the edge's own reference state, not by two independent
/// counters, so the order-sensitive policies here compare a counter against
/// itself. If the policy passes, the transform runs on the two payloads; if
/// it reports a change, the mutable node broadcasts in turn, under edge
/// defaults. An edge with an endpoint out of range sends nothing.
pub open spec fn spec_send(
    g: Seq<NodeModel>,
    edge: Notification,
    policy: NotificationPolicy,
    fuel: nat,
) -> Seq<NodeModel>
    decreases fuel, 0int, 0int,
{
    let r = edge.reference as int;
    let m = edge.mutable as int;
    if !valid_index(g, r) || !valid_index(g, m) {
        g
    } else if !policy.spec_should_notify(g[r].counter, g[r].counter) {
        g
    } else {
        let (new_value, changed) = edge.event.spec_apply(g[r].value, g[m].value);
        let g2 = with_value(g, m, new_value);
        if changed && fuel > 0 {
            spec_notify(g2, m, None, (fuel - 1) as nat)
        } else {
            g2
        }
    }
}

/// The graph and the edge after one observation poll. If the cached counter
/// equals the reference's live counter, nothing happens. Otherwise the cache
/// is set to the live counter, the transform runs on the two payloads, and a
/// reported change makes the mutable node broadcast in turn.
pub open spec fn spec_check(g: Seq<NodeModel>, obs: Observation, fuel: nat) -> (
    Seq<NodeModel>,
    Observation,
) {
    let r = obs.reference as int;
    let m = obs.mutable as int;
    if !valid_index(g, r) || !valid_index(g, m) {
        (g, obs)
    } else if obs.counter == g[r].counter {
        (g, obs)
    } else {
        let obs2 = Observation { counter: g[r].counter, ..obs };
        let (new_value, changed) = obs.event.spec_apply(g[r].value, g[m].value);
        let g2 = with_value(g, m, new_value);
        if changed && fuel > 0 {
            (spec_notify(g2, m, None, (fuel - 1) as nat), obs2)
        } else {
            (g2, obs2)
        }
    }
}

/// One step of a poll walk: the `j`-th observation edge of node `id` is
/// checked, and the edge's updated cache is written back into the node.
pub open spec fn spec_watch_step(g: Seq<NodeModel>, id: int, j: int, fuel: nat) -> Seq<
    NodeModel,
> {
    if !valid_index(g, id) || !(0 <= j < g[id].observations.len()) {
        g
    } else {
        let (g2, obs2) = spec_check(g, g[id].observations[j], fuel);
        if valid_index(g2, id) && 0 <= j < g2[id].observations.len() {
            g2.update(
                id,
                NodeModel { observations: g2[id].observations.update(j, obs2), ..g2[id] },
            )
        } else {
            g2
        }
    }
}

/// The poll walk over node `id`'s observation edges, from edge `j` on, for
/// `k` more edges.
pub open spec fn spec_watch_from(
    g: Seq<NodeModel>,
    id: int,
    j: int,
    k: nat,
    fuel: nat,
) -> Seq<NodeModel>
    decreases k,
{
    if k == 0 {
        g
    } else {
        spec_watch_from(spec_watch_step(g, id, j, fuel), id, j + 1, (k - 1) as nat, fuel)
    }
}

/// The graph after node `id` polls every observation edge it owns, in
/// insertion order.
pub open spec fn spec_watch(g: Seq<NodeModel>, id: int, fuel: nat) -> Seq<NodeModel> {
    spec_watch_from(g, id, 0, observation_edges(g, id).len(), fuel)
}

/// Whether `b` has the same vertices and edge lists as `a`: only payloads and
/// node counters may differ. Observation caches are part of the edge lists.
pub open spec fn same_shape(a: Seq<NodeModel>, b: Seq<NodeModel>) -> bool {
    &&& a.len() == b.len()
    &&& forall|i: int|
        0 <= i < a.len() ==> (#[trigger] b[i]).notifications == a[i].notifications
            && b[i].observations == a[i].observations
}

/// Whether `b` has the same vertices, notification edges, and observation
/// list lengths as `a`: a poll walk may rewrite observation caches but
/// changes nothing else of the graph's form.
pub open spec fn same_skeleton(a: Seq<NodeModel>, b: Seq<NodeModel>) -> bool {
    &&& a.len() == b.len()
    &&& forall|i: int|
        0 <= i < a.len() ==> (#[trigger] b[i]).notifications == a[i].notifications
            && b[i].observations.len() == a[i].observations.len()
}

/// A broadcast never adds or removes nodes or edges: it changes only payloads
/// and node counters.
pub proof fn lemma_notify_shape(
    g: Seq<NodeModel>,
    id: int,
    overriding: Option<NotificationPolicy>,
    fuel: nat,
)
    ensures
        same_shape(g, spec_notify(g, id, overriding, fuel)),
    decreases fuel, notification_edges(g, id).len() + 1, 0int,
{
    if fuel == 0 || !valid_index(g, id) {
    } else {
        let g1 = with_bumped_counter(g, id);
        assert(same_shape(g, g1));
        lemma_send_list_shape(g1, g1[id].notifications, overriding, fuel);
    }
}

/// Sending a list of edges never adds or removes nodes or edges.
pub proof fn lemma_send_list_shape(
    g: Seq<NodeModel>,
    edges: Seq<Notification>,
    overriding: Option<NotificationPolicy>,
    fuel: nat,
)
    ensures
        same_shape(g, spec_send_list(g, edges, overriding, fuel)),
    decreases fuel, edges.len(), 1int,
{
    if edges.len() == 0 {
    } else {
        let policy = resolve_policy(overriding, edges[0]);
        let g2 = spec_send(g, edges[0], policy, fuel);
        lemma_send_shape(g, edges[0], policy, fuel);
        lemma_send_list_shape(g2, edges.subrange(1, edges.len() as int), overriding, fuel);
    }
}

/// Sending one edge never adds or removes nodes or edges.
pub proof fn lemma_send_shape(
    g: Seq<NodeModel>,
    edge: Notification,
    policy: NotificationPolicy,
    fuel: nat,
)
    ensures
        same_shape(g, spec_send(g, edge, policy, fuel)),
    decreases fuel, 0int, 0int,
{
    let r = edge.reference as int;
    let m = edge.mutable as int;
    if !valid_index(g, r) || !valid_index(g, m) {
    } else if !policy.spec_should_notify(g[r].counter, g[r].counter) {
    } else {
        let (new_value, changed) = edge.event.spec_apply(g[r].value, g[m].value);
        let g2 = with_value(g, m, new_value);
        assert(same_shape(g, g2));
        if changed && fuel > 0 {
            lemma_notify_shape(g2, m, None, (fuel - 1) as nat);
        }
    }
}

/// A single observation poll never adds or removes nodes or edges of the
/// graph; only the polled edge's own cache (returned beside the graph) moves.
pub proof fn lemma_check_shape(g: Seq<NodeModel>, obs: Observation, fuel: nat)
    ensures
        same_shape(g, spec_check(g, obs, fuel).0),
{
    let r = obs.reference as int;
    let m = obs.mutable as int;
    if !valid_index(g, r) || !valid_index(g, m) {
    } else if obs.counter == g[r].counter {
    } else {
        let (new_value, changed) = obs.event.spec_apply(g[r].value, g[m].value);
        let g2 = with_value(g, m, new_value);
        assert(same_shape(g, g2));
        if changed && fuel > 0 {
            lemma_notify_shape(g2, m, None, (fuel - 1) as nat);
        }
    }
}

/// One poll step keeps every node, every notification edge, and the length of
/// every observation list.
pub proof fn lemma_watch_step_skeleton(g: Seq<NodeModel>, id: int, j: int, fuel: nat)
    ensures
        same_skeleton(g, spec_watch_step(g, id, j, fuel)),
{
    if !valid_index(g, id) || !(0 <= j < g[id].observations.len()) {
    } else {
        lemma_check_shape(g, g[id].observations[j], fuel);
    }
}

/// A poll walk keeps every node, every notification edge, and the length of
/// every observation list.
pub proof fn lemma_watch_from_skeleton(g: Seq<NodeModel>, id: int, j: int, k: nat, fuel: nat)
    ensures
        same_skeleton(g, spec_watch_from(g, id, j, k, fuel)),
    decreases k,
{
    if k == 0 {
    } else {
        lemma_watch_step_skeleton(g, id, j, fuel);
        lemma_watch_from_skeleton(
            spec_watch_step(g, id, j, fuel),
            id,
            j + 1,
            (k - 1) as nat,
            fuel,
        );
    }
}

/// Whether no counter of `b` is behind its counter in `a`.
pub open spec fn counters_monotone(a: Seq<NodeModel>, b: Seq<NodeModel>) -> bool {
    forall|i: int| 0 <= i < a.len() ==> (#[trigger] b[i]).counter >= a[i].counter
}

/// Version counters never go backwards: a broadcast only advances them.
pub proof fn lemma_notify_counters_monotone(
    g: Seq<NodeModel>,
    id: int,
    overriding: Option<NotificationPolicy>,
    fuel: nat,
)
    ensures
        counters_monotone(g, spec_notify(g, id, overriding, fuel)),
    decreases fuel, notification_edges(g, id).len() + 1, 0int,
{
    if fuel == 0 || !valid_index(g, id) {
    } else {
        let g1 = with_bumped_counter(g, id);
        assert(counters_monotone(g, g1));
        lemma_send_list_counters_monotone(g1, g1[id].notifications, overriding, fuel);
        lemma_send_list_shape(g1, g1[id].notifications, overriding, fuel);
    }
}

/// Sending a list of edges only advances version counters.
pub proof fn lemma_send_list_counters_monotone(
    g: Seq<NodeModel>,
    edges: Seq<Notification>,
    overriding: Option<NotificationPolicy>,
    fuel: nat,
)
    ensures
        counters_monotone(g, spec_send_list(g, edges, overriding, fuel)),
    decreases fuel, edges.len(), 1int,
{
    if edges.len() == 0 {
    } else {
        let policy = resolve_policy(overriding, edges[0]);
        let g2 = spec_send(g, edges[0], policy, fuel);
        lemma_send_counters_monotone(g, edges[0], policy, fuel);
        lemma_send_shape(g, edges[0], policy, fuel);
        lemma_send_list_counters_monotone(g2, edges.subrange(1, edges.len() as int), overriding, fuel);
    }
}

/// Sending one edge only advances version counters.
pub proof fn lemma_send_counters_monotone(
    g: Seq<NodeModel>,
    edge: Notification,
    policy: NotificationPolicy,
    fuel: nat,
)
    ensures
        counters_monotone(g, spec_send(g, edge, policy, fuel)),
    decreases fuel, 0int, 0int,
{
    let r = edge.reference as int;
    let m = edge.mutable as int;
    if !valid_index(g, r) || !valid_index(g, m) {
    } else if !policy.spec_should_notify(g[r].counter, g[r].counter) {
    } else {
        let (new_value, changed) = edge.event.spec_apply(g[r].value, g[m].value);
        let g2 = with_value(g, m, new_value);
        assert(counters_monotone(g, g2));
        if changed && fuel > 0 {
            lemma_notify_counters_monotone(g2, m, None, (fuel - 1) as nat);
        }
    }
}

/// An observation poll only advances version counters; the polled edge's own
/// cache moves to the reference's live counter or stays.
pub proof fn lemma_check_counters_monotone(g: Seq<NodeModel>, obs: Observation, fuel: nat)
    ensures
        counters_monotone(g, spec_check(g, obs, fuel).0),
{
    let r = obs.reference as int;
    let m = obs.mutable as int;
    if !valid_index(g, r) || !valid_index(g, m) {
    } else if obs.counter == g[r].counter {
    } else {
        let (new_value, changed) = obs.event.spec_apply(g[r].value, g[m].value);
        let g2 = with_value(g, m, new_value);
        assert(counters_monotone(g, g2));
        if changed && fuel > 0 {
            lemma_notify_counters_monotone(g2, m, None, (fuel - 1) as nat);
        }
    }
}

/// A poll walk only advances version counters.
pub proof fn lemma_watch_from_counters_monotone(
    g: Seq<NodeModel>,
    id: int,
    j: int,
    k: nat,
    fuel: nat,
)
    ensures
        counters_monotone(g, spec_watch_from(g, id, j, k, fuel)),
    decreases k,
{
    if k == 0 {
    } else {
        let stepped = spec_watch_step(g, id, j, fuel);
        assert(counters_monotone(g, stepped)) by {
            if !valid_index(g, id) || !(0 <= j < g[id].observations.len()) {
            } else {
                lemma_check_counters_monotone(g, g[id].observations[j], fuel);
                lemma_check_shape(g, g[id].observations[j], fuel);
            }
        }
        lemma_watch_step_skeleton(g, id, j, fuel);
        lemma_watch_from_counters_monotone(stepped, id, j + 1, (k - 1) as nat, fuel);
        lemma_watch_from_skeleton(stepped, id, j + 1, (k - 1) as nat, fuel);
    }
}

/// A poll only advances version counters: no node's version ever goes
/// backwards.
pub proof fn lemma_watch_counters_monotone(g: Seq<NodeModel>, id: int, fuel: nat)
    ensures
        counters_monotone(g, spec_watch(g, id, fuel)),
{
    lemma_watch_from_counters_monotone(g, id, 0, observation_edges(g, id).len(), fuel);
}

/// Sending `edges.push(e)` is sending `edges`, then `e`.
pub proof fn lemma_send_list_snoc(
    g: Seq<NodeModel>,
    edges: Seq<Notification>,
    e: Notification,
    overriding: Option<NotificationPolicy>,
    fuel: nat,
)
    ensures
        spec_send_list(g, edges.push(e), overriding, fuel) == spec_send(
            spec_send_list(g, edges, overriding, fuel),
            e,
            resolve_policy(overriding, e),
            fuel,
        ),
    decreases edges.len(),
{
    if edges.len() == 0 {
        assert(edges.push(e)[0] == e);
        assert(edges.push(e).subrange(1, 1) =~= Seq::<Notification>::empty());
        let g2 = spec_send(g, e, resolve_policy(overriding, e), fuel);
        assert(spec_send_list(g2, Seq::<Notification>::empty(), overriding, fuel) == g2);
    } else {
        let policy = resolve_policy(overriding, edges[0]);
        assert(edges.push(e)[0] == edges[0]);
        let g2 = spec_send(g, edges[0], policy, fuel);
        assert(edges.push(e).subrange(1, edges.len() as int + 1) =~= edges.subrange(
            1,
            edges.len() as int,
        ).push(e));
        lemma_send_list_snoc(g2, edges.subrange(1, edges.len() as int), e, overriding, fuel);
    }
}

/// Walking `k + 1` edges is walking `k` edges, then stepping once more.
pub proof fn lemma_watch_from_snoc(g: Seq<NodeModel>, id: int, j: int, k: nat, fuel: nat)
    ensures
        spec_watch_from(g, id, j, k + 1, fuel) == spec_watch_step(
            spec_watch_from(g, id, j, k, fuel),
            id,
            j + k,
            fuel,
        ),
    decreases k,
{
    let stepped = spec_watch_step(g, id, j, fuel);
    if k == 0 {
        assert(spec_watch_from(stepped, id, j + 1, 0, fuel) == stepped);
        assert(spec_watch_from(g, id, j, 1, fuel) == stepped);
    } else {
        lemma_watch_from_snoc(stepped, id, j + 1, (k - 1) as nat, fuel);
        assert(spec_watch_from(g, id, j, k + 1, fuel) == spec_watch_from(
            stepped,
            id,
            j + 1,
            k,
            fuel,
        ));
    }
}

} // verus!
