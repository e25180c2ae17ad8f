//! Laws of the propagation engine, each stated and proved over the
//! specification functions that the executable contracts use.

use vstd::prelude::*;

use crate::node::NodeModel;
use crate::notification::Notification;
use crate::observation::Observation;
use crate::propagation::{
    bump_counter, lemma_check_shape, lemma_send_shape, lemma_watch_from_skeleton,
    lemma_watch_step_skeleton, notification_edges, observation_edges, same_skeleton,
    resolve_policy, same_shape, spec_check, spec_notify, spec_send, spec_send_list,
    spec_watch, spec_watch_from, spec_watch_step, valid_index, with_bumped_counter, with_value,
};
use crate::util::{NotificationPolicy, Transform};

verus! {

/// Whether some notification edge anywhere in `g` has `b` as its mutable
/// endpoint.
pub open spec fn is_notification_target(g: Seq<NodeModel>, b: int) -> bool {
    exists|i: int, j: int|
        0 <= i < g.len() && 0 <= j < g[i].notifications.len() && (#[trigger] g[i].notifications[
            j
        ]).mutable == b
}

/// Graphs of the same shape have the same notification targets.
proof fn lemma_target_same_shape(a: Seq<NodeModel>, c: Seq<NodeModel>, b: int)
    requires
        same_shape(a, c),
    ensures
        is_notification_target(a, b) == is_notification_target(c, b),
{
    if is_notification_target(a, b) {
        let (i, j) = choose|i: int, j: int|
            0 <= i < a.len() && 0 <= j < a[i].notifications.len() && (#[trigger] a[
                i
            ].notifications[j]).mutable == b;
        assert(c[i].notifications == a[i].notifications);
        assert(c[i].notifications[j].mutable == b);
    }
    if is_notification_target(c, b) {
        let (i, j) = choose|i: int, j: int|
            0 <= i < c.len() && 0 <= j < c[i].notifications.len() && (#[trigger] c[
                i
            ].notifications[j]).mutable == b;
        assert(a[i].notifications == c[i].notifications);
        assert(a[i].notifications[j].mutable == b);
    }
}

/// Observation laziness: a broadcast changes a node's payload only through a
/// notification edge that targets it. A node that no notification edge
/// targets — one that merely observes — keeps its payload across any
/// broadcast, until it polls for itself.
pub proof fn lemma_notify_preserves_untargeted(
    g: Seq<NodeModel>,
    id: int,
    overriding: Option<NotificationPolicy>,
    fuel: nat,
    b: int,
)
    requires
        0 <= b < g.len(),
        !is_notification_target(g, b),
    ensures
        spec_notify(g, id, overriding, fuel)[b].value == g[b].value,
    decreases fuel, notification_edges(g, id).len() + 1, 0int,
{
    if fuel == 0 || !valid_index(g, id) {
    } else {
        let g1 = with_bumped_counter(g, id);
        assert(same_shape(g, g1));
        lemma_target_same_shape(g, g1, b);
        assert(forall|j: int|
            0 <= j < g1[id].notifications.len() ==> (#[trigger] g1[id].notifications[j]).mutable
                as int != b);
        lemma_send_list_preserves_untargeted(g1, g1[id].notifications, overriding, fuel, b);
    }
}

/// Sending a list of edges, none of which targets `b`, keeps `b`'s payload.
pub proof fn lemma_send_list_preserves_untargeted(
    g: Seq<NodeModel>,
    edges: Seq<Notification>,
    overriding: Option<NotificationPolicy>,
    fuel: nat,
    b: int,
)
    requires
        0 <= b < g.len(),
        !is_notification_target(g, b),
        forall|j: int| 0 <= j < edges.len() ==> (#[trigger] edges[j]).mutable as int != b,
    ensures
        spec_send_list(g, edges, overriding, fuel)[b].value == g[b].value,
    decreases fuel, edges.len(), 1int,
{
    if edges.len() == 0 {
    } else {
        let policy = resolve_policy(overriding, edges[0]);
        let g2 = spec_send(g, edges[0], policy, fuel);
        lemma_send_preserves_untargeted(g, edges[0], policy, fuel, b);
        lemma_send_shape(g, edges[0], policy, fuel);
        lemma_target_same_shape(g, g2, b);
        lemma_send_list_preserves_untargeted(
            g2,
            edges.subrange(1, edges.len() as int),
            overriding,
            fuel,
            b,
        );
    }
}

/// Sending one edge that does not target `b` keeps `b`'s payload.
pub proof fn lemma_send_preserves_untargeted(
    g: Seq<NodeModel>,
    edge: Notification,
    policy: NotificationPolicy,
    fuel: nat,
    b: int,
)
    requires
        0 <= b < g.len(),
        !is_notification_target(g, b),
        edge.mutable as int != b,
    ensures
        spec_send(g, edge, policy, fuel)[b].value == g[b].value,
    decreases fuel, 0int, 0int,
{
    let r = edge.reference as int;
    let m = edge.mutable as int;
    if !valid_index(g, r) || !valid_index(g, m) {
    } else if !policy.spec_should_notify(g[r].counter, g[r].counter) {
    } else {
        let (new_value, changed) = edge.event.spec_apply(g[r].value, g[m].value);
        let g2 = with_value(g, m, new_value);
        assert(same_shape(g, g2));
        lemma_target_same_shape(g, g2, b);
        if changed && fuel > 0 {
            lemma_notify_preserves_untargeted(g2, m, None, (fuel - 1) as nat, b);
        }
    }
}

/// A broadcast by another node advances a node's counter only when some
/// notification edge targets it: an untargeted bystander keeps its counter.
pub proof fn lemma_notify_preserves_counter(
    g: Seq<NodeModel>,
    id: int,
    overriding: Option<NotificationPolicy>,
    fuel: nat,
    b: int,
)
    requires
        0 <= b < g.len(),
        !is_notification_target(g, b),
        b != id,
    ensures
        spec_notify(g, id, overriding, fuel)[b].counter == g[b].counter,
    decreases fuel, notification_edges(g, id).len() + 1, 0int,
{
    if fuel == 0 || !valid_index(g, id) {
    } else {
        let g1 = with_bumped_counter(g, id);
        assert(same_shape(g, g1));
        lemma_target_same_shape(g, g1, b);
        assert(forall|j: int|
            0 <= j < g1[id].notifications.len() ==> (#[trigger] g1[id].notifications[j]).mutable
                as int != b);
        lemma_send_list_preserves_counter(g1, g1[id].notifications, overriding, fuel, b);
    }
}

/// Sending a list of edges, none of which targets `b`, keeps `b`'s counter.
pub proof fn lemma_send_list_preserves_counter(
    g: Seq<NodeModel>,
    edges: Seq<Notification>,
    overriding: Option<NotificationPolicy>,
    fuel: nat,
    b: int,
)
    requires
        0 <= b < g.len(),
        !is_notification_target(g, b),
        forall|j: int| 0 <= j < edges.len() ==> (#[trigger] edges[j]).mutable as int != b,
    ensures
        spec_send_list(g, edges, overriding, fuel)[b].counter == g[b].counter,
    decreases fuel, edges.len(), 1int,
{
    if edges.len() == 0 {
    } else {
        let policy = resolve_policy(overriding, edges[0]);
        let g2 = spec_send(g, edges[0], policy, fuel);
        lemma_send_preserves_counter(g, edges[0], policy, fuel, b);
        lemma_send_shape(g, edges[0], policy, fuel);
        lemma_target_same_shape(g, g2, b);
        lemma_send_list_preserves_counter(
            g2,
            edges.subrange(1, edges.len() as int),
            overriding,
            fuel,
            b,
        );
    }
}

/// Sending one edge that does not target `b` keeps `b`'s counter.
pub proof fn lemma_send_preserves_counter(
    g: Seq<NodeModel>,
    edge: Notification,
    policy: NotificationPolicy,
    fuel: nat,
    b: int,
)
    requires
        0 <= b < g.len(),
        !is_notification_target(g, b),
        edge.mutable as int != b,
    ensures
        spec_send(g, edge, policy, fuel)[b].counter == g[b].counter,
    decreases fuel, 0int, 0int,
{
    let r = edge.reference as int;
    let m = edge.mutable as int;
    if !valid_index(g, r) || !valid_index(g, m) {
    } else if !policy.spec_should_notify(g[r].counter, g[r].counter) {
    } else {
        let (new_value, changed) = edge.event.spec_apply(g[r].value, g[m].value);
        let g2 = with_value(g, m, new_value);
        assert(same_shape(g, g2));
        lemma_target_same_shape(g, g2, b);
        if changed && fuel > 0 {
            lemma_notify_preserves_counter(g2, m, None, (fuel - 1) as nat, b);
        }
    }
}

/// One observation poll keeps the counter of every untargeted node other than
/// the one the polled edge writes to.
pub proof fn lemma_check_preserves_counter(
    g: Seq<NodeModel>,
    obs: Observation,
    fuel: nat,
    b: int,
)
    requires
        0 <= b < g.len(),
        !is_notification_target(g, b),
        obs.mutable as int != b,
    ensures
        spec_check(g, obs, fuel).0[b].counter == g[b].counter,
{
    let r = obs.reference as int;
    let m = obs.mutable as int;
    if !valid_index(g, r) || !valid_index(g, m) {
    } else if obs.counter == g[r].counter {
    } else {
        let (new_value, changed) = obs.event.spec_apply(g[r].value, g[m].value);
        let g2 = with_value(g, m, new_value);
        assert(same_shape(g, g2));
        lemma_target_same_shape(g, g2, b);
        if changed && fuel > 0 {
            lemma_notify_preserves_counter(g2, m, None, (fuel - 1) as nat, b);
        }
    }
}

/// Whether polling `obs` against `g` would do nothing: an endpoint is out of
/// range, or the cached counter matches the reference's live counter.
pub open spec fn check_is_noop(g: Seq<NodeModel>, obs: Observation) -> bool {
    ||| !valid_index(g, obs.reference as int)
    ||| !valid_index(g, obs.mutable as int)
    ||| obs.counter == g[obs.reference as int].counter
}

/// Whether every observation cache of node `id` matches its reference's live
/// counter (or addresses no node at all).
pub open spec fn caches_current(g: Seq<NodeModel>, id: int) -> bool {
    forall|j: int|
        0 <= j < observation_edges(g, id).len() ==> check_is_noop(
            g,
            #[trigger] observation_edges(g, id)[j],
        )
}

/// A poll walk over edges whose caches are all current changes nothing.
proof fn lemma_watch_from_noop(g: Seq<NodeModel>, id: int, j: int, k: nat, fuel: nat)
    requires
        caches_current(g, id),
    ensures
        spec_watch_from(g, id, j, k, fuel) == g,
    decreases k,
{
    if k == 0 {
    } else {
        assert(spec_watch_step(g, id, j, fuel) == g) by {
            if valid_index(g, id) && 0 <= j < g[id].observations.len() {
                let obs = g[id].observations[j];
                assert(observation_edges(g, id)[j] == obs);
                assert(check_is_noop(g, obs));
                assert(spec_check(g, obs, fuel) == (g, obs));
                assert(g[id].observations.update(j, obs) =~= g[id].observations);
                assert((NodeModel { observations: g[id].observations.update(j, obs), ..g[id] })
                    =~= g[id]);
                assert(g.update(id, g[id]) =~= g);
            }
        }
        lemma_watch_from_noop(g, id, j + 1, (k - 1) as nat, fuel);
    }
}

/// Idempotent re-poll, the core: a poll by a node whose observation caches
/// all match their references' live counters is a no-op.
pub proof fn lemma_watch_noop_when_current(g: Seq<NodeModel>, id: int, fuel: nat)
    requires
        caches_current(g, id),
    ensures
        spec_watch(g, id, fuel) == g,
{
    lemma_watch_from_noop(g, id, 0, observation_edges(g, id).len(), fuel);
}

/// Whether one of `edges` writes to node `b` when it fires.
pub open spec fn is_observation_writer(edges: Seq<Observation>, b: int) -> bool {
    exists|k: int| 0 <= k < edges.len() && (#[trigger] edges[k]).mutable as int == b
}

/// Whether `e2` lists the same watched and written nodes as `e1`, edge for
/// edge; only the caches may differ.
pub open spec fn same_edge_identities(e1: Seq<Observation>, e2: Seq<Observation>) -> bool {
    &&& e1.len() == e2.len()
    &&& forall|k: int|
        0 <= k < e1.len() ==> (#[trigger] e2[k]).reference == e1[k].reference && e2[k].mutable
            == e1[k].mutable
}

/// Edge lists with the same identities write to the same nodes.
proof fn lemma_writer_same_identities(e1: Seq<Observation>, e2: Seq<Observation>, b: int)
    requires
        same_edge_identities(e1, e2),
    ensures
        is_observation_writer(e1, b) == is_observation_writer(e2, b),
{
    if is_observation_writer(e1, b) {
        let k = choose|k: int| 0 <= k < e1.len() && (#[trigger] e1[k]).mutable as int == b;
        assert(e2[k].mutable as int == b);
    }
    if is_observation_writer(e2, b) {
        let k = choose|k: int| 0 <= k < e2.len() && (#[trigger] e2[k]).mutable as int == b;
        assert(e1[k].mutable as int == b);
    }
}

/// Graphs of the same skeleton have the same notification targets.
proof fn lemma_target_same_skeleton(a: Seq<NodeModel>, c: Seq<NodeModel>, b: int)
    requires
        same_skeleton(a, c),
    ensures
        is_notification_target(a, b) == is_notification_target(c, b),
{
    if is_notification_target(a, b) {
        let (i, j) = choose|i: int, j: int|
            0 <= i < a.len() && 0 <= j < a[i].notifications.len() && (#[trigger] a[
                i
            ].notifications[j]).mutable == b;
        assert(c[i].notifications == a[i].notifications);
        assert(c[i].notifications[j].mutable == b);
    }
    if is_notification_target(c, b) {
        let (i, j) = choose|i: int, j: int|
            0 <= i < c.len() && 0 <= j < c[i].notifications.len() && (#[trigger] c[
                i
            ].notifications[j]).mutable == b;
        assert(a[i].notifications == c[i].notifications);
        assert(a[i].notifications[j].mutable == b);
    }
}

/// Whether node `id`'s poll walk cannot reach back and advance a counter that
/// one of its own observation edges watches: no watched reference is the
/// target of a notification edge, and none is a node that one of the
/// observation edges itself writes to.
pub open spec fn poll_feedback_free(g: Seq<NodeModel>, id: int) -> bool {
    forall|j: int|
        0 <= j < observation_edges(g, id).len() ==> !is_notification_target(
            g,
            (#[trigger] observation_edges(g, id)[j]).reference as int,
        ) && !is_observation_writer(
            observation_edges(g, id),
            observation_edges(g, id)[j].reference as int,
        )
}

/// The walk behind [`lemma_watch_refreshes_caches`]: over a feedback-free
/// node's observation edges, counters of untargeted, unwritten nodes stand
/// still, every processed edge ends current, and unprocessed edges are
/// untouched.
proof fn lemma_watch_from_refreshes(g: Seq<NodeModel>, id: int, j: int, k: nat, fuel: nat)
    requires
        valid_index(g, id),
        0 <= j,
        j + k <= g[id].observations.len(),
        poll_feedback_free(g, id),
    ensures
        ({
            let gw = spec_watch_from(g, id, j, k, fuel);
            &&& forall|b: int|
                0 <= b < g.len() && !is_notification_target(g, b) && !is_observation_writer(
                    g[id].observations,
                    b,
                ) ==> (#[trigger] gw[b]).counter == g[b].counter
            &&& forall|jj: int|
                j <= jj < j + k ==> check_is_noop(gw, #[trigger] gw[id].observations[jj])
            &&& forall|jj: int|
                0 <= jj < g[id].observations.len() && !(j <= jj < j + k) ==> (#[trigger] gw[
                    id
                ].observations[jj]) == g[id].observations[jj]
        }),
    decreases k,
{
    let gw = spec_watch_from(g, id, j, k, fuel);
    lemma_watch_from_skeleton(g, id, j, k, fuel);
    if k == 0 {
    } else {
        let obs = g[id].observations[j];
        let stepped = spec_watch_step(g, id, j, fuel);
        let checked = spec_check(g, obs, fuel);
        lemma_check_shape(g, obs, fuel);
        lemma_watch_step_skeleton(g, id, j, fuel);
        assert(observation_edges(g, id)[j] == obs);

        // The step rewrites at most edge j's cache.
        assert(stepped[id].observations == checked.0[id].observations.update(j, checked.1));
        assert(checked.1.reference == obs.reference && checked.1.mutable == obs.mutable);
        assert(same_edge_identities(g[id].observations, stepped[id].observations));

        // Counters of qualifying bystanders stand still across the step.
        assert forall|b: int|
            0 <= b < g.len() && !is_notification_target(g, b) && !is_observation_writer(
                g[id].observations,
                b,
            ) implies (#[trigger] stepped[b]).counter == g[b].counter by {
            assert(obs.mutable as int != b);
            lemma_check_preserves_counter(g, obs, fuel, b);
        }

        // The feedback-free condition carries over to the stepped graph.
        assert(poll_feedback_free(stepped, id)) by {
            assert forall|jj: int|
                0 <= jj < observation_edges(stepped, id).len() implies !is_notification_target(
                stepped,
                (#[trigger] observation_edges(stepped, id)[jj]).reference as int,
            ) && !is_observation_writer(
                observation_edges(stepped, id),
                observation_edges(stepped, id)[jj].reference as int,
            ) by {
                let r = observation_edges(stepped, id)[jj].reference as int;
                assert(observation_edges(g, id)[jj].reference as int == r);
                lemma_target_same_skeleton(g, stepped, r);
                lemma_writer_same_identities(
                    g[id].observations,
                    stepped[id].observations,
                    r,
                );
            }
        }

        lemma_watch_from_refreshes(stepped, id, j + 1, (k - 1) as nat, fuel);
        lemma_watch_from_skeleton(stepped, id, j + 1, (k - 1) as nat, fuel);
        assert(gw == spec_watch_from(stepped, id, j + 1, (k - 1) as nat, fuel));

        // Counters of qualifying bystanders stand still across the whole walk.
        assert forall|b: int|
            0 <= b < g.len() && !is_notification_target(g, b) && !is_observation_writer(
                g[id].observations,
                b,
            ) implies (#[trigger] gw[b]).counter == g[b].counter by {
            lemma_target_same_skeleton(g, stepped, b);
            lemma_writer_same_identities(g[id].observations, stepped[id].observations, b);
            assert(gw[b].counter == stepped[b].counter);
        }

        // Edge j, processed by this step and untouched afterwards, ends
        // current.
        assert(check_is_noop(gw, gw[id].observations[j])) by {
            assert(gw[id].observations[j] == stepped[id].observations[j]);
            let r = obs.reference as int;
            let m = obs.mutable as int;
            if !valid_index(g, r) || !valid_index(g, m) {
            } else {
                assert(!is_notification_target(g, r) && !is_observation_writer(
                    g[id].observations,
                    r,
                ));
                assert(stepped[r].counter == g[r].counter) by {
                    assert(obs.mutable as int != r);
                    lemma_check_preserves_counter(g, obs, fuel, r);
                }
                assert(gw[r].counter == stepped[r].counter) by {
                    lemma_target_same_skeleton(g, stepped, r);
                    lemma_writer_same_identities(
                        g[id].observations,
                        stepped[id].observations,
                        r,
                    );
                }
                assert(stepped[id].observations[j].counter == g[r].counter);
            }
        }
    }
}

/// A poll by a feedback-free node leaves every one of its caches current:
/// nothing the poll sets in motion reaches back and advances a watched
/// reference.
pub proof fn lemma_watch_refreshes_caches(g: Seq<NodeModel>, id: int, fuel: nat)
    requires
        valid_index(g, id),
        poll_feedback_free(g, id),
    ensures
        caches_current(spec_watch(g, id, fuel), id),
{
    lemma_watch_from_refreshes(g, id, 0, g[id].observations.len(), fuel);
    lemma_watch_from_skeleton(g, id, 0, g[id].observations.len(), fuel);
}

/// Idempotent re-poll for feedback-free nodes: polling twice with no
/// intervening reference mutation fires each transform at most once — the
/// second poll is a no-op.
pub proof fn lemma_repoll_feedback_free(g: Seq<NodeModel>, id: int, fuel: nat, fuel2: nat)
    requires
        valid_index(g, id),
        poll_feedback_free(g, id),
    ensures
        spec_watch(spec_watch(g, id, fuel), id, fuel2) == spec_watch(g, id, fuel),
{
    lemma_watch_refreshes_caches(g, id, fuel);
    lemma_watch_noop_when_current(spec_watch(g, id, fuel), id, fuel2);
}

/// Idempotent re-poll: when a poll leaves every cache of the polling node
/// current — that is, the poll's own propagation does not reach back and
/// advance a watched reference — polling again without an intervening
/// reference mutation is a no-op.
pub proof fn lemma_repoll_is_noop(g: Seq<NodeModel>, id: int, fuel: nat, fuel2: nat)
    requires
        caches_current(spec_watch(g, id, fuel), id),
    ensures
        spec_watch(spec_watch(g, id, fuel), id, fuel2) == spec_watch(g, id, fuel),
{
    lemma_watch_noop_when_current(spec_watch(g, id, fuel), id, fuel2);
}

/// Notification propagation: in a two-node graph where node 0 carries one
/// always-firing notification edge to node 1 and node 1 carries none,
/// setting node 0's payload to `x` and broadcasting runs the transform on
/// node 1 exactly once and advances node 0's version by one; node 1's version
/// advances exactly when the transform reports a change.
pub proof fn lemma_notification_propagates(
    a: NodeModel,
    b: NodeModel,
    t: Transform,
    x: i64,
    fuel: nat,
)
    requires
        a.notifications == seq![
            (Notification {
                reference: 0,
                mutable: 1,
                event: t,
                default_notification_policy: NotificationPolicy::All,
            }),
        ],
        b.notifications.len() == 0,
        a.counter < u64::MAX,
        fuel >= 2,
    ensures
        ({
            let after = spec_notify(with_value(seq![a, b], 0, x), 0, None, fuel);
            &&& after.len() == 2
            &&& after[0].value == x
            &&& after[0].counter == a.counter + 1
            &&& after[1].value == t.spec_apply(x, b.value).0
            &&& after[1].counter == (if t.spec_apply(x, b.value).1 {
                bump_counter(b.counter)
            } else {
                b.counter
            })
        }),
{
    let edge = Notification {
        reference: 0,
        mutable: 1,
        event: t,
        default_notification_policy: NotificationPolicy::All,
    };
    let gx = with_value(seq![a, b], 0, x);
    assert(gx.len() == 2);
    assert(gx[0].counter == a.counter);
    let g1 = with_bumped_counter(gx, 0);
    assert(g1[0].value == x);
    assert(g1[0].counter == a.counter + 1);
    assert(g1[1] == b);
    let edges = g1[0].notifications;
    assert(edges == a.notifications);
    assert(edges[0] == edge);
    assert(spec_notify(gx, 0, None, fuel) == spec_send_list(g1, edges, None, fuel));
    assert(resolve_policy(None, edge) == NotificationPolicy::All);
    let g2 = spec_send(g1, edge, NotificationPolicy::All, fuel);
    assert(edges.subrange(1, 1) =~= Seq::<Notification>::empty());
    assert(spec_send_list(g2, edges.subrange(1, 1), None, fuel) == g2);
    assert(spec_send_list(g1, edges, None, fuel) == g2);
    let (new_value, changed) = t.spec_apply(g1[0].value, g1[1].value);
    let gv = with_value(g1, 1, new_value);
    assert(gv[0] == g1[0]);
    assert(gv[1].value == new_value);
    assert(gv[1].counter == b.counter);
    if changed {
        let g3 = with_bumped_counter(gv, 1);
        assert(g3[1].notifications == b.notifications);
        assert(g3[1].notifications.len() == 0);
        assert(spec_send_list(g3, g3[1].notifications, None, (fuel - 1) as nat) == g3);
        assert(spec_notify(gv, 1, None, (fuel - 1) as nat) == g3);
        assert(g2 == g3);
        assert(g3[0] == g1[0]);
        assert(g3[1].value == new_value);
        assert(g3[1].counter == bump_counter(b.counter));
    } else {
        assert(g2 == gv);
    }
}

/// Observation polling: in a two-node graph where node 1 watches node 0
/// through one observation edge and carries no notification edges, a poll
/// does nothing when the cache matches node 0's live counter; on a mismatch
/// it runs the transform exactly once, refreshes the cache to the live
/// counter, and leaves the watched node untouched.
pub proof fn lemma_observation_fires_once(
    a: NodeModel,
    b: NodeModel,
    t: Transform,
    cached: u64,
    fuel: nat,
)
    requires
        b.observations == seq![
            (Observation { reference: 0, mutable: 1, event: t, counter: cached }),
        ],
        b.notifications.len() == 0,
        fuel >= 2,
    ensures
        ({
            let after = spec_watch(seq![a, b], 1, fuel);
            &&& cached == a.counter ==> after == seq![a, b]
            &&& cached != a.counter ==> {
                &&& after.len() == 2
                &&& after[0] == a
                &&& after[1].value == t.spec_apply(a.value, b.value).0
                &&& after[1].observations[0].counter == a.counter
                &&& after[1].counter == (if t.spec_apply(a.value, b.value).1 {
                    bump_counter(b.counter)
                } else {
                    b.counter
                })
            }
        }),
{
    let obs = Observation { reference: 0, mutable: 1, event: t, counter: cached };
    let g = seq![a, b];
    assert(observation_edges(g, 1) == b.observations);
    let stepped = spec_watch_step(g, 1, 0, fuel);
    assert(spec_watch_from(stepped, 1, 1, 0, fuel) == stepped);
    assert(spec_watch(g, 1, fuel) == stepped);
    assert(g[1].observations[0] == obs);
    let checked = spec_check(g, obs, fuel);
    if cached == a.counter {
        assert(checked == (g, obs));
        assert(g[1].observations.update(0, obs) =~= g[1].observations);
        assert((NodeModel { observations: g[1].observations.update(0, obs), ..g[1] }) =~= g[1]);
        assert(stepped =~~= g);
    } else {
        let obs2 = Observation { counter: a.counter, ..obs };
        let (new_value, changed) = t.spec_apply(g[0].value, g[1].value);
        let gv = with_value(g, 1, new_value);
        assert(gv[0] == a);
        assert(gv[1].value == new_value);
        if changed {
            let g3 = with_bumped_counter(gv, 1);
            assert(g3[1].notifications == b.notifications);
            assert(spec_send_list(g3, g3[1].notifications, None, (fuel - 1) as nat) == g3);
            assert(spec_notify(gv, 1, None, (fuel - 1) as nat) == g3);
            assert(checked.0 == g3);
            assert(checked.1 == obs2);
        } else {
            assert(checked.0 == gv);
            assert(checked.1 == obs2);
        }
        assert(checked.0[1].observations == b.observations);
        assert(stepped == checked.0.update(
            1,
            NodeModel {
                observations: checked.0[1].observations.update(0, obs2),
                ..checked.0[1]
            },
        ));
        assert(stepped[1].observations[0] == obs2);
        assert(stepped[0] == a);
    }
}

/// Transitive propagation: in a three-node chain where node 0 notifies node 1
/// and node 1 notifies node 2, each edge always-firing and each transform
/// reporting a change, a single set-and-notify of node 0 fires node 2's
/// transform: node 2 ends holding its payload transformed from node 1's
/// transformed payload.
pub proof fn lemma_chain_propagates(
    a: NodeModel,
    b: NodeModel,
    c: NodeModel,
    t1: Transform,
    t2: Transform,
    x: i64,
    fuel: nat,
)
    requires
        a.notifications == seq![
            (Notification {
                reference: 0,
                mutable: 1,
                event: t1,
                default_notification_policy: NotificationPolicy::All,
            }),
        ],
        b.notifications == seq![
            (Notification {
                reference: 1,
                mutable: 2,
                event: t2,
                default_notification_policy: NotificationPolicy::All,
            }),
        ],
        c.notifications.len() == 0,
        t1.spec_apply(x, b.value).1,
        t2.spec_apply(t1.spec_apply(x, b.value).0, c.value).1,
        fuel >= 3,
    ensures
        ({
            let after = spec_notify(with_value(seq![a, b, c], 0, x), 0, None, fuel);
            &&& after.len() == 3
            &&& after[0].value == x
            &&& after[1].value == t1.spec_apply(x, b.value).0
            &&& after[2].value == t2.spec_apply(t1.spec_apply(x, b.value).0, c.value).0
        }),
{
    let edge1 = Notification {
        reference: 0,
        mutable: 1,
        event: t1,
        default_notification_policy: NotificationPolicy::All,
    };
    let edge2 = Notification {
        reference: 1,
        mutable: 2,
        event: t2,
        default_notification_policy: NotificationPolicy::All,
    };
    let b_value = t1.spec_apply(x, b.value).0;
    let c_value = t2.spec_apply(b_value, c.value).0;
    let gx = with_value(seq![a, b, c], 0, x);
    assert(gx.len() == 3);

    // Node 0 broadcasts: counter up, then its one edge is sent.
    let g1 = with_bumped_counter(gx, 0);
    assert(g1[0].value == x);
    assert(g1[1] == b);
    assert(g1[2] == c);
    let edges0 = g1[0].notifications;
    assert(edges0 == a.notifications);
    assert(edges0[0] == edge1);
    assert(spec_notify(gx, 0, None, fuel) == spec_send_list(g1, edges0, None, fuel));
    let s1 = spec_send(g1, edge1, NotificationPolicy::All, fuel);
    assert(resolve_policy(None, edge1) == NotificationPolicy::All);
    assert(edges0.subrange(1, 1) =~= Seq::<Notification>::empty());
    assert(spec_send_list(s1, edges0.subrange(1, 1), None, fuel) == s1);
    assert(spec_send_list(g1, edges0, None, fuel) == s1);

    // Edge 0 -> 1 fires: node 1 takes its transformed payload and broadcasts.
    assert(t1.spec_apply(g1[0].value, g1[1].value) == t1.spec_apply(x, b.value));
    let gv1 = with_value(g1, 1, b_value);
    assert(gv1[0] == g1[0]);
    assert(gv1[2] == c);
    assert(s1 == spec_notify(gv1, 1, None, (fuel - 1) as nat));

    // Node 1 broadcasts: counter up, then its one edge is sent.
    let g2 = with_bumped_counter(gv1, 1);
    assert(g2[0] == g1[0]);
    assert(g2[1].value == b_value);
    assert(g2[2] == c);
    let edges1 = g2[1].notifications;
    assert(edges1 == b.notifications);
    assert(edges1[0] == edge2);
    assert(spec_notify(gv1, 1, None, (fuel - 1) as nat) == spec_send_list(
        g2,
        edges1,
        None,
        (fuel - 1) as nat,
    ));
    let s2 = spec_send(g2, edge2, NotificationPolicy::All, (fuel - 1) as nat);
    assert(resolve_policy(None, edge2) == NotificationPolicy::All);
    assert(edges1.subrange(1, 1) =~= Seq::<Notification>::empty());
    assert(spec_send_list(s2, edges1.subrange(1, 1), None, (fuel - 1) as nat) == s2);
    assert(spec_send_list(g2, edges1, None, (fuel - 1) as nat) == s2);

    // Edge 1 -> 2 fires: node 2 takes its transformed payload and broadcasts
    // over an empty edge list.
    assert(t2.spec_apply(g2[1].value, g2[2].value) == t2.spec_apply(b_value, c.value));
    let gv2 = with_value(g2, 2, c_value);
    assert(gv2[0] == g2[0]);
    assert(gv2[1] == g2[1]);
    assert(gv2[2].value == c_value);
    assert(s2 == spec_notify(gv2, 2, None, (fuel - 2) as nat));
    let g3 = with_bumped_counter(gv2, 2);
    assert(g3[2].notifications == c.notifications);
    assert(spec_send_list(g3, g3[2].notifications, None, (fuel - 2) as nat) == g3);
    assert(spec_notify(gv2, 2, None, (fuel - 2) as nat) == g3);
    assert(g3[0].value == x);
    assert(g3[1].value == b_value);
    assert(g3[2].value == c_value);
}

} // verus!
