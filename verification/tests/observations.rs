use graph_event::node::{Graph, Node};
use graph_event::observation::Observation;
use graph_event::util::{NotificationPolicy, Transform};

#[test]
fn observations_observation() {
    let mut g = Graph::new();
    let a = g.add_node(Node::new(5));
    let b = g.add_node(Node::new(10));
    let _ = g.try_mark_for_observation(b, a, Transform::AddFrom);
    assert_eq!(g.value(a), 5);
    g.update(a, 11);
    assert_eq!(g.value(a), 11);
    assert_eq!(g.value(b), 10);
    g.watch_for_updates(b);
    assert_eq!(g.value(b), 21);
}

#[test]
fn observation_is_lazy_until_polled() {
    let mut g = Graph::new();
    let a = g.add_node(Node::new(5));
    let b = g.add_node(Node::new(10));
    let _ = g.try_mark_for_observation(b, a, Transform::AddFrom);
    g.set_and_notify(a, 11);
    assert_eq!(g.value(b), 10);
    g.set_and_notify(a, 2);
    assert_eq!(g.value(b), 10);
    // Two distinct version changes, then one poll: the transform fires once,
    // against the reference's latest payload.
    g.watch_for_updates(b);
    assert_eq!(g.value(b), 12);
}

#[test]
fn repoll_fires_at_most_once() {
    let mut g = Graph::new();
    let a = g.add_node(Node::new(5));
    let b = g.add_node(Node::new(10));
    let _ = g.try_mark_for_observation(b, a, Transform::AddFrom);
    g.set_and_notify(a, 11);
    g.watch_for_updates(b);
    assert_eq!(g.value(b), 21);
    g.watch_for_updates(b);
    assert_eq!(g.value(b), 21);
    g.watch_for_updates(b);
    assert_eq!(g.value(b), 21);
}

#[test]
fn poll_fires_once_per_version_change() {
    let mut g = Graph::new();
    let a = g.add_node(Node::new(5));
    let b = g.add_node(Node::new(0));
    let _ = g.try_mark_for_observation(b, a, Transform::AddFrom);
    g.set_and_notify(a, 11);
    g.watch_for_updates(b);
    assert_eq!(g.value(b), 11);
    g.set_and_notify(a, 3);
    g.watch_for_updates(b);
    assert_eq!(g.value(b), 14);
}

#[test]
fn observation_poll_propagates_notifications() {
    let mut g = Graph::new();
    let a = g.add_node(Node::new(5));
    let b = g.add_node(Node::new(10));
    let c = g.add_node(Node::new(100));
    let _ = g.try_mark_for_observation(b, a, Transform::AddFrom);
    let _ = g.try_mark_for_notification(b, c, Transform::AddFrom, NotificationPolicy::All);
    g.set_and_notify(a, 11);
    assert_eq!(g.value(c), 100);
    g.watch_for_updates(b);
    assert_eq!(g.value(b), 21);
    assert_eq!(g.value(c), 121);
}

#[test]
fn poll_with_feedback_refires() {
    // When the poll's own propagation reaches back and advances the watched
    // reference, the cache is stale again and the next poll fires once more.
    let mut g = Graph::new();
    let a = g.add_node(Node::new(5));
    let b = g.add_node(Node::new(10));
    let _ = g.try_mark_for_observation(b, a, Transform::AddFrom);
    let _ = g.try_mark_for_notification(b, a, Transform::CopyFrom, NotificationPolicy::All);
    g.update(a, 11);
    assert_eq!(g.version(a), 1);
    g.watch_for_updates(b);
    assert_eq!(g.value(b), 21);
    assert_eq!(g.value(a), 21);
    assert_eq!(g.version(a), 2);
    g.watch_for_updates(b);
    assert_eq!(g.value(b), 42);
    assert_eq!(g.value(a), 42);
    assert_eq!(g.version(a), 3);
}

#[test]
fn observation_check_standalone() {
    let mut g = Graph::new();
    let a = g.add_node(Node::new(5));
    let b = g.add_node(Node::new(10));
    let mut obs = Observation::new(&g, a, b, Transform::AddFrom);
    obs.check(&mut g);
    assert_eq!(g.value(b), 10);
    g.set_and_notify(a, 11);
    obs.check(&mut g);
    assert_eq!(g.value(b), 21);
    obs.check(&mut g);
    assert_eq!(g.value(b), 21);
}

#[test]
fn unchanged_report_stops_poll_propagation() {
    let mut g = Graph::new();
    let a = g.add_node(Node::new(5));
    let b = g.add_node(Node::new(10));
    let c = g.add_node(Node::new(100));
    let _ = g.try_mark_for_observation(b, a, Transform::Keep);
    let _ = g.try_mark_for_notification(b, c, Transform::AddFrom, NotificationPolicy::All);
    g.set_and_notify(a, 11);
    g.watch_for_updates(b);
    assert_eq!(g.value(b), 10);
    assert_eq!(g.value(c), 100);
}
