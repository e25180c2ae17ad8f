use graph_event::node::{Graph, Node};
use graph_event::notification::Notification;
use graph_event::util::{NotificationPolicy, Transform};

#[test]
fn notifications_notification() {
    let mut g = Graph::new();
    let a = g.add_node(Node::new(5));
    let b = g.add_node(Node::new(10));
    let _ = g.try_mark_for_notification(a, b, Transform::AddFrom, NotificationPolicy::All);
    g.update(a, 11);
    assert_eq!(g.value(a), 11);
    assert_eq!(g.value(b), 21);
}

#[test]
fn policy_all_notification() {
    let mut g = Graph::new();
    let a = g.add_node(Node::new(5));
    let b = g.add_node(Node::new(10));
    let r = g.try_mark_for_notification(a, b, Transform::AddFrom, NotificationPolicy::All);
    assert!(r.is_ok());
    g.update(a, 11);
    assert_eq!(g.value(a), 11);
    assert_eq!(g.value(b), 21);
}

#[test]
fn notification_advances_version_by_one() {
    let mut g = Graph::new();
    let a = g.add_node(Node::new(5));
    let b = g.add_node(Node::new(10));
    let _ = g.try_mark_for_notification(a, b, Transform::AddFrom, NotificationPolicy::All);
    assert_eq!(g.version(a), 0);
    g.set_and_notify(a, 11);
    assert_eq!(g.version(a), 1);
    assert_eq!(g.value(b), 21);
    g.set_and_notify(a, 2);
    assert_eq!(g.version(a), 2);
    assert_eq!(g.value(b), 23);
}

#[test]
fn noop_update_fires_nothing() {
    let mut g = Graph::new();
    let a = g.add_node(Node::new(5));
    let b = g.add_node(Node::new(10));
    let _ = g.try_mark_for_notification(a, b, Transform::AddFrom, NotificationPolicy::All);
    g.update(a, 5);
    assert_eq!(g.value(a), 5);
    assert_eq!(g.value(b), 10);
    assert_eq!(g.version(a), 0);
    assert_eq!(g.version(b), 0);
}

#[test]
fn set_defers_propagation() {
    let mut g = Graph::new();
    let a = g.add_node(Node::new(5));
    let b = g.add_node(Node::new(10));
    let _ = g.try_mark_for_notification(a, b, Transform::AddFrom, NotificationPolicy::All);
    g.set(a, 11);
    assert_eq!(g.value(a), 11);
    assert_eq!(g.value(b), 10);
    assert_eq!(g.version(a), 0);
    g.notify_to_neighbors(a);
    assert_eq!(g.version(a), 1);
    assert_eq!(g.value(b), 21);
}

#[test]
fn transitive_chain_fires() {
    let mut g = Graph::new();
    let a = g.add_node(Node::new(5));
    let b = g.add_node(Node::new(10));
    let c = g.add_node(Node::new(100));
    let _ = g.try_mark_for_notification(a, b, Transform::AddFrom, NotificationPolicy::All);
    let _ = g.try_mark_for_notification(b, c, Transform::AddFrom, NotificationPolicy::All);
    g.set_and_notify(a, 11);
    assert_eq!(g.value(a), 11);
    assert_eq!(g.value(b), 21);
    assert_eq!(g.value(c), 121);
    assert_eq!(g.version(b), 1);
    assert_eq!(g.version(c), 1);
}

#[test]
fn unchanged_report_stops_propagation() {
    let mut g = Graph::new();
    let a = g.add_node(Node::new(5));
    let b = g.add_node(Node::new(10));
    let c = g.add_node(Node::new(100));
    let _ = g.try_mark_for_notification(a, b, Transform::Keep, NotificationPolicy::All);
    let _ = g.try_mark_for_notification(b, c, Transform::AddFrom, NotificationPolicy::All);
    g.set_and_notify(a, 11);
    assert_eq!(g.value(b), 10);
    assert_eq!(g.value(c), 100);
    assert_eq!(g.version(b), 0);
}

#[test]
fn order_sensitive_policies_compare_reference_with_itself() {
    // The send path evaluates the policy over the reference's counter on both
    // sides, so the strict and "differently" policies never pass, while the
    // equality-admitting ones always do.
    let firing = [
        NotificationPolicy::All,
        NotificationPolicy::EquallyUpdated,
        NotificationPolicy::EquallyOrLessUpdated,
        NotificationPolicy::EquallyOrMoreUpdated,
    ];
    for policy in firing {
        let mut g = Graph::new();
        let a = g.add_node(Node::new(5));
        let b = g.add_node(Node::new(10));
        let _ = g.try_mark_for_notification(a, b, Transform::AddFrom, policy);
        g.set_and_notify(a, 11);
        assert_eq!(g.value(b), 21);
    }
    let silent = [
        NotificationPolicy::LessUpdated,
        NotificationPolicy::MoreUpdated,
        NotificationPolicy::DifferentlyUpdated,
    ];
    for policy in silent {
        let mut g = Graph::new();
        let a = g.add_node(Node::new(5));
        let b = g.add_node(Node::new(10));
        let _ = g.try_mark_for_notification(a, b, Transform::AddFrom, policy);
        g.set_and_notify(a, 11);
        assert_eq!(g.value(b), 10);
        assert_eq!(g.version(a), 1);
    }
}

#[test]
fn broadcast_policy_overrides_edge_defaults() {
    let mut g = Graph::new();
    let a = g.add_node(Node::new(5));
    let b = g.add_node(Node::new(10));
    let _ = g.try_mark_for_notification(a, b, Transform::AddFrom, NotificationPolicy::LessUpdated);
    g.set_and_notify(a, 11);
    assert_eq!(g.value(b), 10);
    g.notify_to_neighbors_with_policy(a, NotificationPolicy::All);
    assert_eq!(g.value(b), 21);
    assert_eq!(g.version(a), 2);
}

#[test]
fn notification_send_standalone() {
    let mut g = Graph::new();
    let a = g.add_node(Node::new(7));
    let b = g.add_node(Node::new(1));
    let edge = Notification::new(a, b, Transform::CopyFrom, NotificationPolicy::All);
    edge.send(&mut g, NotificationPolicy::All);
    assert_eq!(g.value(b), 7);
    g.set(b, 1);
    edge.send(&mut g, NotificationPolicy::LessUpdated);
    assert_eq!(g.value(b), 1);
    edge.send_with_default_policy(&mut g);
    assert_eq!(g.value(b), 7);
}

#[test]
fn add_from_saturates_at_payload_bounds() {
    let mut g = Graph::new();
    let a = g.add_node(Node::new(0));
    let b = g.add_node(Node::new(i64::MAX - 1));
    let _ = g.try_mark_for_notification(a, b, Transform::AddFrom, NotificationPolicy::All);
    g.set_and_notify(a, 5);
    assert_eq!(g.value(b), i64::MAX);
}
