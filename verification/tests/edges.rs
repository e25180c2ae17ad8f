use graph_event::node::{Graph, Node};
use graph_event::util::{NodeError, NotificationPolicy, Transform};

#[test]
fn duplicate_notification_rejected() {
    let mut g = Graph::new();
    let a = g.add_node(Node::new(1));
    let b = g.add_node(Node::new(2));
    let first = g.try_mark_for_notification(a, b, Transform::AddFrom, NotificationPolicy::All);
    assert_eq!(first, Ok(()));
    let second = g.try_mark_for_notification(a, b, Transform::CopyFrom, NotificationPolicy::All);
    assert_eq!(second, Err(NodeError::AlreadyExists));
    assert_eq!(g.nodes[a].notifications.len(), 1);
}

#[test]
fn mark_off_missing_notification() {
    let mut g = Graph::new();
    let a = g.add_node(Node::new(1));
    let b = g.add_node(Node::new(2));
    let r = g.try_mark_off_notification(a, b);
    assert_eq!(r, Err(NodeError::DoesNotExist));
}

#[test]
fn mark_off_then_readd_notification() {
    let mut g = Graph::new();
    let a = g.add_node(Node::new(1));
    let b = g.add_node(Node::new(2));
    let _ = g.try_mark_for_notification(a, b, Transform::AddFrom, NotificationPolicy::All);
    assert_eq!(g.try_mark_off_notification(a, b), Ok(()));
    assert_eq!(g.nodes[a].notifications.len(), 0);
    let readded = g.try_mark_for_notification(a, b, Transform::AddFrom, NotificationPolicy::All);
    assert_eq!(readded, Ok(()));
    assert_eq!(g.nodes[a].notifications.len(), 1);
}

#[test]
fn marked_off_edge_no_longer_fires() {
    let mut g = Graph::new();
    let a = g.add_node(Node::new(5));
    let b = g.add_node(Node::new(10));
    let _ = g.try_mark_for_notification(a, b, Transform::AddFrom, NotificationPolicy::All);
    let _ = g.try_mark_off_notification(a, b);
    g.set_and_notify(a, 11);
    assert_eq!(g.value(b), 10);
}

#[test]
fn duplicate_observation_rejected() {
    let mut g = Graph::new();
    let a = g.add_node(Node::new(1));
    let b = g.add_node(Node::new(2));
    assert_eq!(g.try_mark_for_observation(b, a, Transform::AddFrom), Ok(()));
    assert_eq!(
        g.try_mark_for_observation(b, a, Transform::CopyFrom),
        Err(NodeError::AlreadyExists)
    );
    assert_eq!(g.nodes[b].observations.len(), 1);
}

#[test]
fn mark_off_missing_observation() {
    let mut g = Graph::new();
    let a = g.add_node(Node::new(1));
    let b = g.add_node(Node::new(2));
    assert_eq!(g.try_mark_off_observation(b, a), Err(NodeError::DoesNotExist));
}

#[test]
fn mark_off_then_readd_observation() {
    let mut g = Graph::new();
    let a = g.add_node(Node::new(1));
    let b = g.add_node(Node::new(2));
    let _ = g.try_mark_for_observation(b, a, Transform::AddFrom);
    assert_eq!(g.try_mark_off_observation(b, a), Ok(()));
    assert_eq!(g.nodes[b].observations.len(), 0);
    assert_eq!(g.try_mark_for_observation(b, a, Transform::AddFrom), Ok(()));
    assert_eq!(g.nodes[b].observations.len(), 1);
}

#[test]
fn removal_removes_first_match_only() {
    let mut g = Graph::new();
    let a = g.add_node(Node::new(1));
    let b = g.add_node(Node::new(2));
    let c = g.add_node(Node::new(3));
    let _ = g.try_mark_for_notification(a, b, Transform::AddFrom, NotificationPolicy::All);
    let _ = g.try_mark_for_notification(a, c, Transform::AddFrom, NotificationPolicy::All);
    assert_eq!(g.try_mark_off_notification(a, b), Ok(()));
    assert_eq!(g.nodes[a].notifications.len(), 1);
    // The edge to the other endpoint is the one that stays.
    g.set_and_notify(a, 4);
    assert_eq!(g.value(b), 2);
    assert_eq!(g.value(c), 7);
}

#[test]
fn distinct_nodes_with_equal_payloads_do_not_collide() {
    // Edge bookkeeping is keyed by node index, not payload equality: two
    // nodes holding equal payloads are distinct endpoints.
    let mut g = Graph::new();
    let a = g.add_node(Node::new(7));
    let b = g.add_node(Node::new(7));
    let c = g.add_node(Node::new(7));
    assert_eq!(
        g.try_mark_for_notification(a, b, Transform::AddFrom, NotificationPolicy::All),
        Ok(())
    );
    assert_eq!(
        g.try_mark_for_notification(a, c, Transform::AddFrom, NotificationPolicy::All),
        Ok(())
    );
    assert_eq!(g.nodes[a].notifications.len(), 2);
}

#[test]
fn error_messages() {
    assert_eq!(NodeError::AlreadyExists.message(), "Already exists!");
    assert_eq!(NodeError::DoesNotExist.message(), "Does not exist!");
}

#[test]
fn node_count_and_getters() {
    let mut g = Graph::new();
    assert_eq!(g.node_count(), 0);
    let a = g.add_node(Node::new(-3));
    let b = g.add_node(Node::new(8));
    assert_eq!(g.node_count(), 2);
    assert_eq!(a, 0);
    assert_eq!(b, 1);
    assert_eq!(g.value(a), -3);
    assert_eq!(g.value(b), 8);
    assert_eq!(g.version(a), 0);
}
