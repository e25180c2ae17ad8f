use graph_event::util::{NotificationPolicy, Transform};

#[test]
fn policy_all_truth_table() {
    assert!(NotificationPolicy::All.should_notify(5, 4));
    assert!(NotificationPolicy::All.should_notify(5, 5));
    assert!(NotificationPolicy::All.should_notify(5, 6));
}

#[test]
fn policy_less_updated_truth_table() {
    assert!(NotificationPolicy::LessUpdated.should_notify(5, 4));
    assert!(!NotificationPolicy::LessUpdated.should_notify(5, 5));
    assert!(!NotificationPolicy::LessUpdated.should_notify(5, 6));
}

#[test]
fn policy_more_updated_truth_table() {
    assert!(!NotificationPolicy::MoreUpdated.should_notify(5, 4));
    assert!(!NotificationPolicy::MoreUpdated.should_notify(5, 5));
    assert!(NotificationPolicy::MoreUpdated.should_notify(5, 6));
}

#[test]
fn policy_equally_updated_truth_table() {
    assert!(!NotificationPolicy::EquallyUpdated.should_notify(5, 4));
    assert!(NotificationPolicy::EquallyUpdated.should_notify(5, 5));
    assert!(!NotificationPolicy::EquallyUpdated.should_notify(5, 6));
}

#[test]
fn policy_differently_updated_truth_table() {
    assert!(NotificationPolicy::DifferentlyUpdated.should_notify(5, 4));
    assert!(!NotificationPolicy::DifferentlyUpdated.should_notify(5, 5));
    assert!(NotificationPolicy::DifferentlyUpdated.should_notify(5, 6));
}

#[test]
fn policy_equally_or_less_updated_truth_table() {
    assert!(NotificationPolicy::EquallyOrLessUpdated.should_notify(5, 4));
    assert!(NotificationPolicy::EquallyOrLessUpdated.should_notify(5, 5));
    assert!(!NotificationPolicy::EquallyOrLessUpdated.should_notify(5, 6));
}

#[test]
fn policy_equally_or_more_updated_truth_table() {
    assert!(!NotificationPolicy::EquallyOrMoreUpdated.should_notify(5, 4));
    assert!(NotificationPolicy::EquallyOrMoreUpdated.should_notify(5, 5));
    assert!(NotificationPolicy::EquallyOrMoreUpdated.should_notify(5, 6));
}

#[test]
fn policy_truth_table_at_zero() {
    assert!(NotificationPolicy::LessUpdated.should_notify(1, 0));
    assert!(!NotificationPolicy::LessUpdated.should_notify(0, 0));
    assert!(NotificationPolicy::EquallyUpdated.should_notify(0, 0));
    assert!(NotificationPolicy::EquallyOrMoreUpdated.should_notify(0, 0));
    assert!(NotificationPolicy::EquallyOrLessUpdated.should_notify(0, 0));
    assert!(!NotificationPolicy::DifferentlyUpdated.should_notify(0, 0));
}

#[test]
fn transform_apply_exact_values() {
    assert_eq!(Transform::CopyFrom.apply(7, 3), (7, true));
    assert_eq!(Transform::AddFrom.apply(7, 3), (10, true));
    assert_eq!(Transform::AddFrom.apply(-7, 3), (-4, true));
    assert_eq!(Transform::Keep.apply(7, 3), (3, false));
}

#[test]
fn transform_add_from_saturates() {
    assert_eq!(Transform::AddFrom.apply(1, i64::MAX), (i64::MAX, true));
    assert_eq!(Transform::AddFrom.apply(i64::MAX, i64::MAX), (i64::MAX, true));
    assert_eq!(Transform::AddFrom.apply(-1, i64::MIN), (i64::MIN, true));
    assert_eq!(Transform::AddFrom.apply(i64::MIN, i64::MIN), (i64::MIN, true));
    assert_eq!(Transform::AddFrom.apply(i64::MIN, i64::MAX), (-1, true));
}
