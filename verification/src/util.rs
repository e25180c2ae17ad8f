//! Notification policies, edge transforms, and the error type for edge
//! bookkeeping.

use vstd::prelude::*;

verus! {

/// A stateless predicate over two version counters that decides, per send,
/// whether a notification edge should fire.
#[derive(Clone, Copy, Debug, PartialEq, Eq, Structural)]
pub enum NotificationPolicy {
    /// Notifies unconditionally.
    All,
    /// Notifies nodes whose counter is strictly behind the reference's.
    LessUpdated,
    /// Notifies nodes whose counter is strictly ahead of the reference's.
    MoreUpdated,
    /// Notifies nodes whose counter equals the reference's.
    EquallyUpdated,
    /// Notifies nodes whose counter differs from the reference's.
    DifferentlyUpdated,
    /// Notifies nodes whose counter is at most the reference's.
    EquallyOrLessUpdated,
    /// Notifies nodes whose counter is at least the reference's.
    EquallyOrMoreUpdated,
}

impl NotificationPolicy {
    /// The policy's truth table over the reference node's counter and the
    /// mutable node's counter.
    pub open spec fn spec_should_notify(
        &self,
        node_state_reference: u64,
        node_state_mutable: u64,
    ) -> bool {
        match *self {
            NotificationPolicy::All => true,
            NotificationPolicy::LessUpdated => node_state_mutable < node_state_reference,
            NotificationPolicy::MoreUpdated => node_state_mutable > node_state_reference,
            NotificationPolicy::EquallyUpdated => node_state_mutable == node_state_reference,
            NotificationPolicy::DifferentlyUpdated => node_state_mutable != node_state_reference,
            NotificationPolicy::EquallyOrLessUpdated => node_state_mutable
                <= node_state_reference,
            NotificationPolicy::EquallyOrMoreUpdated => node_state_mutable
                >= node_state_reference,
        }
    }

    /// Whether a node whose counter is `node_state_reference` should notify a
    /// node whose counter is `node_state_mutable` under this policy.
    #[verifier::when_used_as_spec(spec_should_notify)]
    pub fn should_notify(&self, node_state_reference: u64, node_state_mutable: u64) -> (r: bool)
        ensures
            r == self.spec_should_notify(node_state_reference, node_state_mutable),
    {
        match *self {
            NotificationPolicy::All => true,
            NotificationPolicy::LessUpdated => node_state_mutable < node_state_reference,
            NotificationPolicy::MoreUpdated => node_state_mutable > node_state_reference,
            NotificationPolicy::EquallyUpdated => node_state_mutable == node_state_reference,
            NotificationPolicy::DifferentlyUpdated => node_state_mutable != node_state_reference,
            NotificationPolicy::EquallyOrLessUpdated => node_state_mutable
                <= node_state_reference,
            NotificationPolicy::EquallyOrMoreUpdated => node_state_mutable
                >= node_state_reference,
        }
    }
}

/// The two failures of edge bookkeeping: adding an edge that is already
/// present, and removing one that is not.
#[derive(Clone, Copy, Debug, PartialEq, Eq, Structural)]
pub enum NodeError {
    /// An edge to the given endpoint is already present.
    AlreadyExists,
    /// No edge to the given endpoint is present.
    DoesNotExist,
}

impl NodeError {
    /// The error's description, as the sequence of characters that
    /// [`NodeError::message`] returns.
    pub open spec fn spec_message(&self) -> Seq<char> {
        match *self {
            NodeError::AlreadyExists => "Already exists!"@,
            NodeError::DoesNotExist => "Does not exist!"@,
        }
    }

    /// A human-readable description of the error.
    pub fn message(&self) -> (r: String)
        ensures
            r@ == self.spec_message(),
    {
        broadcast use vstd::string::group_string_axioms;

        match *self {
            NodeError::AlreadyExists => "Already exists!".to_string(),
            NodeError::DoesNotExist => "Does not exist!".to_string(),
        }
    }
}

/// The sum of `a` and `b`, clamped to the payload range.
pub open spec fn spec_saturating_add(a: i64, b: i64) -> i64 {
    if a + b > i64::MAX {
        i64::MAX
    } else if a + b < i64::MIN {
        i64::MIN
    } else {
        (a + b) as i64
    }
}

/// A transform carried by an edge. When the edge fires, the transform is given
/// the reference node's payload and the mutable node's payload; it yields the
/// mutable node's new payload and reports whether that node should be
/// considered changed (a report of `true` propagates further).
#[derive(Clone, Copy, Debug, PartialEq, Eq, Structural)]
pub enum Transform {
    /// The mutable payload becomes the reference payload; reports a change.
    CopyFrom,
    /// The reference payload is added to the mutable payload, saturating at
    /// the ends of the payload range; reports a change.
    AddFrom,
    /// The mutable payload stays as it is; reports no change.
    Keep,
}

impl Transform {
    /// The mutable node's new payload, and the change report, for the given
    /// reference and mutable payloads.
    pub open spec fn spec_apply(&self, reference: i64, mutable: i64) -> (i64, bool) {
        match *self {
            Transform::CopyFrom => (reference, true),
            Transform::AddFrom => (spec_saturating_add(mutable, reference), true),
            Transform::Keep => (mutable, false),
        }
    }

    /// Applies the transform to the two payloads; returns the mutable node's
    /// new payload and whether that node counts as changed.
    pub fn apply(&self, reference: i64, mutable: i64) -> (r: (i64, bool))
        ensures
            r == self.spec_apply(reference, mutable),
    {
        match *self {
            Transform::CopyFrom => (reference, true),
            Transform::AddFrom => {
                let sum: i64 = match mutable.checked_add(reference) {
                    Some(v) => v,
                    None => if reference > 0 {
                        i64::MAX
                    } else {
                        i64::MIN
                    },
                };
                (sum, true)
            },
            Transform::Keep => (mutable, false),
        }
    }
}

} // verus!
