//! A small reactive-state-graph primitive.
//!
//! Independently created nodes, each wrapping one payload value, live in a
//! [`node::Graph`] and are wired into a directed graph of dependency edges, so
//! that updating one node can propagate updates to others. Two edge kinds
//! exist: push-style notification edges ([`notification::Notification`]),
//! which fire eagerly whenever the reference node broadcasts, and pull-style
//! observation edges ([`observation::Observation`]), which fire only when
//! their owning node is explicitly polled. A version counter per node drives
//! both, and a [`util::NotificationPolicy`] predicate over version counters
//! governs whether a notification edge fires.
//!
//! Nodes are addressed by stable indices into the graph, and edges store
//! indices, so edge bookkeeping is decoupled from payload equality. Edge
//! transforms are values of the tagged [`util::Transform`] type, dispatched by
//! the edges, preserving the `(reference, &mut mutable) -> changed` contract.
//! Push propagation is depth-first, synchronous, and bounded by an explicit
//! propagation depth; the exact effect of every operation is stated by the
//! specification functions in [`propagation`].

pub mod laws;
pub mod node;
pub mod notification;
pub mod observation;
pub mod propagation;
pub mod util;
