//! Outcomes of the remote calls the engine asks its caller to perform.
//!
//! The engine never talks to the store itself: it emits an action, the
//! caller performs the remote call and feeds one of these outcomes back.
//! `Absent` stands for the store's "no such node" answer, which the engine
//! must treat as an expected race, not a crash; `Failed` stands for every
//! other error, which ends the operation in progress.

use crate::node::NodeStat;
use vstd::prelude::*;

verus! {

/// Outcome of a list-children call.
#[derive(Debug)]
pub enum ListOutcome {
    /// The node's children, in whatever order the store enumerated them.
    Names(Vec<String>),
    /// The node does not exist.
    Absent,
    /// Any other failure.
    Failed,
}

/// Outcome of a stat call.
#[derive(Debug, Clone, Copy, PartialEq, Eq, Structural)]
pub enum StatOutcome {
    /// The node exists and had this metadata.
    Present(NodeStat),
    /// The node does not exist.
    Absent,
    /// Any other failure.
    Failed,
}

/// Outcome of a delete call.
#[derive(Debug, Clone, Copy, PartialEq, Eq, Structural)]
pub enum DeleteOutcome {
    /// The node was deleted.
    Deleted,
    /// The node was already gone.
    Absent,
    /// Any other failure.
    Failed,
}

/// Outcome of an update of an existing node's payload.
#[derive(Debug, Clone, Copy, PartialEq, Eq, Structural)]
pub enum UpdateOutcome {
    /// The payload was written.
    Updated,
    /// The node does not exist.
    Absent,
    /// Any other failure.
    Failed,
}

} // verus!
