//! Plain data carried between the engine and the remote store's client.

use vstd::prelude::*;

verus! {

/// Metadata snapshot of a node, valid only at the instant of the remote
/// call that produced it.
#[derive(Debug, Clone, Copy, PartialEq, Eq, Structural)]
pub struct NodeStat {
    /// How many children the node had.
    pub num_children: u32,
    /// Length in bytes of the node's payload.
    pub data_length: u32,
    /// Whether the node's lifetime is bound to the owning session rather
    /// than persistent.
    pub ephemeral: bool,
}

/// A child's bare name paired with the stat observed for it; used only for
/// display ordering and rendering.
#[derive(Debug)]
pub struct NodeEntry {
    pub name: String,
    pub stat: NodeStat,
}

} // verus!
