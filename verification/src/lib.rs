//! Verified engine of a command-line client for a remote hierarchical
//! namespace (nodes addressed by slash-delimited paths, each holding a byte
//! payload, a child count, and ephemeral/persistent lifetime semantics).
//!
//! The engine covers path normalization, deterministic listing, recursive
//! tree walking and deletion (as event-driven state machines: the caller
//! performs the remote calls and feeds the outcomes back), creation-mode
//! resolution, and entry rendering. All remote I/O lives outside this crate.

pub mod client;
pub mod commands;
pub mod deleter;
pub mod modes;
pub mod node;
pub mod order;
pub mod paths;
pub mod render;
pub mod walker;
