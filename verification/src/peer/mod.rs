//! Sessions with peers.
use vstd::prelude::*;

pub mod blocks;
pub mod connection;
pub mod dialogue;
pub mod direct;
pub mod handshake;
pub mod history;
pub mod message;
#[allow(clippy::module_inception)]
pub mod peer;
pub mod pieces;
pub mod pool;
pub mod relay;
pub mod requests;
pub mod state;
pub mod writing;

verus! {

/// What has happened to a block of a piece.
#[derive(Clone, Copy, Debug, PartialEq, Eq, Structural)]
pub enum BlockState {
    /// Not asked for yet.
    UnRequested,
    /// Asked for, not received yet.
    Requested,
    /// Received.
    Completed,
}

} // verus!
