//! A BitTorrent client library: message framing, piece bookkeeping, tracker exchanges and the
//! decisions of a peer session, as verified functions over plain values.
use vstd::prelude::*;

pub mod address;
pub mod bits;
pub mod buffer;
pub mod config;
pub mod digest;
pub mod download;
pub mod layout;
pub mod message;
pub mod parsing;
pub mod paths;
pub mod peer;
pub mod ports;
mod random;
pub mod storage;
pub mod text;
pub mod torrent;
pub mod tracker;
pub mod wire;

verus! {

/// What the tasks of a download tell each other.
#[derive(Copy, Clone, Debug, PartialEq, Eq, Structural)]
pub enum ThreadUpdate {
    /// The block with the given piece and index in it has been written to its file. A session with a
    /// peer says so; the download then looks whether the piece is complete.
    Downloaded(u32, u32),
    /// The piece has been read back, and its hash is the one that the torrent gives.
    Completed(u32),
    /// Every piece is complete, so requests that are still open can be taken back.
    FileComplete,
    /// The session with a peer is over.
    Disconnect,
}

/// Why no update could be taken from a channel.
#[derive(Copy, Clone, Debug, PartialEq, Eq, Structural)]
pub enum RecvError {
    /// Nobody can send any more.
    Closed,
    /// The receiver was too slow, and this many updates are lost.
    Lagged(u64),
}

} // verus!
