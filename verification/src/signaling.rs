//! Types of the peer-signaling stub server.

use vstd::prelude::*;

verus! {

/// A file as the signaling side describes it.
#[derive(Clone, Debug)]
pub struct FileEntry {
    pub name: String,
    pub size: u64,
    pub path: Option<String>,
}

/// The signaling view of a transfer's state.
#[derive(Clone, Debug)]
pub enum TransferStatus {
    Pending,
    InProgress { bytes_sent: u64, total: u64 },
    Completed,
    Failed { error: String },
}

/// Whether the signaling connection is up.
#[derive(Clone, Copy, Debug, PartialEq, Eq, Structural)]
pub struct SignalingStatus {
    pub connected: bool,
}

} // verus!
