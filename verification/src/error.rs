use vstd::prelude::*;

verus! {

/// Error type for rollback failures.
///
/// Each variant documents a specific rollback failure mode.
#[derive(Debug, Clone, Copy, PartialEq, Eq, Structural)]
pub enum RollbackError {
    /// The received input frame is older than the confirmed frame and can no longer be processed.
    InputTooOld { frame: u32, confirmed_frame: u32 },
    /// The player ID is out of range for the session's player count.
    InvalidPlayerId { player_id: usize, player_count: usize },
    /// The number of frames to roll back exceeds the maximum allowed value.
    RollbackTooFar { needed: u32, max: u32 },
    /// No snapshot is kept for the frame that a rollback needs.
    SnapshotNotFound { frame: u32 },
    /// Checksum mismatch between the local confirmed state and a remote peer.
    OutOfSync { frame: u32, local: u64, remote: u64 },
}

} // verus!
