//! Network packet definitions.
//!
//! Each UDP packet carries:
//! - The sender's current frame number
//! - A contiguous sequence of inputs starting from a given frame (sent redundantly to combat
//!   packet loss)
//! - The sender's confirmed frame and checksum (used for out-of-sync detection)
use vstd::prelude::*;

verus! {

/// Network packet type.
#[derive(Debug, Clone)]
pub enum PacketKind<I> {
    /// Input packet: carries several frames of input starting from `start_frame`.
    Input {
        /// The sender's player ID.
        player_id: usize,
        /// Frame number of the first input in the batch.
        start_frame: u32,
        /// Contiguous inputs starting from `start_frame` (includes redundant frames).
        inputs: Vec<I>,
    },
    /// Heartbeat / Ping packet: used for RTT measurement.
    Ping {
        /// Local timestamp at send time (milliseconds).
        timestamp_ms: u64,
    },
    /// Pong packet: reply to a Ping.
    Pong {
        /// Timestamp echoed from the original Ping.
        echo_timestamp_ms: u64,
    },
    /// Checksum sync packet.
    Checksum {
        /// The confirmed frame this checksum corresponds to.
        frame: u32,
        /// Checksum of that frame's state.
        checksum: u64,
    },
}

/// Complete network packet (includes the sender's current frame number).
#[derive(Debug, Clone)]
pub struct NetworkPacket<I> {
    /// The frame the sender has simulated up to (used to estimate the peer's latency).
    pub sender_frame: u32,
    /// Packet payload.
    pub kind: PacketKind<I>,
}

} // verus!
