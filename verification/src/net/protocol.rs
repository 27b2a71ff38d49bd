use vstd::prelude::*;

use crate::controls::ControlState;

verus! {

/// The largest datagram the host and the controllers read.
pub const MAX_PACKET_SIZE: usize = 2048;

/// A message from a remote controller to the game host.
#[derive(Debug)]
pub enum ClientPacket {
    /// Asks for a player slot, preferably `desired_slot`.
    Join { desired_slot: Option<u8>, name: String },
    /// The controller's input for its slot in this frame.
    Input { slot: u8, state: ControlState },
}

/// A reply from the game host to a remote controller.
#[derive(Debug)]
pub enum ServerPacket {
    /// The controller now drives `slot` of `total_slots`.
    Ack { slot: u8, total_slots: u8 },
    /// The join was refused, for `reason`.
    Reject { reason: String },
}

} // verus!
