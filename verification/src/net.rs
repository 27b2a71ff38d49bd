//! What the game host and the remote controllers exchange, and the host's
//! table of remote input slots.

pub mod protocol;
pub mod host;
