//! What the connection's writer task is asked to do.
use vstd::prelude::*;

verus! {

/// A request to the task that owns the connection's write half.
pub enum PacketWriterMessage {
    /// Compress packets of at least this many bytes from now on; -1 stops
    /// compression.
    SetCompression(i32),
    /// Send a packet with this id and body.
    Write(i32, Vec<u8>),
}

} // verus!
