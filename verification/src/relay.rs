//! Per-iteration decisions of the byte relay loops. The caller owns the
//! sockets: it reads a chunk, asks what to do with it, and either forwards
//! the bytes unchanged or half-closes the peer's write side. One direction
//! finishing never tears the other down.

use vstd::prelude::*;

verus! {

/// What a relay loop does after one read.
#[derive(Clone, Copy, Debug, PartialEq, Eq, Structural)]
pub enum RelayAction {
    /// Bytes arrived: write them to the peer, in order and unchanged.
    Forward,
    /// The source reported end of stream: half-close the peer's write side
    /// and end this direction only.
    HalfClose,
}

/// Decides one relay iteration from the number of bytes a read returned:
/// data is forwarded, a zero-length read closes this direction.
pub fn relay_decision(bytes_recv: usize) -> (r: RelayAction)
    ensures
        r == (if bytes_recv > 0 {
            RelayAction::Forward
        } else {
            RelayAction::HalfClose
        }),
{
    if bytes_recv > 0 {
        RelayAction::Forward
    } else {
        RelayAction::HalfClose
    }
}

} // verus!
