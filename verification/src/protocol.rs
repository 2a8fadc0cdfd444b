//! The protocol capability contract: the uniform interface every wire
//! protocol recognizer offers the dispatcher. A recognizer examines a
//! possibly-incomplete byte prefix, asks for more bytes while undecided,
//! accumulates the stream, and finally produces the canonical
//! destination-tagged packet.

use vstd::prelude::*;
use crate::types::{Host, SniffError, TranslucentPacket};

pub mod http;
pub mod tls;

verus! {

/// Verdict of a recognizer on a buffered prefix.
#[derive(Clone, Copy, Debug, PartialEq, Eq, Structural)]
pub enum Detection {
    /// The prefix is a head of this protocol; the dispatcher may commit.
    Recognized,
    /// Hard, final rejection of this stream for this recognizer.
    NotThisProtocol,
    /// Undecided: the dispatcher should read more bytes and ask again.
    NeedMoreBytes,
}

/// A protocol that the relay can process. A recognizer holds the bytes seen
/// so far and re-scans them from the start as more arrive; its three spec
/// functions pin down, per protocol, the detection verdict on any prefix,
/// how many more bytes are needed, and the destination the buffered head
/// resolves to.
pub trait SupportedProtocol: Sized {
    /// Detection verdict of this protocol on a buffered prefix.
    spec fn spec_detect(prefix: Seq<u8>) -> Detection;

    /// `None` when the total head size cannot be predicted yet; `Some(0)`
    /// when the buffered head is complete; `Some(n)` when exactly `n` more
    /// bytes are required.
    spec fn spec_remaining(buf: Seq<u8>) -> Option<nat>;

    /// Destination (hostname bytes and port) the buffered head resolves to,
    /// or the terminal rejection it earns.
    spec fn spec_finalize(buf: Seq<u8>) -> Result<(Seq<u8>, u16), SniffError>;

    /// All bytes this recognizer has accumulated so far.
    spec fn buffered(&self) -> Seq<u8>;

    /// Determines if the head of a packet is a valid head of this protocol;
    /// if so, returns a recognizer holding the bytes seen so far.
    fn from_packet(partial_packet: &[u8]) -> (r: Option<Self>)
        ensures
            match r {
                Some(h) => Self::spec_detect(partial_packet@) == Detection::Recognized
                    && h.buffered() == partial_packet@,
                None => Self::spec_detect(partial_packet@) != Detection::Recognized,
            },
    ;

    /// Appends newly read bytes to the accumulation buffer; nothing already
    /// buffered is ever dropped.
    fn extend(&mut self, data: &[u8])
        ensures
            final(self).buffered() == old(self).buffered() + data@,
    ;

    /// Exact number of bytes still missing from the current head, when the
    /// protocol can predict it.
    fn exact_size(&self) -> (r: Option<usize>)
        ensures
            match (r, Self::spec_remaining(self.buffered())) {
                (Some(n), Some(m)) => n as nat == m,
                (None, None) => true,
                _ => false,
            },
    ;

    /// Consumes the buffered head into the canonical packet: the resolved
    /// destination plus, as payload, every byte consumed while sniffing.
    fn wrap(&self) -> (r: Result<TranslucentPacket, SniffError>)
        ensures
            match r {
                Ok(p) => {
                    &&& Self::spec_finalize(self.buffered()) matches Ok((h, port)) && p.host
                        matches Host::Hostname(name) && name@ == h && p.port == port
                    &&& p.payload@ == self.buffered()
                },
                Err(e) => Self::spec_finalize(self.buffered()) == Err::<(Seq<u8>, u16), _>(e),
            },
    ;
}

} // verus!
