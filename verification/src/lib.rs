//! Protocol-sniffing target extraction for a transparent TCP relay.
//!
//! A remote relay receives a raw byte stream with no explicit destination
//! framing. This library recovers the intended destination host and port by
//! inspecting the leading bytes of the stream: an HTTP/1.1 request head is
//! resolved through its `Host:` header, a TLS ClientHello through its SNI
//! extension. It also provides the TLS length-prefixed vector codec those
//! recognizers are built on, the SOCKS5 local-agent handshake state machine,
//! and the per-step decisions of the byte relay loops. All I/O stays with the
//! callers; every function here is a pure computation over byte buffers.

pub mod bytes;
pub mod bytes_formatter;
pub mod codec;
pub mod protocol;
pub mod relay;
pub mod serializer;
pub mod socks5;
pub mod types;

use vstd::prelude::*;

verus! {

/// Upper bound on the bytes a sniffer may accumulate before giving up on a
/// stream whose head never resolves.
pub const DEFAULT_READ_CAP: usize = 8192;

} // verus!
