//! The stateless dispatcher: runs every registered recognizer over the bytes
//! accumulated so far, in a fixed priority order (HTTP before TLS), and turns
//! the stream head into a canonical destination-tagged packet, a request for
//! more bytes, or a terminal rejection. It holds no state of its own: each
//! pass re-scans the buffer from the start.

use vstd::prelude::*;
use crate::protocol::http::{
    headers_complete, lemma_find_host_stable, lemma_headers_complete_stable,
    lemma_http_detect_stable, request_head_split, spec_http_detect, spec_http_finalize,
    HttpProtocol,
};
use crate::protocol::tls::{
    lemma_tls_detect_stable, lemma_tls_finalize_stable, record_complete, spec_tls_detect,
    spec_tls_finalize, TlsProtocol,
};
use crate::protocol::{Detection, SupportedProtocol};
use crate::types::{Host, ParseError, SniffError, TranslucentPacket};

verus! {

/// What one dispatcher pass over the buffer concluded, without the packet
/// itself: which recognizer resolved the stream, or why it cannot yet.
#[derive(Clone, Copy, Debug, PartialEq, Eq, Structural)]
pub enum SniffKind {
    NeedMore,
    ResolvedHttp,
    ResolvedTls,
    Rejected(SniffError),
}

/// Result of one dispatcher pass over the accumulated buffer.
pub enum SniffStatus {
    /// Read more bytes and run the pass again.
    NeedMore,
    /// A recognizer resolved the stream into a canonical packet.
    Packet(TranslucentPacket),
    /// Terminal rejection for this connection.
    Rejected(SniffError),
}

/// The dispatcher's verdict on a buffer of `v` accumulated bytes under a
/// read cap: past the cap the connection is rejected outright; otherwise the
/// first recognizer in priority order to report `Recognized` owns the
/// stream, a unanimous `NotThisProtocol` rejects it, and anything else asks
/// for more bytes.
pub open spec fn spec_sniff_kind(v: Seq<u8>, cap: nat) -> SniffKind {
    if v.len() > cap {
        SniffKind::Rejected(SniffError::UnsupportedProtocol)
    } else if spec_http_detect(v) == Detection::Recognized {
        if headers_complete(v) {
            match spec_http_finalize(v) {
                Ok(_) => SniffKind::ResolvedHttp,
                Err(e) => SniffKind::Rejected(e),
            }
        } else {
            SniffKind::NeedMore
        }
    } else if spec_tls_detect(v) == Detection::Recognized {
        if record_complete(v) {
            match spec_tls_finalize(v) {
                Ok(_) => SniffKind::ResolvedTls,
                Err(e) => SniffKind::Rejected(e),
            }
        } else {
            SniffKind::NeedMore
        }
    } else if spec_http_detect(v) == Detection::NotThisProtocol && spec_tls_detect(v)
        == Detection::NotThisProtocol {
        SniffKind::Rejected(SniffError::UnsupportedProtocol)
    } else {
        SniffKind::NeedMore
    }
}

/// The hostname a resolved buffer names.
pub open spec fn spec_sniff_host(v: Seq<u8>, cap: nat) -> Seq<u8> {
    if spec_sniff_kind(v, cap) == SniffKind::ResolvedHttp {
        spec_http_finalize(v)->Ok_0.0
    } else {
        spec_tls_finalize(v)->Ok_0.0
    }
}

/// The port a resolved buffer names: the recognizer's documented default.
pub open spec fn spec_sniff_port(v: Seq<u8>, cap: nat) -> u16 {
    if spec_sniff_kind(v, cap) == SniffKind::ResolvedHttp {
        spec_http_finalize(v)->Ok_0.1
    } else {
        spec_tls_finalize(v)->Ok_0.1
    }
}

/// The stateless dispatch/serializer: turns byte buffers into canonical
/// packets and back.
pub struct StatelessSerializer;

impl StatelessSerializer {
    /// One dispatcher pass over the bytes accumulated so far. The caller
    /// reads more bytes and calls again on `NeedMore`; a returned packet
    /// carries the whole buffer as its replay payload.
    pub fn sniff_buffer(buffer: &[u8], cap: usize) -> (r: SniffStatus)
        ensures
            match r {
                SniffStatus::NeedMore => spec_sniff_kind(buffer@, cap as nat)
                    == SniffKind::NeedMore,
                SniffStatus::Packet(p) => {
                    &&& (spec_sniff_kind(buffer@, cap as nat) == SniffKind::ResolvedHttp
                        || spec_sniff_kind(buffer@, cap as nat) == SniffKind::ResolvedTls)
                    &&& p.host matches Host::Hostname(name) && name@ == spec_sniff_host(
                        buffer@,
                        cap as nat,
                    )
                    &&& p.port == spec_sniff_port(buffer@, cap as nat)
                    &&& p.payload@ == buffer@
                },
                SniffStatus::Rejected(e) => spec_sniff_kind(buffer@, cap as nat)
                    == SniffKind::Rejected(e),
            },
    {
        if buffer.len() > cap {
            return SniffStatus::Rejected(SniffError::UnsupportedProtocol);
        }
        let http_verdict = HttpProtocol::detect(buffer);
        if matches!(http_verdict, Detection::Recognized) {
            let rec = match HttpProtocol::from_packet(buffer) {
                Some(rec) => rec,
                None => {
                    return SniffStatus::Rejected(SniffError::MalformedData);
                },
            };
            return match rec.exact_size() {
                Some(_) => match rec.wrap() {
                    Ok(p) => SniffStatus::Packet(p),
                    Err(e) => SniffStatus::Rejected(e),
                },
                None => SniffStatus::NeedMore,
            };
        }
        let tls_verdict = TlsProtocol::detect(buffer);
        if matches!(tls_verdict, Detection::Recognized) {
            let rec = match TlsProtocol::from_packet(buffer) {
                Some(rec) => rec,
                None => {
                    return SniffStatus::Rejected(SniffError::MalformedData);
                },
            };
            return match rec.exact_size() {
                Some(0) => match rec.wrap() {
                    Ok(p) => SniffStatus::Packet(p),
                    Err(e) => SniffStatus::Rejected(e),
                },
                _ => SniffStatus::NeedMore,
            };
        }
        if matches!(http_verdict, Detection::NotThisProtocol) && matches!(
            tls_verdict,
            Detection::NotThisProtocol,
        ) {
            SniffStatus::Rejected(SniffError::UnsupportedProtocol)
        } else {
            SniffStatus::NeedMore
        }
    }

    /// Wire form of a canonical packet: the bytes to hand the outbound side,
    /// which are exactly the consumed head held for replay.
    pub fn serialize(packet: &TranslucentPacket) -> (r: Option<Vec<u8>>)
        ensures
            match r {
                Some(b) => b@ == packet.payload@,
                None => false,
            },
    {
        Some(vstd::slice::slice_to_vec(packet.payload.as_slice()))
    }

    /// One-shot deserialization of a complete buffer: the canonical packet
    /// its head resolves to, or a parse error if the buffer does not hold a
    /// complete, resolvable head.
    pub fn deserialize(packet: &[u8]) -> (r: Result<TranslucentPacket, ParseError>)
        ensures
            match r {
                Ok(p) => {
                    &&& (spec_sniff_kind(packet@, packet@.len()) == SniffKind::ResolvedHttp
                        || spec_sniff_kind(packet@, packet@.len()) == SniffKind::ResolvedTls)
                    &&& p.host matches Host::Hostname(name) && name@ == spec_sniff_host(
                        packet@,
                        packet@.len(),
                    )
                    &&& p.port == spec_sniff_port(packet@, packet@.len())
                    &&& p.payload@ == packet@
                },
                Err(e) => {
                    &&& spec_sniff_kind(packet@, packet@.len()) != SniffKind::ResolvedHttp
                    &&& spec_sniff_kind(packet@, packet@.len()) != SniffKind::ResolvedTls
                    &&& e == ParseError
                },
            },
    {
        match Self::sniff_buffer(packet, packet.len()) {
            SniffStatus::Packet(p) => Ok(p),
            _ => Err(ParseError),
        }
    }
}

/// Priority determinism: a buffer the TLS recognizer accepts can never look
/// like HTTP — once its first line is complete, the HTTP recognizer reports
/// a hard `NotThisProtocol`, not `NeedMoreBytes`.
pub proof fn lemma_priority_determinism(v: Seq<u8>)
    requires
        spec_tls_detect(v) == Detection::Recognized,
        crate::bytes::first_crlf(v) is Some,
    ensures
        spec_http_detect(v) == Detection::NotThisProtocol,
{
    crate::bytes::lemma_first_crlf_spec(v);
    let i = crate::bytes::first_crlf(v)->Some_0;
    let line = v.take(i);
    if crate::protocol::http::is_request_head_line(line) {
        let (a, b) = choose|a: int, b: int| request_head_split(line, a, b);
        assert(line.take(a).len() == a);
        assert(line.take(a)[0] == v[0]);
        assert(v[0] == 22u8);
        assert(false);
    }
}

/// Incremental equivalence: once a dispatcher pass reaches a decision, any
/// further bytes of the same stream (within the read cap) yield the same
/// decision and the same destination; only the replay payload grows.
pub proof fn lemma_sniff_incremental(v: Seq<u8>, ext: Seq<u8>, cap: nat)
    requires
        spec_sniff_kind(v, cap) != SniffKind::NeedMore,
        v.len() + ext.len() <= cap,
    ensures
        spec_sniff_kind(v + ext, cap) == spec_sniff_kind(v, cap),
        spec_sniff_kind(v, cap) == SniffKind::ResolvedHttp || spec_sniff_kind(v, cap)
            == SniffKind::ResolvedTls ==> spec_sniff_host(v + ext, cap) == spec_sniff_host(v, cap)
            && spec_sniff_port(v + ext, cap) == spec_sniff_port(v, cap),
{
    let w = v + ext;
    if spec_http_detect(v) == Detection::Recognized {
        lemma_http_detect_stable(v, ext);
        if headers_complete(v) {
            lemma_headers_complete_stable(v, ext);
            lemma_find_host_stable(v, ext);
        }
    } else if spec_tls_detect(v) == Detection::Recognized {
        lemma_tls_detect_stable(v, ext);
        if spec_http_detect(v) == Detection::NotThisProtocol {
            lemma_http_detect_stable(v, ext);
        } else {
            if spec_http_detect(w) == Detection::Recognized {
                assert(w[0] == v[0] && v[0] == 22u8);
                crate::bytes::lemma_first_crlf_spec(w);
                lemma_priority_determinism(w);
                assert(false);
            }
        }
        if record_complete(v) {
            lemma_tls_finalize_stable(v, ext);
        }
    } else {
        lemma_http_detect_stable(v, ext);
        lemma_tls_detect_stable(v, ext);
    }
}

/// A fully resolved destination always names an explicit, nonzero port: the
/// documented default of the recognizer that resolved it.
pub proof fn lemma_resolved_port_nonzero(v: Seq<u8>, cap: nat)
    requires
        spec_sniff_kind(v, cap) == SniffKind::ResolvedHttp || spec_sniff_kind(v, cap)
            == SniffKind::ResolvedTls,
    ensures
        spec_sniff_port(v, cap) != 0,
{
}

/// Replay completeness: a packet resolved from a sniffed prefix carries that
/// whole prefix as its payload, so replaying the payload and then forwarding
/// the bytes read afterwards reproduces the original client stream.
pub proof fn lemma_replay_completeness(stream: Seq<u8>, k: int, cap: nat)
    requires
        0 <= k <= stream.len(),
        spec_sniff_kind(stream.take(k), cap) == SniffKind::ResolvedHttp || spec_sniff_kind(
            stream.take(k),
            cap,
        ) == SniffKind::ResolvedTls,
    ensures
        stream.take(k) + stream.skip(k) == stream,
{
    assert(stream.take(k) + stream.skip(k) =~= stream);
}

} // verus!
