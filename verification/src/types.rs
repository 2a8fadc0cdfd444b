//! Core data model: destination hosts, the canonical destination-tagged
//! packet, error values, and the typed TLS record layer.

use vstd::prelude::*;
use crate::bytes::bytes_eq;
use crate::codec::TLSVector;

verus! {

/// A general connection error: the peer broke the expected handshake.
#[derive(Clone, Copy, Debug, PartialEq, Eq, Structural)]
pub struct ConnectionError;

/// Received data cannot be parsed as a packet of any supported protocol.
#[derive(Clone, Copy, Debug, PartialEq, Eq, Structural)]
pub struct ParseError;

/// All other errors.
#[derive(Clone, Copy, Debug, PartialEq, Eq, Structural)]
pub struct UnknownError;

/// Terminal rejection reasons of the sniffing engine.
#[derive(Clone, Copy, Debug, PartialEq, Eq, Structural)]
pub enum SniffError {
    /// No recognizer matched, or the read cap was exceeded.
    UnsupportedProtocol,
    /// A recognizer began matching but the bytes violate the wire format.
    MalformedData,
    /// An HTTP head carried no `Host:` header to resolve a destination from.
    MissingHostHeader,
    /// A TLS ClientHello carried no server-name extension.
    NoServerNameExtension,
}

/// Two forms of target address.
#[derive(Clone, Debug)]
pub enum Host {
    Ipv4([u8; 4]),
    Hostname(Vec<u8>),
}

impl PartialEq for Host {
    fn eq(&self, other: &Host) -> (r: bool) {
        match (self, other) {
            (Host::Ipv4(a), Host::Ipv4(b)) => {
                let same = a[0] == b[0] && a[1] == b[1] && a[2] == b[2] && a[3] == b[3];
                proof {
                    if same {
                        assert(a@ =~= b@);
                    }
                }
                same
            },
            (Host::Hostname(a), Host::Hostname(b)) => bytes_eq(a.as_slice(), b.as_slice()),
            _ => false,
        }
    }
}

impl vstd::std_specs::cmp::PartialEqSpecImpl for Host {
    open spec fn obeys_eq_spec() -> bool {
        true
    }

    open spec fn eq_spec(&self, other: &Host) -> bool {
        match (self, other) {
            (Host::Ipv4(a), Host::Ipv4(b)) => a@ == b@,
            (Host::Hostname(a), Host::Hostname(b)) => a@ == b@,
            _ => false,
        }
    }
}

/// The canonical destination-tagged record produced once per accepted
/// connection: where to dial, and the already-consumed bytes that must be
/// replayed to the outbound side before any further relaying.
pub struct TranslucentPacket {
    pub host: Host,
    pub port: u16,
    pub payload: Vec<u8>,
}

/// TLS protocol versions the record layer distinguishes.
#[derive(Clone, Copy, Debug, PartialEq, Eq, Structural)]
pub enum TLSVersion {
    Tls12,
    Unknown,
}

/// The version two wire bytes stand for; only 3.3 is distinguished.
pub open spec fn spec_version_of(major: u8, minor: u8) -> TLSVersion {
    if major == 3u8 && minor == 3u8 {
        TLSVersion::Tls12
    } else {
        TLSVersion::Unknown
    }
}

impl TLSVersion {
    /// Reads a two-byte protocol version field.
    pub fn from_bytes(major: u8, minor: u8) -> (r: TLSVersion)
        ensures
            r == spec_version_of(major, minor),
    {
        if major == 3 && minor == 3 {
            TLSVersion::Tls12
        } else {
            TLSVersion::Unknown
        }
    }
}

/// Handshake message types of the TLS handshake protocol.
#[derive(Clone, Copy, Debug, PartialEq, Eq, Structural)]
pub enum TLSHandshakeType {
    HelloRequest,
    ClientHello,
    ServerHello,
    Certificate,
    ServerKeyExchange,
    CertificateRequest,
    ServerHelloDone,
    CertificateVerify,
    ClientKeyExchange,
    Finished,
    Unknown,
}

/// The handshake type a wire byte stands for.
pub open spec fn spec_handshake_type_of(b: u8) -> TLSHandshakeType {
    if b == 0u8 {
        TLSHandshakeType::HelloRequest
    } else if b == 1u8 {
        TLSHandshakeType::ClientHello
    } else if b == 2u8 {
        TLSHandshakeType::ServerHello
    } else if b == 11u8 {
        TLSHandshakeType::Certificate
    } else if b == 12u8 {
        TLSHandshakeType::ServerKeyExchange
    } else if b == 13u8 {
        TLSHandshakeType::CertificateRequest
    } else if b == 14u8 {
        TLSHandshakeType::ServerHelloDone
    } else if b == 15u8 {
        TLSHandshakeType::CertificateVerify
    } else if b == 16u8 {
        TLSHandshakeType::ClientKeyExchange
    } else if b == 20u8 {
        TLSHandshakeType::Finished
    } else {
        TLSHandshakeType::Unknown
    }
}

impl TLSHandshakeType {
    /// Reads the one-byte handshake message type.
    pub fn from_byte(b: u8) -> (r: TLSHandshakeType)
        ensures
            r == spec_handshake_type_of(b),
    {
        if b == 0 {
            TLSHandshakeType::HelloRequest
        } else if b == 1 {
            TLSHandshakeType::ClientHello
        } else if b == 2 {
            TLSHandshakeType::ServerHello
        } else if b == 11 {
            TLSHandshakeType::Certificate
        } else if b == 12 {
            TLSHandshakeType::ServerKeyExchange
        } else if b == 13 {
            TLSHandshakeType::CertificateRequest
        } else if b == 14 {
            TLSHandshakeType::ServerHelloDone
        } else if b == 15 {
            TLSHandshakeType::CertificateVerify
        } else if b == 16 {
            TLSHandshakeType::ClientKeyExchange
        } else if b == 20 {
            TLSHandshakeType::Finished
        } else {
            TLSHandshakeType::Unknown
        }
    }
}

/// Content types of the TLS record layer.
#[derive(Clone, Copy, Debug, PartialEq, Eq, Structural)]
pub enum TLSContentType {
    ChangeCipherSpec,
    Alert,
    Handshake,
    ApplicationData,
    Unknown,
}

/// The record content type a wire byte stands for.
pub open spec fn spec_content_type_of(b: u8) -> TLSContentType {
    if b == 20u8 {
        TLSContentType::ChangeCipherSpec
    } else if b == 21u8 {
        TLSContentType::Alert
    } else if b == 22u8 {
        TLSContentType::Handshake
    } else if b == 23u8 {
        TLSContentType::ApplicationData
    } else {
        TLSContentType::Unknown
    }
}

impl TLSContentType {
    /// Reads the one-byte record content type.
    pub fn from_byte(b: u8) -> (r: TLSContentType)
        ensures
            r == spec_content_type_of(b),
    {
        if b == 20 {
            TLSContentType::ChangeCipherSpec
        } else if b == 21 {
            TLSContentType::Alert
        } else if b == 22 {
            TLSContentType::Handshake
        } else if b == 23 {
            TLSContentType::ApplicationData
        } else {
            TLSContentType::Unknown
        }
    }
}

/// One handshake-protocol message carried inside a record's fragment.
pub struct TLSHandshake {
    pub msg_type: TLSHandshakeType,
    /// 24-bit body length as carried on the wire.
    pub length: u32,
    pub body: Vec<u8>,
}

/// One record of the TLS record layer.
pub struct TLSPlainText {
    pub content_type: TLSContentType,
    pub protocol_version: TLSVersion,
    pub length: u16,
    pub fragment: Vec<u8>,
}

/// The 32-byte ClientHello random field: a 4-byte timestamp and 28 opaque bytes.
pub struct TLSRandom {
    pub gmt_unix_time: u32,
    pub random_bytes: Vec<u8>,
}

/// Compression methods a ClientHello may offer.
#[derive(Clone, Copy, Debug, PartialEq, Eq, Structural)]
pub enum TLSCompressionMethod {
    Null,
    Unknown,
}

/// One cipher suite code point: two wire bytes, big-endian.
#[derive(Clone, Copy, Debug, PartialEq, Eq, Structural)]
pub struct TLSCipherSuite {
    pub code: u16,
}

/// One entry of the ClientHello extensions vector: a type code and its
/// opaque, variable-length body.
pub struct TLSExtension {
    pub extension_type: u16,
    pub data: Vec<u8>,
}

/// A decoded ClientHello handshake message.
pub struct TLSClientHelloMessage {
    pub client_version: TLSVersion,
    pub random: TLSRandom,
    pub session_id: TLSVector<u8>,
    pub cipher_suites: TLSVector<TLSCipherSuite>,
    pub compression_methods: TLSVector<TLSCompressionMethod>,
    pub extensions: Vec<TLSExtension>,
}

} // verus!
