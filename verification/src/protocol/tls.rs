//! The TLS recognizer: detects a TLS handshake record and resolves the
//! destination from the ClientHello's server-name (SNI) extension. A
//! ClientHello carries no port, so the documented policy is fixed: every TLS
//! destination resolves to port 443.

use vstd::prelude::*;
use vstd::slice::slice_to_vec;
use crate::bytes::{append_bytes, read_u16, read_u32, u16_at, u24_at, u32_at};
use crate::codec::{decoded_elements, decoded_length, lemma_prefix_len_small, vector_decodable, TLSVector};
use crate::protocol::{Detection, SupportedProtocol};
use crate::types::{
    Host, SniffError, TLSCipherSuite, TLSClientHelloMessage, TLSCompressionMethod, TLSExtension,
    TLSHandshake, TLSHandshakeType, TLSPlainText, TLSRandom, TLSVersion, TranslucentPacket,
    spec_content_type_of, spec_handshake_type_of, spec_version_of,
};

verus! {

/// The TLS detection verdict on a buffered prefix: undecided until the
/// five-byte record header is buffered, then decided by the content type.
pub open spec fn spec_tls_detect(v: Seq<u8>) -> Detection {
    if v.len() < 5 {
        Detection::NeedMoreBytes
    } else if v[0] == 22u8 {
        Detection::Recognized
    } else {
        Detection::NotThisProtocol
    }
}

/// The fragment length the record header declares.
pub open spec fn record_len(v: Seq<u8>) -> int {
    u16_at(v, 3)
}

/// The whole record declared by the header is buffered.
pub open spec fn record_complete(v: Seq<u8>) -> bool {
    v.len() >= 5 + record_len(v)
}

/// Bytes still missing: the record header names the fragment length, so the
/// TLS recognizer can always predict the remainder exactly.
pub open spec fn spec_tls_remaining(v: Seq<u8>) -> Option<nat> {
    if v.len() < 5 {
        Some((5 - v.len()) as nat)
    } else if v.len() < 5 + record_len(v) {
        Some((5 + record_len(v) - v.len()) as nat)
    } else {
        Some(0nat)
    }
}

/// Offset of the cipher-suites vector in a ClientHello body: fixed fields,
/// then the one-byte-prefixed session id.
pub open spec fn ch_cs_off(b: Seq<u8>) -> int {
    35 + decoded_length(b.skip(34), 32) as int
}

/// Offset of the compression-methods vector.
pub open spec fn ch_cm_off(b: Seq<u8>) -> int {
    ch_cs_off(b) + 2 + decoded_length(b.skip(ch_cs_off(b)), 65535) as int
}

/// Offset of the two-byte total length of the extensions block.
pub open spec fn ch_ext_off(b: Seq<u8>) -> int {
    ch_cm_off(b) + 1 + decoded_length(b.skip(ch_cm_off(b)), 255) as int
}

/// The raw bytes of the extensions block.
pub open spec fn ch_ext_data(b: Seq<u8>) -> Seq<u8> {
    b.subrange(ch_ext_off(b) + 2, ch_ext_off(b) + 2 + u16_at(b, ch_ext_off(b)))
}

/// The extensions block, split into `(type, body)` entries; `None` when a
/// nested length overruns the block.
pub open spec fn spec_extensions(d: Seq<u8>) -> Option<Seq<(u16, Seq<u8>)>>
    decreases d.len(),
{
    if d.len() == 0 {
        Some(Seq::empty())
    } else if d.len() < 4 {
        None
    } else if 4 + u16_at(d, 2) > d.len() {
        None
    } else {
        match spec_extensions(d.skip(4 + u16_at(d, 2))) {
            Some(r) => Some(
                seq![(u16_at(d, 0) as u16, d.subrange(4, 4 + u16_at(d, 2)))] + r,
            ),
            None => None,
        }
    }
}

/// A ClientHello body is structurally sound: the fixed fields fit, each
/// nested vector fits, and the extensions block splits cleanly.
pub open spec fn client_hello_ok(b: Seq<u8>) -> bool {
    &&& b.len() >= 34
    &&& vector_decodable::<u8>(b.skip(34), 32)
    &&& vector_decodable::<TLSCipherSuite>(b.skip(ch_cs_off(b)), 65535)
    &&& vector_decodable::<TLSCompressionMethod>(b.skip(ch_cm_off(b)), 255)
    &&& b.len() >= ch_ext_off(b) + 2
    &&& ch_ext_off(b) + 2 + u16_at(b, ch_ext_off(b)) <= b.len()
    &&& spec_extensions(ch_ext_data(b)) is Some
}

/// The host name inside a server-name extension body: a two-byte list
/// length, then the first entry, whose name type must be host-name.
pub open spec fn spec_sni_value(d: Seq<u8>) -> Result<Seq<u8>, SniffError> {
    if d.len() < 5 {
        Err(SniffError::MalformedData)
    } else if 2 + u16_at(d, 0) > d.len() {
        Err(SniffError::MalformedData)
    } else if d[2] != 0u8 {
        Err(SniffError::MalformedData)
    } else if u16_at(d, 0) < 3 + u16_at(d, 3) || 5 + u16_at(d, 3) > d.len() {
        Err(SniffError::MalformedData)
    } else {
        Ok(d.subrange(5, 5 + u16_at(d, 3)))
    }
}

/// The first server-name extension decides the destination; with none
/// present the stream is rejected.
pub open spec fn spec_find_sni(exts: Seq<(u16, Seq<u8>)>) -> Result<Seq<u8>, SniffError>
    decreases exts.len(),
{
    if exts.len() == 0 {
        Err(SniffError::NoServerNameExtension)
    } else if exts[0].0 == 0u16 {
        spec_sni_value(exts[0].1)
    } else {
        spec_find_sni(exts.drop_first())
    }
}

/// The `(type, body)` views of decoded extension entries.
pub open spec fn extension_views(exts: Seq<TLSExtension>) -> Seq<(u16, Seq<u8>)> {
    exts.map_values(|e: TLSExtension| (e.extension_type, e.data@))
}

/// The destination a buffered TLS head resolves to: the SNI host name and
/// port 443, or the terminal rejection the record earns.
pub open spec fn spec_tls_finalize(buf: Seq<u8>) -> Result<(Seq<u8>, u16), SniffError> {
    if spec_tls_detect(buf) != Detection::Recognized || !record_complete(buf) {
        Err(SniffError::MalformedData)
    } else {
        let f = buf.subrange(5, 5 + record_len(buf));
        if f.len() < 4 || f[0] != 1u8 || 4 + u24_at(f, 1) > f.len() {
            Err(SniffError::MalformedData)
        } else {
            let b = f.subrange(4, 4 + u24_at(f, 1));
            if !client_hello_ok(b) {
                Err(SniffError::MalformedData)
            } else {
                match spec_extensions(ch_ext_data(b)) {
                    Some(exts) => match spec_find_sni(exts) {
                        Ok(h) => Ok((h, 443u16)),
                        Err(e) => Err(e),
                    },
                    None => Err(SniffError::MalformedData),
                }
            }
        }
    }
}

/// Parses the record layer: content type, version, declared length, and the
/// fragment itself, which must be fully buffered.
pub fn parse_record(buf: &[u8]) -> (r: Result<TLSPlainText, SniffError>)
    ensures
        match r {
            Ok(rec) => {
                &&& spec_tls_detect(buf@) == Detection::Recognized
                &&& record_complete(buf@)
                &&& rec.content_type == spec_content_type_of(buf@[0])
                &&& rec.protocol_version == spec_version_of(buf@[1], buf@[2])
                &&& rec.length as int == record_len(buf@)
                &&& rec.fragment@ == buf@.subrange(5, 5 + record_len(buf@))
            },
            Err(e) => {
                &&& e == SniffError::MalformedData
                &&& (spec_tls_detect(buf@) != Detection::Recognized || !record_complete(buf@))
            },
        },
{
    let n = buf.len();
    if n < 5 || buf[0] != 22 {
        return Err(SniffError::MalformedData);
    }
    let length = read_u16(buf, 3);
    if n - 5 < length as usize {
        return Err(SniffError::MalformedData);
    }
    let fragment = slice_to_vec(&buf[5..5 + length as usize]);
    Ok(
        TLSPlainText {
            content_type: crate::types::TLSContentType::from_byte(buf[0]),
            protocol_version: TLSVersion::from_bytes(buf[1], buf[2]),
            length,
            fragment,
        },
    )
}

/// Parses one handshake message header: type byte, 24-bit body length, and
/// the body, which must fit the fragment.
pub fn parse_handshake(fragment: &[u8]) -> (r: Result<TLSHandshake, SniffError>)
    ensures
        match r {
            Ok(h) => {
                &&& fragment@.len() >= 4
                &&& 4 + u24_at(fragment@, 1) <= fragment@.len()
                &&& h.msg_type == spec_handshake_type_of(fragment@[0])
                &&& h.length as int == u24_at(fragment@, 1)
                &&& h.body@ == fragment@.subrange(4, 4 + u24_at(fragment@, 1))
            },
            Err(e) => {
                &&& e == SniffError::MalformedData
                &&& (fragment@.len() < 4 || 4 + u24_at(fragment@, 1) > fragment@.len())
            },
        },
{
    let n = fragment.len();
    if n < 4 {
        return Err(SniffError::MalformedData);
    }
    let length: u32 = (fragment[1] as u32) * 65536 + (fragment[2] as u32) * 256 + (
    fragment[3] as u32);
    if n - 4 < length as usize {
        return Err(SniffError::MalformedData);
    }
    let body = slice_to_vec(&fragment[4..4 + length as usize]);
    Ok(TLSHandshake { msg_type: TLSHandshakeType::from_byte(fragment[0]), length, body })
}

/// Splits the extensions block into its `(type, body)` entries.
fn parse_extensions(d: &[u8]) -> (r: Result<Vec<TLSExtension>, SniffError>)
    ensures
        match r {
            Ok(exts) => spec_extensions(d@) == Some(extension_views(exts@)),
            Err(e) => e == SniffError::MalformedData && spec_extensions(d@) is None,
        },
{
    let n = d.len();
    let mut exts: Vec<TLSExtension> = Vec::new();
    let mut c: usize = 0;
    proof {
        assert(d@.skip(0) =~= d@);
        assert(extension_views(exts@) =~= Seq::<(u16, Seq<u8>)>::empty());
    }
    loop
        invariant
            c <= n == d@.len(),
            spec_extensions(d@.skip(c as int)) is Some ==> spec_extensions(d@) == Some(
                extension_views(exts@) + spec_extensions(d@.skip(c as int))->Some_0,
            ),
            spec_extensions(d@.skip(c as int)) is None ==> spec_extensions(d@) is None,
        decreases n - c,
    {
        let ghost s = d@.skip(c as int);
        if n - c == 0 {
            proof {
                assert(s.len() == 0);
                assert(spec_extensions(s) == Some(Seq::<(u16, Seq<u8>)>::empty()));
                assert(extension_views(exts@) + Seq::<(u16, Seq<u8>)>::empty() =~= extension_views(
                    exts@,
                ));
            }
            return Ok(exts);
        }
        if n - c < 4 {
            proof {
                assert(spec_extensions(s) is None);
            }
            return Err(SniffError::MalformedData);
        }
        let t = read_u16(d, c);
        let l = read_u16(d, c + 2);
        proof {
            assert(s[0] == d@[c as int] && s[1] == d@[c as int + 1] && s[2] == d@[c as int + 2]
                && s[3] == d@[c as int + 3]);
            assert(u16_at(s, 0) == u16_at(d@, c as int));
            assert(u16_at(s, 2) == u16_at(d@, c as int + 2));
        }
        if n - (c + 4) < l as usize {
            proof {
                assert(4 + u16_at(s, 2) > s.len());
                assert(spec_extensions(s) is None);
            }
            return Err(SniffError::MalformedData);
        }
        let body_slice = &d[c + 4..c + 4 + l as usize];
        proof {
            assert(body_slice@ =~= s.subrange(4, 4 + u16_at(s, 2)));
        }
        let data = slice_to_vec(body_slice);
        let ghost old_exts = exts@;
        exts.push(TLSExtension { extension_type: t, data });
        proof {
            let entry = (t, data@);
            assert(extension_views(exts@) =~= extension_views(old_exts).push(entry));
            assert(d@.skip(c as int + 4 + l as int) =~= s.skip(4 + u16_at(s, 2)));
            let s2 = s.skip(4 + u16_at(s, 2));
            if spec_extensions(s2) is Some {
                let r2 = spec_extensions(s2)->Some_0;
                assert(spec_extensions(s) == Some(seq![entry] + r2));
                assert(extension_views(old_exts) + (seq![entry] + r2) =~= extension_views(exts@)
                    + r2);
            } else {
                assert(spec_extensions(s) is None);
            }
        }
        c = c + 4 + l as usize;
    }
}

/// Extracts the host name of a server-name extension body.
fn parse_sni_value(d: &[u8]) -> (r: Result<Vec<u8>, SniffError>)
    ensures
        match r {
            Ok(name) => spec_sni_value(d@) == Ok::<_, SniffError>(name@),
            Err(e) => spec_sni_value(d@) == Err::<Seq<u8>, _>(e),
        },
{
    let n = d.len();
    if n < 5 {
        return Err(SniffError::MalformedData);
    }
    let list_len = read_u16(d, 0);
    if n - 2 < list_len as usize {
        return Err(SniffError::MalformedData);
    }
    if d[2] != 0 {
        return Err(SniffError::MalformedData);
    }
    let name_len = read_u16(d, 3);
    if list_len < 3 || (list_len - 3) < name_len || n - 5 < name_len as usize {
        return Err(SniffError::MalformedData);
    }
    let name = slice_to_vec(&d[5..5 + name_len as usize]);
    proof {
        assert(name@ =~= d@.subrange(5, 5 + u16_at(d@, 3)));
    }
    Ok(name)
}

/// Walks decoded extensions for the first server-name entry.
pub fn find_server_name(extensions: &Vec<TLSExtension>) -> (r: Result<Vec<u8>, SniffError>)
    ensures
        match r {
            Ok(name) => spec_find_sni(extension_views(extensions@)) == Ok::<_, SniffError>(name@),
            Err(e) => spec_find_sni(extension_views(extensions@)) == Err::<Seq<u8>, _>(e),
        },
{
    let n = extensions.len();
    let mut i: usize = 0;
    proof {
        assert(extension_views(extensions@).skip(0) =~= extension_views(extensions@));
    }
    while i < n
        invariant
            i <= n == extensions@.len(),
            spec_find_sni(extension_views(extensions@)) == spec_find_sni(
                extension_views(extensions@).skip(i as int),
            ),
        decreases n - i,
    {
        let ghost views = extension_views(extensions@);
        let e = &extensions[i];
        proof {
            assert(views.skip(i as int)[0] == (e.extension_type, e.data@));
        }
        if e.extension_type == 0 {
            return parse_sni_value(e.data.as_slice());
        }
        proof {
            assert(views.skip(i as int).drop_first() =~= views.skip(i as int + 1));
        }
        i += 1;
    }
    proof {
        assert(extension_views(extensions@).skip(n as int).len() == 0);
    }
    Err(SniffError::NoServerNameExtension)
}

/// Parses a ClientHello handshake body into its typed message.
pub fn parse_client_hello(body: &[u8]) -> (r: Result<TLSClientHelloMessage, SniffError>)
    ensures
        match r {
            Ok(ch) => {
                &&& client_hello_ok(body@)
                &&& ch.client_version == spec_version_of(body@[0], body@[1])
                &&& ch.random.gmt_unix_time as int == u32_at(body@, 2)
                &&& ch.random.random_bytes@ == body@.subrange(6, 34)
                &&& ch.session_id.data@ == decoded_elements::<u8>(body@.skip(34), 32)
                &&& ch.cipher_suites.data@ == decoded_elements::<TLSCipherSuite>(
                    body@.skip(ch_cs_off(body@)),
                    65535,
                )
                &&& ch.compression_methods.data@ == decoded_elements::<TLSCompressionMethod>(
                    body@.skip(ch_cm_off(body@)),
                    255,
                )
                &&& Some(extension_views(ch.extensions@)) == spec_extensions(ch_ext_data(body@))
            },
            Err(e) => e == SniffError::MalformedData && !client_hello_ok(body@),
        },
{
    let n = body.len();
    if n < 34 {
        return Err(SniffError::MalformedData);
    }
    let sid_slice = &body[34..n];
    proof {
        assert(sid_slice@ =~= body@.skip(34));
    }
    let session_id = match TLSVector::<u8>::from_bytes(sid_slice, 32) {
        Ok(v) => v,
        Err(_) => {
            return Err(SniffError::MalformedData);
        },
    };
    proof {
        lemma_prefix_len_small();
        assert(1 + session_id.length <= sid_slice@.len());
    }
    let cs_off = 35 + session_id.len();
    proof {
        assert(cs_off as int == ch_cs_off(body@));
    }
    let cs_slice = &body[cs_off..n];
    proof {
        assert(cs_slice@ =~= body@.skip(cs_off as int));
    }
    let cipher_suites = match TLSVector::<TLSCipherSuite>::from_bytes(cs_slice, 65535) {
        Ok(v) => v,
        Err(_) => {
            return Err(SniffError::MalformedData);
        },
    };
    proof {
        lemma_prefix_len_small();
        assert(2 + cipher_suites.length <= cs_slice@.len());
    }
    let cm_off = cs_off + 2 + cipher_suites.len();
    proof {
        assert(cm_off as int == ch_cm_off(body@));
    }
    let cm_slice = &body[cm_off..n];
    proof {
        assert(cm_slice@ =~= body@.skip(cm_off as int));
    }
    let compression_methods = match TLSVector::<TLSCompressionMethod>::from_bytes(cm_slice, 255) {
        Ok(v) => v,
        Err(_) => {
            return Err(SniffError::MalformedData);
        },
    };
    proof {
        lemma_prefix_len_small();
        assert(1 + compression_methods.length <= cm_slice@.len());
    }
    let ext_off = cm_off + 1 + compression_methods.len();
    proof {
        assert(ext_off as int == ch_ext_off(body@));
    }
    if n - ext_off < 2 {
        return Err(SniffError::MalformedData);
    }
    let ext_total = read_u16(body, ext_off);
    if n - (ext_off + 2) < ext_total as usize {
        return Err(SniffError::MalformedData);
    }
    let ext_slice = &body[ext_off + 2..ext_off + 2 + ext_total as usize];
    proof {
        assert(ext_slice@ =~= ch_ext_data(body@));
    }
    let extensions = match parse_extensions(ext_slice) {
        Ok(e) => e,
        Err(e) => {
            return Err(e);
        },
    };
    let rand_slice = &body[6..34];
    proof {
        assert(rand_slice@ =~= body@.subrange(6, 34));
    }
    Ok(
        TLSClientHelloMessage {
            client_version: TLSVersion::from_bytes(body[0], body[1]),
            random: TLSRandom {
                gmt_unix_time: read_u32(body, 2),
                random_bytes: slice_to_vec(rand_slice),
            },
            session_id,
            cipher_suites,
            compression_methods,
            extensions,
        },
    )
}

/// The TLS/1.x recognizer: accumulates one handshake record and resolves the
/// destination from the ClientHello's server-name extension.
pub struct TlsProtocol {
    pub buffer: Vec<u8>,
}

impl TlsProtocol {
    /// The TLS detection verdict on a buffered prefix.
    pub fn detect(prefix: &[u8]) -> (r: Detection)
        ensures
            r == spec_tls_detect(prefix@),
    {
        if prefix.len() < 5 {
            Detection::NeedMoreBytes
        } else if prefix[0] == 22 {
            Detection::Recognized
        } else {
            Detection::NotThisProtocol
        }
    }

    /// Determines if the head of a packet is a TLS handshake record head; if
    /// so, returns a recognizer holding the bytes seen so far.
    pub fn from_packet(partial_packet: &[u8]) -> (r: Option<Self>)
        ensures
            match r {
                Some(h) => spec_tls_detect(partial_packet@) == Detection::Recognized && h.buffer@
                    == partial_packet@,
                None => spec_tls_detect(partial_packet@) != Detection::Recognized,
            },
    {
        match Self::detect(partial_packet) {
            Detection::Recognized => Some(TlsProtocol { buffer: slice_to_vec(partial_packet) }),
            _ => None,
        }
    }
}

impl SupportedProtocol for TlsProtocol {
    open spec fn spec_detect(prefix: Seq<u8>) -> Detection {
        spec_tls_detect(prefix)
    }

    open spec fn spec_remaining(buf: Seq<u8>) -> Option<nat> {
        spec_tls_remaining(buf)
    }

    open spec fn spec_finalize(buf: Seq<u8>) -> Result<(Seq<u8>, u16), SniffError> {
        spec_tls_finalize(buf)
    }

    open spec fn buffered(&self) -> Seq<u8> {
        self.buffer@
    }

    fn from_packet(partial_packet: &[u8]) -> (r: Option<Self>) {
        TlsProtocol::from_packet(partial_packet)
    }

    fn extend(&mut self, data: &[u8]) {
        append_bytes(&mut self.buffer, data);
    }

    fn exact_size(&self) -> (r: Option<usize>) {
        let n = self.buffer.len();
        if n < 5 {
            Some(5 - n)
        } else {
            let frag = read_u16(self.buffer.as_slice(), 3);
            if n - 5 < frag as usize {
                Some(5 + frag as usize - n)
            } else {
                Some(0)
            }
        }
    }

    fn wrap(&self) -> (r: Result<TranslucentPacket, SniffError>) {
        let buf = self.buffer.as_slice();
        let rec = match parse_record(buf) {
            Ok(rec) => rec,
            Err(e) => {
                return Err(e);
            },
        };
        let hs = match parse_handshake(rec.fragment.as_slice()) {
            Ok(hs) => hs,
            Err(e) => {
                return Err(e);
            },
        };
        match hs.msg_type {
            TLSHandshakeType::ClientHello => {},
            _ => {
                proof {
                    let f = buf@.subrange(5, 5 + record_len(buf@));
                    assert(f[0] != 1u8);
                }
                return Err(SniffError::MalformedData);
            },
        }
        let ch = match parse_client_hello(hs.body.as_slice()) {
            Ok(ch) => ch,
            Err(e) => {
                return Err(e);
            },
        };
        let name = match find_server_name(&ch.extensions) {
            Ok(name) => name,
            Err(e) => {
                return Err(e);
            },
        };
        Ok(TranslucentPacket { host: Host::Hostname(name), port: 443, payload: slice_to_vec(buf) })
    }
}

/// Once the record header is buffered the TLS verdict is final: appending
/// bytes can never change a decision already reached.
pub proof fn lemma_tls_detect_stable(v: Seq<u8>, ext: Seq<u8>)
    requires
        spec_tls_detect(v) != Detection::NeedMoreBytes,
    ensures
        spec_tls_detect(v + ext) == spec_tls_detect(v),
{
    assert((v + ext)[0] == v[0]);
}

/// Once the whole record is buffered, the resolved destination is final:
/// appending bytes cannot change what the record resolves to.
pub proof fn lemma_tls_finalize_stable(v: Seq<u8>, ext: Seq<u8>)
    requires
        spec_tls_detect(v) == Detection::Recognized,
        record_complete(v),
    ensures
        spec_tls_finalize(v + ext) == spec_tls_finalize(v),
{
    let w = v + ext;
    assert(w[0] == v[0] && w[3] == v[3] && w[4] == v[4]);
    assert(record_len(w) == record_len(v));
    assert(record_complete(w));
    assert(w.subrange(5, 5 + record_len(w)) =~= v.subrange(5, 5 + record_len(v)));
}

} // verus!
