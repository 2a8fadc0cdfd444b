//! The HTTP recognizer: detects an HTTP/1.1 request head in a byte prefix
//! and resolves the destination from its `Host:` header. The port policy is
//! fixed and documented: every HTTP destination resolves to port 80.

use vstd::prelude::*;
use vstd::slice::slice_to_vec;
use crate::bytes::{crlf_at, first_crlf, lemma_first_crlf_extend, lemma_first_crlf_spec, next_crlf};
use crate::protocol::{Detection, SupportedProtocol};
use crate::types::{Host, SniffError, TranslucentPacket};

verus! {

/// The request method `GET`, as bytes.
pub open spec fn http_get_token() -> Seq<u8> {
    seq![71u8, 69u8, 84u8]
}

/// The request method `POST`, as bytes.
pub open spec fn http_post_token() -> Seq<u8> {
    seq![80u8, 79u8, 83u8, 84u8]
}

/// The protocol tag `HTTP/1.1`, as bytes.
pub open spec fn http_version_token() -> Seq<u8> {
    seq![72u8, 84u8, 84u8, 80u8, 47u8, 49u8, 46u8, 49u8]
}

/// The header name `Host:`, as bytes.
pub open spec fn host_header_prefix() -> Seq<u8> {
    seq![72u8, 111u8, 115u8, 116u8, 58u8]
}

/// `line` splits on single spaces at exactly `i` and `j` into a supported
/// method, a request target, and the HTTP/1.1 tag.
pub open spec fn request_head_split(line: Seq<u8>, i: int, j: int) -> bool {
    &&& 0 <= i < j < line.len()
    &&& line[i] == 32u8
    &&& line[j] == 32u8
    &&& forall|k: int| 0 <= k < line.len() && k != i && k != j ==> line[k] != 32u8
    &&& (line.take(i) == http_get_token() || line.take(i) == http_post_token())
    &&& line.skip(j + 1) == http_version_token()
}

/// `line` is a well-formed request head line: exactly three space-separated
/// tokens, a supported method first and `HTTP/1.1` last.
pub open spec fn is_request_head_line(line: Seq<u8>) -> bool {
    exists|i: int, j: int| #[trigger] request_head_split(line, i, j)
}

/// The HTTP detection verdict on a buffered prefix: undecided until the
/// first CRLF arrives, then decided by the shape of the first line alone.
pub open spec fn spec_http_detect(v: Seq<u8>) -> Detection {
    match first_crlf(v) {
        None => Detection::NeedMoreBytes,
        Some(i) => if is_request_head_line(v.take(i)) {
            Detection::Recognized
        } else {
            Detection::NotThisProtocol
        },
    }
}

/// A blank line (CRLF immediately after a CRLF) ends the header block at `i`.
pub open spec fn header_terminator_at(v: Seq<u8>, i: int) -> bool {
    crlf_at(v, i) && crlf_at(v, i + 2)
}

/// The buffered head already contains its end-of-headers blank line.
pub open spec fn headers_complete(v: Seq<u8>) -> bool {
    exists|i: int| #[trigger] header_terminator_at(v, i)
}

/// Strips leading ASCII spaces; the documented policy for header values.
pub open spec fn trim_leading_spaces(s: Seq<u8>) -> Seq<u8>
    decreases s.len(),
{
    if s.len() > 0 && s[0] == 32u8 {
        trim_leading_spaces(s.drop_first())
    } else {
        s
    }
}

/// Walks the buffered lines for the first `Host:` header: `None` once a
/// blank line ends the headers, or while no complete `Host:` line is
/// buffered; otherwise the header's value with leading spaces stripped.
pub open spec fn find_host_value(v: Seq<u8>) -> Option<Seq<u8>>
    decreases v.len(),
{
    match first_crlf(v) {
        None => None,
        Some(i) => {
            if i == 0 {
                None
            } else if v.take(i).len() >= 5 && v.take(i).take(5) == host_header_prefix() {
                Some(trim_leading_spaces(v.take(i).skip(5)))
            } else {
                proof {
                    lemma_first_crlf_spec(v);
                }
                find_host_value(v.skip(i + 2))
            }
        },
    }
}

/// How many bytes are still missing: HTTP cannot predict its head size, so
/// the recognizer reads until the blank line ends the headers.
pub open spec fn spec_http_remaining(buf: Seq<u8>) -> Option<nat> {
    if headers_complete(buf) {
        Some(0nat)
    } else {
        None
    }
}

/// The destination the buffered HTTP head resolves to: the `Host:` header
/// value and port 80, or the rejection the head earns.
pub open spec fn spec_http_finalize(buf: Seq<u8>) -> Result<(Seq<u8>, u16), SniffError> {
    if spec_http_detect(buf) != Detection::Recognized {
        Err(SniffError::MalformedData)
    } else {
        match find_host_value(buf) {
            Some(h) => Ok((h, 80u16)),
            None => Err(SniffError::MissingHostHeader),
        }
    }
}

/// Checks whether a first line has the request-head shape.
fn check_request_line(line: &[u8]) -> (r: bool)
    ensures
        r == is_request_head_line(line@),
{
    let n = line.len();
    // First space.
    let mut a: usize = 0;
    while a < n && line[a] != 32
        invariant
            a <= n == line@.len(),
            forall|k: int| 0 <= k < a ==> line@[k] != 32u8,
        decreases n - a,
    {
        a += 1;
    }
    if a == n {
        proof {
            if is_request_head_line(line@) {
                let (i, j) = choose|i: int, j: int| request_head_split(line@, i, j);
                assert(line@[i] == 32u8);
            }
        }
        return false;
    }
    // Second space.
    let mut b: usize = a + 1;
    while b < n && line[b] != 32
        invariant
            a < b <= n == line@.len(),
            forall|k: int| a < k < b ==> line@[k] != 32u8,
        decreases n - b,
    {
        b += 1;
    }
    if b == n {
        proof {
            if is_request_head_line(line@) {
                let (i, j) = choose|i: int, j: int| request_head_split(line@, i, j);
                assert(line@[i] == 32u8 && line@[j] == 32u8);
                assert(i == a as int || j == a as int);
            }
        }
        return false;
    }
    // No third space.
    let mut c: usize = b + 1;
    while c < n && line[c] != 32
        invariant
            b < c <= n == line@.len(),
            forall|k: int| b < k < c ==> line@[k] != 32u8,
        decreases n - c,
    {
        c += 1;
    }
    if c < n {
        proof {
            if is_request_head_line(line@) {
                let (i, j) = choose|i: int, j: int| request_head_split(line@, i, j);
                assert(line@[a as int] == 32u8 && line@[b as int] == 32u8 && line@[c as int]
                    == 32u8);
                assert(a as int == i || a as int == j);
                assert(b as int == i || b as int == j);
                assert(c as int == i || c as int == j);
            }
        }
        return false;
    }
    // Exactly two spaces, at `a` and `b`.
    let is_get = a == 3 && line[0] == 71 && line[1] == 69 && line[2] == 84;
    let is_post = a == 4 && line[0] == 80 && line[1] == 79 && line[2] == 83 && line[3] == 84;
    let tail_len = n - (b + 1);
    let version_ok = tail_len == 8 && line[b + 1] == 72 && line[b + 2] == 84 && line[b + 3] == 84
        && line[b + 4] == 80 && line[b + 5] == 47 && line[b + 6] == 49 && line[b + 7] == 46 && line[
        b + 8] == 49;
    let accept = (is_get || is_post) && version_ok;
    proof {
        if accept {
            if is_get {
                assert(line@.take(a as int) =~= http_get_token());
            } else {
                assert(line@.take(a as int) =~= http_post_token());
            }
            assert(line@.skip(b as int + 1) =~= http_version_token());
            assert(request_head_split(line@, a as int, b as int));
        } else {
            if is_request_head_line(line@) {
                let (i, j) = choose|i: int, j: int| request_head_split(line@, i, j);
                assert(line@[i] == 32u8 && line@[j] == 32u8);
                assert(i == a as int && j == b as int);
                let head = line@.take(i);
                if head == http_get_token() {
                    assert(head.len() == 3);
                    assert(head[0] == 71u8 && head[1] == 69u8 && head[2] == 84u8);
                    assert(is_get);
                } else {
                    assert(head == http_post_token());
                    assert(head.len() == 4);
                    assert(head[0] == 80u8 && head[1] == 79u8 && head[2] == 83u8 && head[3]
                        == 84u8);
                    assert(is_post);
                }
                let tail = line@.skip(j + 1);
                assert(tail == http_version_token());
                assert(tail.len() == 8);
                assert(tail[0] == 72u8 && tail[1] == 84u8 && tail[2] == 84u8 && tail[3] == 80u8
                    && tail[4] == 47u8 && tail[5] == 49u8 && tail[6] == 46u8 && tail[7] == 49u8);
                assert(version_ok);
                assert(false);
            }
        }
    }
    accept
}

/// Scans the buffered prefix for the end-of-headers blank line.
fn find_header_terminator(v: &[u8]) -> (r: bool)
    ensures
        r == headers_complete(v@),
{
    let n = v.len();
    if n < 4 {
        proof {
            if headers_complete(v@) {
                let i = choose|i: int| header_terminator_at(v@, i);
            }
        }
        return false;
    }
    let mut i: usize = 0;
    while i + 3 < n
        invariant
            i + 3 <= n == v@.len(),
            forall|j: int| 0 <= j < i ==> !header_terminator_at(v@, j),
        decreases n - i,
    {
        if v[i] == 13 && v[i + 1] == 10 && v[i + 2] == 13 && v[i + 3] == 10 {
            proof {
                assert(header_terminator_at(v@, i as int));
            }
            return true;
        }
        i += 1;
    }
    proof {
        if headers_complete(v@) {
            let j = choose|j: int| header_terminator_at(v@, j);
            assert(j + 3 < n);
            assert(j < i as int);
        }
    }
    false
}

/// Copies a header value, dropping leading ASCII spaces.
fn trim_leading(s: &[u8]) -> (r: Vec<u8>)
    ensures
        r@ == trim_leading_spaces(s@),
{
    let n = s.len();
    let mut a: usize = 0;
    proof {
        assert(s@.skip(0) =~= s@);
    }
    while a < n && s[a] == 32
        invariant
            a <= n == s@.len(),
            trim_leading_spaces(s@) == trim_leading_spaces(s@.skip(a as int)),
        decreases n - a,
    {
        proof {
            assert(s@.skip(a as int).drop_first() =~= s@.skip(a as int + 1));
        }
        a += 1;
    }
    proof {
        assert(trim_leading_spaces(s@.skip(a as int)) == s@.skip(a as int));
    }
    slice_to_vec(&s[a..n])
}

/// The HTTP/1.1 recognizer: accumulates the request head and resolves the
/// destination from its `Host:` header.
pub struct HttpProtocol {
    pub buffer: Vec<u8>,
}

impl HttpProtocol {
    /// The HTTP detection verdict on a buffered prefix.
    pub fn detect(prefix: &[u8]) -> (r: Detection)
        ensures
            r == spec_http_detect(prefix@),
    {
        match next_crlf(prefix) {
            None => Detection::NeedMoreBytes,
            Some(i) => {
                proof {
                    lemma_first_crlf_spec(prefix@);
                }
                let line = &prefix[0..i];
                proof {
                    assert(line@ =~= prefix@.take(i as int));
                }
                if check_request_line(line) {
                    Detection::Recognized
                } else {
                    Detection::NotThisProtocol
                }
            },
        }
    }

    /// Determines if the head of a packet is a valid HTTP request head; if
    /// so, returns a recognizer holding the bytes seen so far.
    pub fn from_packet(partial_packet: &[u8]) -> (r: Option<Self>)
        ensures
            match r {
                Some(h) => spec_http_detect(partial_packet@) == Detection::Recognized && h.buffer@
                    == partial_packet@,
                None => spec_http_detect(partial_packet@) != Detection::Recognized,
            },
    {
        match Self::detect(partial_packet) {
            Detection::Recognized => Some(HttpProtocol { buffer: slice_to_vec(partial_packet) }),
            _ => None,
        }
    }
}

impl SupportedProtocol for HttpProtocol {
    open spec fn spec_detect(prefix: Seq<u8>) -> Detection {
        spec_http_detect(prefix)
    }

    open spec fn spec_remaining(buf: Seq<u8>) -> Option<nat> {
        spec_http_remaining(buf)
    }

    open spec fn spec_finalize(buf: Seq<u8>) -> Result<(Seq<u8>, u16), SniffError> {
        spec_http_finalize(buf)
    }

    open spec fn buffered(&self) -> Seq<u8> {
        self.buffer@
    }

    fn from_packet(partial_packet: &[u8]) -> (r: Option<Self>) {
        HttpProtocol::from_packet(partial_packet)
    }

    fn extend(&mut self, data: &[u8]) {
        crate::bytes::append_bytes(&mut self.buffer, data);
    }

    fn exact_size(&self) -> (r: Option<usize>) {
        if find_header_terminator(self.buffer.as_slice()) {
            Some(0)
        } else {
            None
        }
    }

    fn wrap(&self) -> (r: Result<TranslucentPacket, SniffError>) {
        let buf = self.buffer.as_slice();
        match HttpProtocol::detect(buf) {
            Detection::Recognized => {},
            _ => {
                return Err(SniffError::MalformedData);
            },
        }
        let n = buf.len();
        let mut c: usize = 0;
        proof {
            assert(buf@.skip(0) =~= buf@);
        }
        loop
            invariant
                c <= n == buf@.len(),
                find_host_value(buf@) == find_host_value(buf@.skip(c as int)),
                spec_http_detect(buf@) == Detection::Recognized,
                buf@ == self.buffer@,
            decreases n - c,
        {
            let rest = &buf[c..n];
            proof {
                assert(rest@ =~= buf@.skip(c as int));
            }
            match next_crlf(rest) {
                None => {
                    return Err(SniffError::MissingHostHeader);
                },
                Some(i) => {
                    if i == 0 {
                        return Err(SniffError::MissingHostHeader);
                    }
                    proof {
                        lemma_first_crlf_spec(rest@);
                    }
                    let line = &rest[0..i];
                    proof {
                        assert(line@ =~= rest@.take(i as int));
                    }
                    if i >= 5 && line[0] == 72 && line[1] == 111 && line[2] == 115 && line[3]
                        == 116 && line[4] == 58 {
                        proof {
                            assert(line@.take(5) =~= host_header_prefix());
                        }
                        let tail = &line[5..i];
                        proof {
                            assert(tail@ =~= line@.skip(5));
                        }
                        let value = trim_leading(tail);
                        return Ok(
                            TranslucentPacket {
                                host: Host::Hostname(value),
                                port: 80,
                                payload: slice_to_vec(buf),
                            },
                        );
                    }
                    proof {
                        lemma_first_crlf_spec(rest@);
                        if line@.len() >= 5 && line@.take(5) == host_header_prefix() {
                            assert(line@[0] == host_header_prefix()[0]);
                            assert(line@[1] == host_header_prefix()[1]);
                            assert(line@[2] == host_header_prefix()[2]);
                            assert(line@[3] == host_header_prefix()[3]);
                            assert(line@[4] == host_header_prefix()[4]);
                            assert(false);
                        }
                        assert(buf@.skip(c as int).skip(i as int + 2) =~= buf@.skip(
                            c as int + i as int + 2,
                        ));
                    }
                    c = c + i + 2;
                },
            }
        }
    }
}

/// Once the first line is buffered the HTTP verdict is final: appending
/// bytes can never change a decision already reached.
pub proof fn lemma_http_detect_stable(v: Seq<u8>, ext: Seq<u8>)
    requires
        spec_http_detect(v) != Detection::NeedMoreBytes,
    ensures
        spec_http_detect(v + ext) == spec_http_detect(v),
{
    lemma_first_crlf_extend(v, ext);
    let i = first_crlf(v)->Some_0;
    lemma_first_crlf_spec(v);
    assert((v + ext).take(i) =~= v.take(i));
}

/// A complete header block stays complete when bytes are appended.
pub proof fn lemma_headers_complete_stable(v: Seq<u8>, ext: Seq<u8>)
    requires
        headers_complete(v),
    ensures
        headers_complete(v + ext),
{
    let i = choose|i: int| header_terminator_at(v, i);
    assert(header_terminator_at(v + ext, i));
}

/// Once the header block is complete, the resolved `Host:` value is final:
/// appending bytes cannot change it.
pub proof fn lemma_find_host_stable(v: Seq<u8>, ext: Seq<u8>)
    requires
        headers_complete(v) || crlf_at(v, 0),
    ensures
        find_host_value(v + ext) == find_host_value(v),
    decreases v.len(),
{
    lemma_first_crlf_spec(v);
    if first_crlf(v) is None {
        if headers_complete(v) {
            let u = choose|u: int| header_terminator_at(v, u);
            assert(crlf_at(v, u));
            assert(false);
        } else {
            assert(false);
        }
    }
    let i = first_crlf(v)->Some_0;
    assert(crlf_at(v, i));
    lemma_first_crlf_extend(v, ext);
    assert((v + ext).take(i) =~= v.take(i));
    if i == 0 {
    } else if v.take(i).len() >= 5 && v.take(i).take(5) == host_header_prefix() {
    } else {
        let s = v.skip(i + 2);
        assert((v + ext).skip(i + 2) =~= s + ext);
        assert(!crlf_at(v, 0));
        let u = choose|u: int| header_terminator_at(v, u);
        assert(crlf_at(v, u) && crlf_at(v, u + 2));
        assert(u >= i);
        if u == i {
            assert(crlf_at(v, i + 2));
            assert(s[0] == v[i + 2] && s[1] == v[i + 3]);
            assert(crlf_at(s, 0));
        } else {
            assert(u != i + 1) by {
                if u == i + 1 {
                    assert(v[i + 1] == 10u8 && v[i + 1] == 13u8);
                }
            }
            assert(u >= i + 2);
            assert(s[u - (i + 2)] == v[u] && s[u - (i + 2) + 1] == v[u + 1]);
            assert(s[u - i] == v[u + 2] && s[u - i + 1] == v[u + 3]);
            assert(header_terminator_at(s, u - (i + 2)));
            assert(headers_complete(s));
        }
        lemma_find_host_stable(s, ext);
    }
}

} // verus!
