use translucent::bytes::{next_crlf, parse_usize};
use translucent::protocol::http::HttpProtocol;
use translucent::protocol::tls::TlsProtocol;
use translucent::protocol::{Detection, SupportedProtocol};
use translucent::serializer::{SniffStatus, StatelessSerializer};
use translucent::types::{Host, SniffError};
use translucent::DEFAULT_READ_CAP;

fn sniff(bytes: &[u8], cap: usize) -> SniffStatus {
    StatelessSerializer::sniff_buffer(bytes, cap)
}

#[test]
fn next_crlf_finds_first_pair() {
    assert_eq!(next_crlf(b"abc\r\ndef\r\n"), Some(3));
    assert_eq!(next_crlf(b"\r\n"), Some(0));
    assert_eq!(next_crlf(b"no newline"), None);
    assert_eq!(next_crlf(b"\r"), None);
    assert_eq!(next_crlf(b""), None);
}

#[test]
fn parse_usize_reads_big_endian() {
    assert_eq!(parse_usize(b""), Some(0));
    assert_eq!(parse_usize(&[0x01]), Some(1));
    assert_eq!(parse_usize(&[0x01, 0x00]), Some(256));
    assert_eq!(parse_usize(&[0xab, 0xcd, 0xef]), Some(0xabcdef));
    assert_eq!(parse_usize(&[1, 2, 3, 4, 5, 6, 7, 8, 9]), None);
}

#[test]
fn http_detect_needs_first_line() {
    assert_eq!(HttpProtocol::detect(b"GET / HTTP/1.1"), Detection::NeedMoreBytes);
    assert_eq!(HttpProtocol::detect(b"GET / HTTP/1.1\r\n"), Detection::Recognized);
    assert_eq!(HttpProtocol::detect(b"POST /x HTTP/1.1\r\n"), Detection::Recognized);
    assert_eq!(HttpProtocol::detect(b"PUT / HTTP/1.1\r\n"), Detection::NotThisProtocol);
    assert_eq!(HttpProtocol::detect(b"GET  / HTTP/1.1\r\n"), Detection::NotThisProtocol);
    assert_eq!(HttpProtocol::detect(b"GET / HTTP/1.0\r\n"), Detection::NotThisProtocol);
    assert_eq!(HttpProtocol::detect(b"junk line\r\n"), Detection::NotThisProtocol);
}

#[test]
fn tls_detect_needs_record_header() {
    assert_eq!(TlsProtocol::detect(&[0x16, 0x03, 0x03, 0x00]), Detection::NeedMoreBytes);
    assert_eq!(TlsProtocol::detect(&[0x16, 0x03, 0x03, 0x00, 0x05]), Detection::Recognized);
    assert_eq!(TlsProtocol::detect(&[0x17, 0x03, 0x03, 0x00, 0x05]), Detection::NotThisProtocol);
}

// Scenario: a plain HTTP request resolves to its Host header and port 80.
#[test]
fn http_request_resolves_host_and_port() {
    let input = b"GET / HTTP/1.1\r\nHost: example.com\r\n\r\n";
    match sniff(input, DEFAULT_READ_CAP) {
        SniffStatus::Packet(p) => {
            assert_eq!(p.host, Host::Hostname(b"example.com".to_vec()));
            assert_eq!(p.port, 80);
            assert_eq!(p.payload, input.to_vec());
        }
        _ => panic!("expected a resolved packet"),
    }
}

#[test]
fn http_request_without_host_is_rejected() {
    let input = b"GET / HTTP/1.1\r\nAccept: */*\r\n\r\n";
    match sniff(input, DEFAULT_READ_CAP) {
        SniffStatus::Rejected(e) => assert_eq!(e, SniffError::MissingHostHeader),
        _ => panic!("expected MissingHostHeader"),
    }
}

// Scenario: a TLS record header followed by fewer fragment bytes than the
// header declares keeps asking for more, with an exact remainder.
#[test]
fn short_tls_record_needs_more_bytes() {
    let mut input: Vec<u8> = vec![0x16, 0x03, 0x03, 0x00, 0x05];
    for extra in [0u8, 1, 1, 1, 1] {
        match sniff(&input, DEFAULT_READ_CAP) {
            SniffStatus::NeedMore => {}
            _ => panic!("expected NeedMore at {} bytes", input.len()),
        }
        let rec = TlsProtocol::from_packet(&input).unwrap();
        assert_eq!(rec.exact_size(), Some(10 - input.len()));
        input.push(extra);
    }
    // All ten bytes buffered: the record is complete (and, holding no
    // ClientHello, is then rejected as malformed).
    match sniff(&input, DEFAULT_READ_CAP) {
        SniffStatus::Rejected(e) => assert_eq!(e, SniffError::MalformedData),
        _ => panic!("expected a decision on the complete record"),
    }
}

fn client_hello_record(extensions: &[u8]) -> Vec<u8> {
    // Handshake body: version, random, empty-ish vectors, then extensions.
    let mut body: Vec<u8> = Vec::new();
    body.extend_from_slice(&[0x03, 0x03]);
    body.extend_from_slice(&[0u8; 32]);
    body.push(0); // session id: empty, one-byte prefix
    body.extend_from_slice(&[0x00, 0x02, 0x00, 0x2f]); // one cipher suite
    body.extend_from_slice(&[0x01, 0x00]); // one compression method: null
    body.push((extensions.len() >> 8) as u8);
    body.push((extensions.len() & 0xff) as u8);
    body.extend_from_slice(extensions);

    let mut fragment: Vec<u8> = vec![0x01]; // ClientHello
    fragment.push((body.len() >> 16) as u8);
    fragment.push((body.len() >> 8) as u8);
    fragment.push((body.len() & 0xff) as u8);
    fragment.extend_from_slice(&body);

    let mut record: Vec<u8> = vec![0x16, 0x03, 0x03];
    record.push((fragment.len() >> 8) as u8);
    record.push((fragment.len() & 0xff) as u8);
    record.extend_from_slice(&fragment);
    record
}

fn server_name_extension(name: &[u8]) -> Vec<u8> {
    let mut data: Vec<u8> = Vec::new();
    let list_len = 3 + name.len();
    data.push((list_len >> 8) as u8);
    data.push((list_len & 0xff) as u8);
    data.push(0); // name type: host name
    data.push((name.len() >> 8) as u8);
    data.push((name.len() & 0xff) as u8);
    data.extend_from_slice(name);
    let mut ext: Vec<u8> = vec![0x00, 0x00]; // extension type: server_name
    ext.push((data.len() >> 8) as u8);
    ext.push((data.len() & 0xff) as u8);
    ext.extend_from_slice(&data);
    ext
}

#[test]
fn client_hello_with_sni_resolves_to_port_443() {
    let ext = server_name_extension(b"example.com");
    let input = client_hello_record(&ext);
    match sniff(&input, DEFAULT_READ_CAP) {
        SniffStatus::Packet(p) => {
            assert_eq!(p.host, Host::Hostname(b"example.com".to_vec()));
            assert_eq!(p.port, 443);
            assert_eq!(p.payload, input);
        }
        _ => panic!("expected a resolved packet"),
    }
}

// Scenario: a ClientHello whose extensions carry no server name is rejected
// without resolving a destination.
#[test]
fn client_hello_without_sni_is_rejected() {
    // One harmless extension of another type, so the walk really walks.
    let ext: Vec<u8> = vec![0x00, 0x17, 0x00, 0x00];
    let input = client_hello_record(&ext);
    match sniff(&input, DEFAULT_READ_CAP) {
        SniffStatus::Rejected(e) => assert_eq!(e, SniffError::NoServerNameExtension),
        _ => panic!("expected NoServerNameExtension"),
    }
}

#[test]
fn truncated_client_hello_is_malformed() {
    // Record declares a fragment holding a ClientHello whose body length
    // overruns the fragment.
    let input: Vec<u8> = vec![0x16, 0x03, 0x03, 0x00, 0x05, 0x01, 0x00, 0x10, 0x00, 0x00];
    match sniff(&input, DEFAULT_READ_CAP) {
        SniffStatus::Rejected(e) => assert_eq!(e, SniffError::MalformedData),
        _ => panic!("expected MalformedData"),
    }
}

// Scenario: a long stream that no recognizer accepts within the read cap is
// rejected as an unsupported protocol.
#[test]
fn unrecognized_noise_is_rejected() {
    let mut noise: Vec<u8> = Vec::with_capacity(10_000);
    let mut x: u32 = 0x2545_f491;
    for _ in 0..10_000 {
        x = x.wrapping_mul(1_664_525).wrapping_add(1_013_904_223);
        let mut b = (x >> 24) as u8;
        if b == 0x0d || b == 0x0a {
            b = 0x41;
        }
        noise.push(b);
    }
    noise[0] = 0x21; // neither a TLS handshake byte nor a method letter
    let mut buffered: Vec<u8> = Vec::new();
    let mut outcome: Option<SniffError> = None;
    for chunk in noise.chunks(1024) {
        buffered.extend_from_slice(chunk);
        match sniff(&buffered, DEFAULT_READ_CAP) {
            SniffStatus::NeedMore => continue,
            SniffStatus::Rejected(e) => {
                outcome = Some(e);
                break;
            }
            SniffStatus::Packet(_) => panic!("noise must not resolve"),
        }
    }
    assert_eq!(outcome, Some(SniffError::UnsupportedProtocol));
}

// Incremental equivalence: byte-by-byte feeding reaches the same destination
// as one pass over the whole buffer.
#[test]
fn byte_by_byte_feeding_matches_one_shot() {
    let input = b"GET / HTTP/1.1\r\nHost: example.com\r\n\r\n";
    let mut buffered: Vec<u8> = Vec::new();
    let mut incremental: Option<(Host, u16)> = None;
    for &b in input.iter() {
        buffered.push(b);
        match sniff(&buffered, DEFAULT_READ_CAP) {
            SniffStatus::NeedMore => continue,
            SniffStatus::Packet(p) => {
                incremental = Some((p.host, p.port));
                break;
            }
            SniffStatus::Rejected(_) => panic!("unexpected rejection"),
        }
    }
    let (host, port) = incremental.expect("stream must resolve");
    match sniff(input, DEFAULT_READ_CAP) {
        SniffStatus::Packet(p) => {
            assert_eq!(p.host, host);
            assert_eq!(p.port, port);
        }
        _ => panic!("one-shot pass must resolve too"),
    }
}

// Priority determinism: a buffer the TLS recognizer accepts is a hard HTTP
// rejection once a CRLF is buffered, never a request to wait.
#[test]
fn tls_buffer_is_hard_http_rejection() {
    let mut input: Vec<u8> = vec![0x16, 0x03, 0x03, 0x00, 0x09];
    input.extend_from_slice(b"abcde\r\nxy");
    assert_eq!(TlsProtocol::detect(&input), Detection::Recognized);
    assert_eq!(HttpProtocol::detect(&input), Detection::NotThisProtocol);
}

// Replay completeness: the packet's payload is the consumed prefix, so
// payload plus the bytes read afterwards is the original stream.
#[test]
fn sniffed_bytes_are_replayed_not_dropped() {
    let head = b"GET / HTTP/1.1\r\nHost: example.com\r\n\r\n";
    let rest = b"more client bytes";
    let mut stream: Vec<u8> = Vec::new();
    stream.extend_from_slice(head);
    stream.extend_from_slice(rest);
    let mut consumed: usize = 0;
    let mut payload: Option<Vec<u8>> = None;
    while consumed < stream.len() {
        consumed += 1;
        match sniff(&stream[..consumed], DEFAULT_READ_CAP) {
            SniffStatus::NeedMore => continue,
            SniffStatus::Packet(p) => {
                payload = Some(p.payload);
                break;
            }
            SniffStatus::Rejected(_) => panic!("unexpected rejection"),
        }
    }
    let payload = payload.expect("stream must resolve");
    let mut rebuilt = payload.clone();
    rebuilt.extend_from_slice(&stream[consumed..]);
    assert_eq!(rebuilt, stream);
}

#[test]
fn deserialize_one_shot() {
    let input = b"GET / HTTP/1.1\r\nHost: h\r\n\r\n";
    let p = StatelessSerializer::deserialize(input).unwrap();
    assert_eq!(p.host, Host::Hostname(b"h".to_vec()));
    assert_eq!(p.port, 80);
    let wire = StatelessSerializer::serialize(&p).unwrap();
    assert_eq!(wire, input.to_vec());
    assert!(StatelessSerializer::deserialize(b"\x00\x01garbage\r\n").is_err());
}

#[test]
fn recognizer_extend_accumulates() {
    let mut rec = HttpProtocol::from_packet(b"GET / HTTP/1.1\r\n").unwrap();
    assert_eq!(rec.exact_size(), None);
    rec.extend(b"Host: example.com\r\n\r\n");
    assert_eq!(rec.exact_size(), Some(0));
    let p = rec.wrap().unwrap();
    assert_eq!(p.host, Host::Hostname(b"example.com".to_vec()));
    assert_eq!(p.port, 80);
}

#[test]
fn host_header_value_is_trimmed() {
    let input = b"GET / HTTP/1.1\r\nUser-Agent: x\r\nHost:   spaced.example\r\n\r\n";
    let p = StatelessSerializer::deserialize(input).unwrap();
    assert_eq!(p.host, Host::Hostname(b"spaced.example".to_vec()));
}
