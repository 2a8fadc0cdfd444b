use translucent::bytes_formatter::BytesFormatter;
use translucent::relay::{relay_decision, RelayAction};
use translucent::socks5::{socks5_step, Socks5State, Socks5Step};
use translucent::types::Host;

// Scenario: the fixed-layout SOCKS5 exchange — greeting answered with
// `05 00`, connect answered with the all-zero success reply, and the
// destination 127.0.0.1:80 resolved from the request.
#[test]
fn socks5_greeting_then_connect() {
    let step = socks5_step(Socks5State::AwaitGreeting, &[0x05, 0x01, 0x00]);
    match step {
        Socks5Step::Greeted { reply } => assert_eq!(reply, vec![0x05, 0x00]),
        _ => panic!("greeting must be accepted"),
    }
    let request = [0x05, 0x01, 0x00, 0x01, 0x7f, 0x00, 0x00, 0x01, 0x00, 0x50];
    match socks5_step(Socks5State::AwaitConnect, &request) {
        Socks5Step::Connect { reply, host, port } => {
            assert_eq!(reply, vec![0x05, 0x00, 0x00, 0x01, 0, 0, 0, 0, 0, 0]);
            assert_eq!(host, Host::Ipv4([127, 0, 0, 1]));
            assert_eq!(port, 80);
        }
        _ => panic!("connect must be accepted"),
    }
}

#[test]
fn socks5_hostname_connect() {
    let mut request: Vec<u8> = vec![0x05, 0x01, 0x00, 0x03, 0x07];
    request.extend_from_slice(b"example");
    request.extend_from_slice(&[0x01, 0xbb]);
    match socks5_step(Socks5State::AwaitConnect, &request) {
        Socks5Step::Connect { host, port, .. } => {
            assert_eq!(host, Host::Hostname(b"example".to_vec()));
            assert_eq!(port, 443);
        }
        _ => panic!("hostname connect must be accepted"),
    }
}

#[test]
fn socks5_rejects_bad_messages() {
    // Wrong version.
    assert!(matches!(
        socks5_step(Socks5State::AwaitGreeting, &[0x04, 0x01, 0x00]),
        Socks5Step::Reject
    ));
    // No-auth method not offered.
    assert!(matches!(
        socks5_step(Socks5State::AwaitGreeting, &[0x05, 0x01, 0x02]),
        Socks5Step::Reject
    ));
    // IPv6 address type is unsupported.
    let v6 = [0x05, 0x01, 0x00, 0x04, 0, 0, 0, 0, 0, 0, 0, 0, 0, 0, 0, 0, 0, 0, 0, 1, 0x00, 0x50];
    assert!(matches!(socks5_step(Socks5State::AwaitConnect, &v6), Socks5Step::Reject));
    // Truncated hostname request.
    assert!(matches!(
        socks5_step(Socks5State::AwaitConnect, &[0x05, 0x01, 0x00, 0x03, 0x08, b'a']),
        Socks5Step::Reject
    ));
}

#[test]
fn relay_decision_forwards_or_half_closes() {
    assert_eq!(relay_decision(0), RelayAction::HalfClose);
    assert_eq!(relay_decision(1), RelayAction::Forward);
    assert_eq!(relay_decision(1024), RelayAction::Forward);
}

#[test]
fn dump_rows_render_hex_and_ascii() {
    let formatter = BytesFormatter::new();
    let rows = formatter.render_rows(b"Hi\x00!", 4);
    assert_eq!(rows.len(), 1);
    assert_eq!(rows[0].hex, b"48 69 00 21 ".to_vec());
    assert_eq!(rows[0].ascii, b"Hi.!".to_vec());

    let bytes: Vec<u8> = (0u8..40).collect();
    let rows = formatter.render_rows(&bytes, 33);
    assert_eq!(rows.len(), 3);
    assert_eq!(rows[2].hex, b"20 ".to_vec());
    assert_eq!(rows[2].ascii, b".".to_vec());
    assert_eq!(rows[0].hex.len(), 48);
    assert_eq!(rows[0].ascii, b"................".to_vec());

    let rows = formatter.render_rows(&bytes, 0);
    assert_eq!(rows.len(), 0);
}
