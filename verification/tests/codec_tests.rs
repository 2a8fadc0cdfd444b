use translucent::codec::{TLSVector, TLSWrappableType};
use translucent::types::{TLSCipherSuite, TLSCompressionMethod, TLSContentType, TLSHandshakeType,
    TLSVersion};

#[test]
fn compression_method_wire_round_trip() {
    assert_eq!(TLSCompressionMethod::Null.to_bytes(), vec![0]);
    assert_eq!(TLSCompressionMethod::Unknown.to_bytes(), vec![255]);
    assert_eq!(TLSCompressionMethod::from_bytes(&[0]), TLSCompressionMethod::Null);
    assert_eq!(TLSCompressionMethod::from_bytes(&[7]), TLSCompressionMethod::Unknown);
    assert_eq!(<TLSCompressionMethod as TLSWrappableType>::len(), 1);
}

#[test]
fn cipher_suite_wire_round_trip() {
    let suite = TLSCipherSuite { code: 0xc02f };
    assert_eq!(suite.to_bytes(), vec![0xc0, 0x2f]);
    assert_eq!(TLSCipherSuite::from_bytes(&[0xc0, 0x2f]), suite);
    assert_eq!(<TLSCipherSuite as TLSWrappableType>::len(), 2);
}

#[test]
fn vector_decodes_one_byte_prefix() {
    // Context max length 32: one prefix byte, here declaring three bytes.
    let data = [3u8, 10, 20, 30, 99, 99];
    let v = TLSVector::<u8>::from_bytes(&data, 32).unwrap();
    assert_eq!(v.len(), 3);
    assert_eq!(*v.get(0), 10);
    assert_eq!(*v.get(1), 20);
    assert_eq!(*v.get(2), 30);
}

#[test]
fn vector_decodes_two_byte_prefix() {
    // Context max length 65535: two prefix bytes.
    let data = [0u8, 4, 0x00, 0x2f, 0xc0, 0x30];
    let v = TLSVector::<TLSCipherSuite>::from_bytes(&data, 65535).unwrap();
    assert_eq!(v.len(), 4);
    assert_eq!(*v.get(0), TLSCipherSuite { code: 0x002f });
    assert_eq!(*v.get(1), TLSCipherSuite { code: 0xc030 });
}

#[test]
fn vector_rejects_malformed_input() {
    // Declared length longer than the remaining bytes.
    assert!(TLSVector::<u8>::from_bytes(&[5, 1, 2], 32).is_err());
    // No room for the prefix itself.
    assert!(TLSVector::<u8>::from_bytes(&[], 32).is_err());
    assert!(TLSVector::<TLSCipherSuite>::from_bytes(&[0], 65535).is_err());
    // Declared length not a multiple of the element width.
    assert!(TLSVector::<TLSCipherSuite>::from_bytes(&[0, 3, 1, 2, 3], 65535).is_err());
}

// Round trip: decoding an encoding gives the vector back, for a prefix
// width picked by the context's maximum length, not by the data.
#[test]
fn vector_encode_decode_round_trip() {
    let v = TLSVector::<TLSCipherSuite> {
        length: 6,
        data: vec![
            TLSCipherSuite { code: 0x1301 },
            TLSCipherSuite { code: 0x1302 },
            TLSCipherSuite { code: 0x00ff },
        ],
    };
    let encoded = v.encode(65535);
    assert_eq!(encoded, vec![0x00, 0x06, 0x13, 0x01, 0x13, 0x02, 0x00, 0xff]);
    let decoded = TLSVector::<TLSCipherSuite>::from_bytes(&encoded, 65535).unwrap();
    assert_eq!(decoded.length, v.length);
    assert_eq!(decoded.data, v.data);

    let empty = TLSVector::<TLSCompressionMethod> { length: 0, data: vec![] };
    let encoded = empty.encode(255);
    assert_eq!(encoded, vec![0]);
    let decoded = TLSVector::<TLSCompressionMethod>::from_bytes(&encoded, 255).unwrap();
    assert_eq!(decoded.length, 0);
    assert_eq!(decoded.data, vec![]);
}

#[test]
fn enum_byte_mappings() {
    assert_eq!(TLSContentType::from_byte(22), TLSContentType::Handshake);
    assert_eq!(TLSContentType::from_byte(23), TLSContentType::ApplicationData);
    assert_eq!(TLSContentType::from_byte(99), TLSContentType::Unknown);
    assert_eq!(TLSHandshakeType::from_byte(1), TLSHandshakeType::ClientHello);
    assert_eq!(TLSHandshakeType::from_byte(2), TLSHandshakeType::ServerHello);
    assert_eq!(TLSHandshakeType::from_byte(200), TLSHandshakeType::Unknown);
    assert_eq!(TLSVersion::from_bytes(3, 3), TLSVersion::Tls12);
    assert_eq!(TLSVersion::from_bytes(3, 1), TLSVersion::Unknown);
}
