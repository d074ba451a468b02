use handshake_codec::base::PayloadU8;
use handshake_codec::codec::Codec;
use handshake_codec::enums::{CipherSuite, HandshakeType, NamedGroup};
use handshake_codec::handshake::{
    CipherSuites, ClientHelloPayload, HandshakeMessagePayload, HandshakePayload, Random,
};
use handshake_codec::reader::Reader;

fn sample_client_hello() -> ClientHelloPayload {
    ClientHelloPayload {
        random: Random::from_slice(&[1, 2, 3, 4, 5, 6]),
        cipher_suites: vec![CipherSuite::TlsAes128GcmSha256],
        name_groups: vec![NamedGroup::Secp256r1],
        pwd_name: PayloadU8(vec![0x61, 0x62]),
    }
}

fn sample_message() -> HandshakeMessagePayload {
    HandshakeMessagePayload {
        typ: HandshakeType::ClientHello,
        payload: HandshakePayload::ClientHello(sample_client_hello()),
    }
}

const REFERENCE_PAYLOAD: [u8; 17] = [
    1, 2, 3, 4, 5, 6, 0x00, 0x02, 0x13, 0x01, 0x00, 0x02, 0x00, 0x17, 0x02, 0x61, 0x62,
];

#[test]
fn client_hello_encodes_reference_bytes() {
    let mut bytes = Vec::new();
    sample_client_hello().encode(&mut bytes);
    assert_eq!(bytes, REFERENCE_PAYLOAD.to_vec());
}

#[test]
fn message_encodes_reference_frame() {
    let mut bytes = Vec::new();
    sample_message().encode(&mut bytes);
    let mut expected = vec![0x01, 0x00, 0x00, 0x11];
    expected.extend_from_slice(&REFERENCE_PAYLOAD);
    assert_eq!(bytes, expected);
}

#[test]
fn message_round_trips() {
    let msg = sample_message();
    let mut bytes = Vec::new();
    msg.encode(&mut bytes);
    let mut rd = Reader::init(&bytes);
    let back = HandshakeMessagePayload::read(&mut rd).expect("decode failed");
    assert_eq!(back, msg);
    assert!(!rd.any_left());
}

#[test]
fn get_encoding_matches_encode() {
    let msg = sample_message();
    let mut bytes = Vec::new();
    msg.encode(&mut bytes);
    assert_eq!(msg.get_encoding(), bytes);
}

#[test]
fn encode_is_deterministic() {
    let msg = sample_message();
    let mut first = Vec::new();
    msg.encode(&mut first);
    let mut second = Vec::new();
    msg.encode(&mut second);
    assert_eq!(first, second);
}

#[test]
fn length_field_counts_payload_bytes() {
    let msg = sample_message();
    let mut bytes = Vec::new();
    msg.encode(&mut bytes);
    let declared =
        ((bytes[1] as usize) << 16) | ((bytes[2] as usize) << 8) | (bytes[3] as usize);
    assert_eq!(declared, bytes.len() - 4);
    assert_eq!(msg.length(), bytes.len());
}

#[test]
fn truncated_prefix_fails() {
    let mut bytes = Vec::new();
    sample_message().encode(&mut bytes);
    for k in 0..bytes.len() {
        let mut rd = Reader::init(&bytes[..k]);
        assert!(HandshakeMessagePayload::read(&mut rd).is_none(), "prefix of {} bytes decoded", k);
    }
}

#[test]
fn trailing_garbage_rejected() {
    let mut bytes = Vec::new();
    sample_message().encode(&mut bytes);
    // Declare one byte more than the payload holds and pad with one byte.
    bytes[3] += 1;
    bytes.push(0);
    let mut rd = Reader::init(&bytes);
    assert!(HandshakeMessagePayload::read(&mut rd).is_none());
}

#[test]
fn unknown_tag_rejected() {
    let mut bytes = Vec::new();
    sample_message().encode(&mut bytes);
    bytes[0] = 0x02;
    let mut rd = Reader::init(&bytes);
    assert!(HandshakeMessagePayload::read(&mut rd).is_none());
}

#[test]
fn empty_cipher_suites_decode_to_empty() {
    let bytes = [0x00u8, 0x00];
    let mut rd = Reader::init(&bytes);
    let suites = <CipherSuites as Codec>::read(&mut rd).expect("decode failed");
    assert!(suites.is_empty());
    assert!(!rd.any_left());
}

#[test]
fn empty_cipher_suites_message_round_trips() {
    let msg = HandshakeMessagePayload {
        typ: HandshakeType::ClientHello,
        payload: HandshakePayload::ClientHello(ClientHelloPayload {
            random: Random::from_slice(&[0, 0, 0, 0, 0, 0]),
            cipher_suites: vec![],
            name_groups: vec![],
            pwd_name: PayloadU8(vec![]),
        }),
    };
    let mut bytes = Vec::new();
    msg.encode(&mut bytes);
    let mut rd = Reader::init(&bytes);
    let back = HandshakeMessagePayload::read(&mut rd).expect("decode failed");
    assert_eq!(back, msg);
}

#[test]
fn odd_count_bytes_rejected() {
    let bytes = [0x00u8, 0x03, 0x13, 0x01, 0x13];
    let mut rd = Reader::init(&bytes);
    assert!(<CipherSuites as Codec>::read(&mut rd).is_none());
}

#[test]
fn unknown_codes_decode_to_sentinels_and_round_trip() {
    let bytes = [0x00u8, 0x04, 0xAB, 0xCD, 0x13, 0x02];
    let mut rd = Reader::init(&bytes);
    let suites = <CipherSuites as Codec>::read(&mut rd).expect("decode failed");
    assert_eq!(
        suites,
        vec![CipherSuite::Unknown(0xABCD), CipherSuite::TlsAes256GcmSha384]
    );
    let mut again = Vec::new();
    suites.encode(&mut again);
    assert_eq!(again, bytes.to_vec());
}

#[test]
fn random_from_slice_reads_exactly_six_bytes() {
    let r = Random::from_slice(&[9, 8, 7, 6, 5, 4, 99]);
    let mut bytes = Vec::new();
    r.encode(&mut bytes);
    assert_eq!(bytes, vec![9, 8, 7, 6, 5, 4]);
}

#[test]
fn random_read_failure_leaves_cursor_unchanged() {
    let bytes = [1u8, 2, 3, 4];
    let mut rd = Reader::init(&bytes);
    assert!(Random::read(&mut rd).is_none());
    assert_eq!(rd.used(), 0);
    assert_eq!(rd.take(4), Some(&bytes[..]));
}

#[test]
fn random_write_slice_overwrites_front_only() {
    let r = Random::from_slice(&[9, 8, 7, 6, 5, 4]);
    let mut out = [0u8; 8];
    out[6] = 42;
    out[7] = 43;
    r.write_slice(&mut out);
    assert_eq!(out, [9, 8, 7, 6, 5, 4, 42, 43]);
}

#[test]
fn reader_take_is_bounds_checked_and_atomic() {
    let bytes = [1u8, 2, 3];
    let mut rd = Reader::init(&bytes);
    assert_eq!(rd.take(2), Some(&bytes[0..2]));
    // Only one byte remains: the failed take consumes nothing.
    assert!(rd.take(2).is_none());
    assert!(rd.any_left());
    assert_eq!(rd.take(1), Some(&bytes[2..3]));
    assert!(!rd.any_left());
}

#[test]
fn reader_sub_is_bounded_to_its_region() {
    let bytes = [10u8, 20, 30, 40];
    let mut rd = Reader::init(&bytes);
    let mut inner = rd.sub(2).expect("sub failed");
    assert_eq!(inner.take(2), Some(&bytes[0..2]));
    // The inner reader ends at its declared boundary.
    assert!(inner.take(1).is_none());
    assert!(!inner.any_left());
    // The parent advanced past the carved region.
    assert_eq!(rd.take(2), Some(&bytes[2..4]));
}

#[test]
fn pwd_name_of_max_length_round_trips() {
    let msg = HandshakeMessagePayload {
        typ: HandshakeType::ClientHello,
        payload: HandshakePayload::ClientHello(ClientHelloPayload {
            random: Random::from_slice(&[1, 1, 2, 3, 5, 8]),
            cipher_suites: vec![CipherSuite::TlsChacha20Poly1305Sha256],
            name_groups: vec![NamedGroup::X25519, NamedGroup::Secp256r1],
            pwd_name: PayloadU8(vec![7; 255]),
        }),
    };
    let mut bytes = Vec::new();
    msg.encode(&mut bytes);
    let mut rd = Reader::init(&bytes);
    let back = HandshakeMessagePayload::read(&mut rd).expect("decode failed");
    assert_eq!(back, msg);
    assert!(!rd.any_left());
}

#[test]
fn decode_consumes_exactly_one_frame() {
    let mut bytes = Vec::new();
    sample_message().encode(&mut bytes);
    // A following frame's first byte is left for the next decode.
    bytes.push(0x01);
    let mut rd = Reader::init(&bytes);
    let back = HandshakeMessagePayload::read(&mut rd).expect("decode failed");
    assert_eq!(back, sample_message());
    assert!(rd.any_left());
    assert_eq!(rd.used(), bytes.len() - 1);
}
