use btcwire::consensus::encode::Decodable;
use btcwire::consensus::encode::Encodable;
use btcwire::consensus::encode::Error;
use btcwire::consensus::encode::Reader;
use btcwire::consensus::encode::Sha256dHash;
use btcwire::consensus::encode::Writer;
use btcwire::util::constants::PROTOCOL_VERSION;
use btcwire::wire::error::Error as WireError;
use btcwire::wire::msg::Message;
use btcwire::wire::msg::MessageKind;
use btcwire::wire::msgblock::GetBlocksMessage;
use btcwire::wire::msgblock::GetHeadersMessage;
use btcwire::wire::msgblock::SendHeadersMessage;
use btcwire::wire::msgreject::ReasonRejection;
use btcwire::wire::msgreject::RejectMessage;
use btcwire::wire::msgver::VersionMessage;
use btcwire::wire::netaddress::NetAddress;
use btcwire::wire::netaddress::SocketEndpoint;

fn encode_msg<T: Encodable>(v: &T) -> Vec<u8> {
    let mut w = Writer::new();
    v.encode(&mut w).unwrap();
    w.into_bytes()
}

fn decode_msg<T: Decodable>(bytes: Vec<u8>) -> Result<T, Error> {
    let mut d = Reader::new(bytes);
    T::decode(&mut d)
}

fn sample_hash(seed: u8) -> Sha256dHash {
    let mut bytes = vec![0u8; 32];
    for (i, b) in bytes.iter_mut().enumerate() {
        *b = seed.wrapping_add(i as u8);
    }
    Sha256dHash::from_bytes(bytes).unwrap()
}

fn sample_address() -> NetAddress {
    NetAddress {
        timestamp: 0x5E0BE100,
        services: 1,
        ip: vec![0, 0, 0, 0, 0, 0xFFFF, 0xC0A8, 0x0101],
        port: 8333,
    }
}

#[test]
fn netaddress_endian_exception_fixed_vector() {
    // Timestamp and services stay little-endian while the address groups
    // and the port go big-endian.
    let addr = NetAddress {
        timestamp: 1,
        services: 2,
        ip: vec![0x2001, 0x0DB8, 0x0000, 0x0000, 0x0000, 0x0000, 0x0000, 0x0001],
        port: 8333,
    };
    let enc = encode_msg(&addr);
    let expected: Vec<u8> = vec![
        0x01, 0x00, 0x00, 0x00, 0x00, 0x00, 0x00, 0x00, // timestamp LE
        0x02, 0x00, 0x00, 0x00, 0x00, 0x00, 0x00, 0x00, // services LE
        0x20, 0x01, 0x0D, 0xB8, 0x00, 0x00, 0x00, 0x00, // address BE
        0x00, 0x00, 0x00, 0x00, 0x00, 0x00, 0x00, 0x01, //
        0x20, 0x8D, // port 8333 BE
    ];
    assert_eq!(enc, expected);
}

#[test]
fn netaddress_round_trip() {
    let addr = sample_address();
    let back: NetAddress = decode_msg(encode_msg(&addr)).unwrap();
    assert_eq!(back, addr);
}

#[test]
fn netaddress_truncated() {
    let enc = encode_msg(&sample_address());
    let r: Result<NetAddress, Error> = decode_msg(enc[0..33].to_vec());
    assert_eq!(r, Err(Error::ErrorEncodeDecode));
}

#[test]
fn socket_addr_tor_rejected() {
    let mut addr = sample_address();
    addr.ip = vec![0xFD87, 0xD87E, 0xEB43, 0, 0, 0, 0, 1];
    assert_eq!(addr.socket_addr(), Err(WireError::ErrorTORAddress));
}

#[test]
fn socket_addr_ipv4_mapped() {
    let addr = sample_address();
    assert_eq!(
        addr.socket_addr(),
        Ok(SocketEndpoint::V4 { a: 192, b: 168, c: 1, d: 1, port: 8333 })
    );
}

#[test]
fn socket_addr_ipv4_round_trip() {
    // An IPv4 endpoint stored in its mapped form converts back to the
    // same dotted quad and port.
    let endpoint = SocketEndpoint::V4 { a: 10, b: 0, c: 0, d: 7, port: 18333 };
    let addr = NetAddress::new_netaddress(7, 0, &endpoint);
    assert_eq!(addr.socket_addr(), Ok(endpoint));
}

#[test]
fn socket_addr_native_ipv6() {
    let mut addr = sample_address();
    addr.ip = vec![0x2001, 0x0DB8, 0, 0, 0, 0, 0, 1];
    assert_eq!(
        addr.socket_addr(),
        Ok(SocketEndpoint::V6 { groups: addr.ip.clone(), port: addr.port })
    );
}

#[test]
fn socket_addr_wrong_length() {
    let mut addr = sample_address();
    addr.ip = vec![0, 0, 0];
    assert_eq!(addr.socket_addr(), Err(WireError::ErrorAddressLength));
}

#[test]
fn service_flags() {
    let mut addr = sample_address();
    addr.services = 0b101;
    assert!(addr.has_service(0b001));
    assert!(addr.has_service(0b101));
    assert!(!addr.has_service(0b010));
    addr.add_service(0b010);
    assert_eq!(addr.services, 0b111);
    assert!(addr.has_service(0b010));
}

#[test]
fn reject_reason_codes_round_trip() {
    let table = [
        (ReasonRejection::MALFORMED, 0x01u8),
        (ReasonRejection::INVALID, 0x10),
        (ReasonRejection::OBSOLETE, 0x11),
        (ReasonRejection::DUPLICATE, 0x12),
        (ReasonRejection::NONSTANDARD, 0x40),
        (ReasonRejection::DUST, 0x41),
        (ReasonRejection::FEE, 0x42),
        (ReasonRejection::CHECKPOINT, 0x43),
    ];
    for (reason, code) in table {
        assert_eq!(reason.code(), code);
        assert_eq!(encode_msg(&reason), vec![code]);
        let back: ReasonRejection = decode_msg(vec![code]).unwrap();
        assert_eq!(back, reason);
    }
}

#[test]
fn reject_reason_unknown_codes_fail() {
    for code in [0x00u8, 0x02, 0x13, 0x3F, 0x44, 0xFF] {
        let r: Result<ReasonRejection, Error> = decode_msg(vec![code]);
        assert_eq!(r, Err(Error::ErrorParse("unknown rejection code")));
    }
}

#[test]
fn reject_message_round_trip() {
    let m = RejectMessage::new_reject_msg(
        String::from("tx"),
        ReasonRejection::DUPLICATE,
        String::from("transaction already known"),
        sample_hash(9),
    );
    let back: RejectMessage = decode_msg(encode_msg(&m)).unwrap();
    assert_eq!(back, m);
}

#[test]
fn version_message_round_trip() {
    let m = VersionMessage::new_version_msg(
        1,
        0x5E0BE100,
        sample_address(),
        NetAddress {
            timestamp: 0,
            services: 0,
            ip: vec![0x2001, 0x0DB8, 0, 0, 0, 0, 0, 2],
            port: 18333,
        },
        0xDEADBEEF,
        String::from("/btcwire:0.1/"),
        650000,
    );
    assert_eq!(m.protocol, PROTOCOL_VERSION);
    assert!(!m.disable_relay_tx);
    let back: VersionMessage = decode_msg(encode_msg(&m)).unwrap();
    assert_eq!(back, m);
}

#[test]
fn get_headers_round_trip() {
    let m = GetHeadersMessage::new_get_headers_msg(
        vec![sample_hash(1), sample_hash(2)],
        Sha256dHash::zero(),
    );
    assert_eq!(m.protocol, PROTOCOL_VERSION);
    let back: GetHeadersMessage = decode_msg(encode_msg(&m)).unwrap();
    assert_eq!(back, m);
}

#[test]
fn get_blocks_round_trip() {
    let m = GetBlocksMessage::new_get_blocks_msg(vec![sample_hash(3)], sample_hash(4));
    assert_eq!(m.protocol, PROTOCOL_VERSION);
    let back: GetBlocksMessage = decode_msg(encode_msg(&m)).unwrap();
    assert_eq!(back, m);
}

#[test]
fn send_headers_within_limit() {
    let m = SendHeadersMessage::new_send_headers_msg(vec![sample_hash(5)], Sha256dHash::zero())
        .unwrap();
    assert_eq!(m.protocol, PROTOCOL_VERSION);
    assert_eq!(m.headers_hashes.len(), 1);
}

#[test]
fn send_headers_over_limit_fails() {
    let hashes = vec![sample_hash(6); 2001];
    let r = SendHeadersMessage::new_send_headers_msg(hashes, Sha256dHash::zero());
    assert_eq!(r, Err(WireError::ErrorBlockHeaderInvalidLength));
}

#[test]
fn message_envelope_encodes_payload() {
    let inner = GetBlocksMessage::new_get_blocks_msg(vec![sample_hash(3)], sample_hash(4));
    let payload = encode_msg(&inner);
    let mut w = Writer::new();
    Message::GetBlocksMessage(inner).encode(&mut w).unwrap();
    assert_eq!(w.into_bytes(), payload);
}

#[test]
fn message_envelope_unimplemented_encode_fails() {
    let mut w = Writer::new();
    let r = Message::PingMessage.encode(&mut w);
    assert_eq!(r, Err(Error::ErrorParse("unimplemented message")));
    assert!(w.into_bytes().is_empty());
}

#[test]
fn message_envelope_decodes_by_kind() {
    let inner = GetHeadersMessage::new_get_headers_msg(vec![sample_hash(8)], Sha256dHash::zero());
    let mut d = Reader::new(encode_msg(&inner));
    let m = Message::decode(MessageKind::GetHeaders, &mut d).unwrap();
    assert_eq!(m, Message::GetHeadersMessage(inner));
    assert_eq!(d.remaining(), 0);
}

#[test]
fn message_envelope_unimplemented_decode_fails() {
    let mut d = Reader::new(vec![1, 2, 3]);
    let r = Message::decode(MessageKind::Pong, &mut d);
    assert_eq!(r, Err(Error::ErrorParse("unimplemented message")));
    // The reserved kind consumed nothing: unimplemented is not an empty
    // payload.
    assert_eq!(d.remaining(), 3);
}

#[test]
fn wire_error_descriptions() {
    assert_eq!(WireError::ErrorTORAddress.description(), "message contains TOR address");
    assert_eq!(WireError::ErrorAddressLength.description(), "wrong address length");
    assert_eq!(
        WireError::ErrorBlockHeaderInvalidLength.description(),
        "block header of invalid length"
    );
}
