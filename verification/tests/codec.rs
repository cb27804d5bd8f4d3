use btcwire::consensus::encode::Decodable;
use btcwire::consensus::encode::Encodable;
use btcwire::consensus::encode::Error;
use btcwire::consensus::encode::Reader;
use btcwire::consensus::encode::Sha256dHash;
use btcwire::consensus::encode::VarInt;
use btcwire::consensus::encode::Writer;

fn encode_to_bytes<T: Encodable>(v: &T) -> (Vec<u8>, usize) {
    let mut w = Writer::new();
    let n = v.encode(&mut w).unwrap();
    (w.into_bytes(), n)
}

fn decode_from_bytes<T: Decodable>(bytes: Vec<u8>) -> Result<T, Error> {
    let mut d = Reader::new(bytes);
    T::decode(&mut d)
}

fn round_trip<T: Encodable + Decodable + PartialEq + std::fmt::Debug>(v: &T) {
    let (bytes, n) = encode_to_bytes(v);
    assert_eq!(n, bytes.len());
    let back: T = decode_from_bytes(bytes).unwrap();
    assert_eq!(&back, v);
}

#[test]
fn varint_round_trip_boundaries() {
    for n in [
        0u64,
        0xFC,
        0xFD,
        0xFFFF,
        0x10000,
        0xFFFFFFFF,
        0x100000000,
        u64::MAX,
    ] {
        round_trip(&VarInt(n));
    }
}

#[test]
fn varint_length_matches_table() {
    assert_eq!(VarInt(0).var_int_length(), 1);
    assert_eq!(VarInt(0xFC).var_int_length(), 1);
    assert_eq!(VarInt(0xFD).var_int_length(), 3);
    assert_eq!(VarInt(0xFFFF).var_int_length(), 3);
    assert_eq!(VarInt(0x10000).var_int_length(), 5);
    assert_eq!(VarInt(0xFFFFFFFF).var_int_length(), 5);
    assert_eq!(VarInt(0x100000000).var_int_length(), 9);
    assert_eq!(VarInt(u64::MAX).var_int_length(), 9);
}

#[test]
fn varint_shortest_form_bytes() {
    assert_eq!(encode_to_bytes(&VarInt(0)).0, vec![0x00]);
    assert_eq!(encode_to_bytes(&VarInt(0xFC)).0, vec![0xFC]);
    assert_eq!(encode_to_bytes(&VarInt(0xFD)).0, vec![0xFD, 0xFD, 0x00]);
    assert_eq!(encode_to_bytes(&VarInt(0xFFFF)).0, vec![0xFD, 0xFF, 0xFF]);
    assert_eq!(
        encode_to_bytes(&VarInt(0x10000)).0,
        vec![0xFE, 0x00, 0x00, 0x01, 0x00]
    );
    assert_eq!(
        encode_to_bytes(&VarInt(u64::MAX)).0,
        vec![0xFF, 0xFF, 0xFF, 0xFF, 0xFF, 0xFF, 0xFF, 0xFF, 0xFF]
    );
}

#[test]
fn varint_non_minimal_rejected() {
    // 0xFC fits in one byte; carrying it 0xFD-prefixed is non-minimal.
    let r: Result<VarInt, Error> = decode_from_bytes(vec![0xFD, 0xFC, 0x00]);
    assert_eq!(r, Err(Error::ErrorParse("non-minimal varint")));
    // 0xFFFF fits in the 0xFD form; the 0xFE form is non-minimal.
    let r: Result<VarInt, Error> = decode_from_bytes(vec![0xFE, 0xFF, 0xFF, 0x00, 0x00]);
    assert_eq!(r, Err(Error::ErrorParse("non-minimal varint")));
    // 1 fits in one byte; the 0xFF form is non-minimal.
    let r: Result<VarInt, Error> =
        decode_from_bytes(vec![0xFF, 0x01, 0x00, 0x00, 0x00, 0x00, 0x00, 0x00, 0x00]);
    assert_eq!(r, Err(Error::ErrorParse("non-minimal varint")));
}

#[test]
fn varint_truncated() {
    let r: Result<VarInt, Error> = decode_from_bytes(vec![0xFD, 0x01]);
    assert_eq!(r, Err(Error::ErrorEncodeDecode));
    let r: Result<VarInt, Error> = decode_from_bytes(vec![]);
    assert_eq!(r, Err(Error::ErrorEncodeDecode));
}

#[test]
fn integers_round_trip() {
    round_trip(&0x12u8);
    round_trip(&0xFFu8);
    round_trip(&0x1234u16);
    round_trip(&0x12345678u32);
    round_trip(&0x123456789ABCDEF0u64);
    round_trip(&(-1i8));
    round_trip(&(-2i16));
    round_trip(&(-3i32));
    round_trip(&i32::MIN);
    round_trip(&(-4i64));
    round_trip(&i64::MIN);
    round_trip(&true);
    round_trip(&false);
}

#[test]
fn integers_little_endian_bytes() {
    assert_eq!(encode_to_bytes(&0x01020304u32).0, vec![0x04, 0x03, 0x02, 0x01]);
    assert_eq!(encode_to_bytes(&(-2i32)).0, vec![0xFE, 0xFF, 0xFF, 0xFF]);
    assert_eq!(
        encode_to_bytes(&0x0102030405060708u64).0,
        vec![0x08, 0x07, 0x06, 0x05, 0x04, 0x03, 0x02, 0x01]
    );
}

#[test]
fn integer_truncated() {
    let r: Result<u32, Error> = decode_from_bytes(vec![1, 2, 3]);
    assert_eq!(r, Err(Error::ErrorEncodeDecode));
}

#[test]
fn bool_decodes_any_nonzero_as_true() {
    let b: bool = decode_from_bytes(vec![7]).unwrap();
    assert!(b);
    let b: bool = decode_from_bytes(vec![0]).unwrap();
    assert!(!b);
}

#[test]
fn hash_round_trip() {
    let bytes: Vec<u8> = (0u8..32).collect();
    let h = Sha256dHash::from_bytes(bytes.clone()).unwrap();
    let (enc, n) = encode_to_bytes(&h);
    assert_eq!(n, 32);
    assert_eq!(enc, bytes);
    let back: Sha256dHash = decode_from_bytes(enc).unwrap();
    assert_eq!(back, h);
}

#[test]
fn hash_truncated() {
    let r: Result<Sha256dHash, Error> = decode_from_bytes(vec![0u8; 31]);
    assert_eq!(r, Err(Error::ErrorEncodeDecode));
}

#[test]
fn hash_from_bytes_wrong_length() {
    let r = Sha256dHash::from_bytes(vec![0u8; 31]);
    assert_eq!(r, Err(Error::ErrorParse("wrong hash length")));
}

#[test]
fn string_round_trip() {
    round_trip(&String::from(""));
    round_trip(&String::from("/btcwire:0.1/"));
    round_trip(&String::from("héllo wörld"));
}

#[test]
fn string_exact_bytes() {
    let (enc, n) = encode_to_bytes(&String::from("tx"));
    assert_eq!(enc, vec![0x02, b't', b'x']);
    assert_eq!(n, 3);
    // A two-byte UTF-8 character: one char, two payload bytes.
    let (enc, _) = encode_to_bytes(&String::from("é"));
    assert_eq!(enc, vec![0x02, 0xC3, 0xA9]);
}

#[test]
fn string_invalid_utf8_rejected() {
    let r: Result<String, Error> = decode_from_bytes(vec![0x01, 0xFF]);
    assert_eq!(r, Err(Error::ErrorParse("invalid utf-8 string")));
}

#[test]
fn string_truncated() {
    let r: Result<String, Error> = decode_from_bytes(vec![0x05, b'a']);
    assert_eq!(r, Err(Error::ErrorEncodeDecode));
}

#[test]
fn vec_of_hashes_round_trip_empty() {
    let v: Vec<Sha256dHash> = vec![];
    let (enc, n) = encode_to_bytes(&v);
    assert_eq!(enc, vec![0x00]);
    assert_eq!(n, 1);
    let back: Vec<Sha256dHash> = decode_from_bytes(enc).unwrap();
    assert_eq!(back, v);
}

#[test]
fn vec_of_hashes_round_trip_one() {
    let v = vec![Sha256dHash::from_bytes((0u8..32).collect()).unwrap()];
    round_trip(&v);
}

#[test]
fn vec_of_hashes_round_trip_long_prefix() {
    // 253 elements force the 3-byte count prefix.
    let mut v: Vec<Sha256dHash> = Vec::new();
    for i in 0..253u32 {
        let mut bytes = vec![0u8; 32];
        bytes[0] = (i % 256) as u8;
        bytes[1] = (i / 256) as u8;
        v.push(Sha256dHash::from_bytes(bytes).unwrap());
    }
    let (enc, n) = encode_to_bytes(&v);
    assert_eq!(n, 3 + 253 * 32);
    assert_eq!(&enc[0..3], &[0xFD, 0xFD, 0x00]);
    let back: Vec<Sha256dHash> = decode_from_bytes(enc).unwrap();
    assert_eq!(back, v);
}

#[test]
fn vec_oversized_count_rejected() {
    // A count above the protocol limit is refused before any element is
    // read.
    let (mut enc, _) = encode_to_bytes(&VarInt(4000001));
    enc.extend_from_slice(&[0u8; 64]);
    let r: Result<Vec<Sha256dHash>, Error> = decode_from_bytes(enc);
    assert_eq!(r, Err(Error::ErrorParse("oversized vector")));
}

#[test]
fn vec_truncated_elements_rejected() {
    // Claims two hashes but carries only one.
    let mut enc = vec![0x02];
    enc.extend_from_slice(&[0u8; 32]);
    let r: Result<Vec<Sha256dHash>, Error> = decode_from_bytes(enc);
    assert_eq!(r, Err(Error::ErrorEncodeDecode));
}

#[test]
fn reader_reports_remaining() {
    let mut d = Reader::new(vec![1, 2, 3, 4]);
    assert_eq!(d.remaining(), 4);
    let v: u16 = u16::decode(&mut d).unwrap();
    assert_eq!(v, 0x0201);
    assert_eq!(d.remaining(), 2);
}

#[test]
fn error_descriptions() {
    assert_eq!(
        Error::ErrorEncodeDecode.description(),
        "error while encoding or decoding data"
    );
    assert_eq!(
        Error::ErrorVarintDecode.description(),
        "error while decoding a varint"
    );
    assert_eq!(Error::ErrorParse("non-minimal varint").description(), "non-minimal varint");
}
