use btcwire::blockdata::block::validate_block_header;
use btcwire::blockdata::error::Error;
use btcwire::consensus::encode::Sha256dHash;

/// A 32-byte value with the given least significant and most significant
/// bytes (the number is read little-endian, so the most significant byte
/// sits at the end).
fn number(low: u8, high: u8) -> Sha256dHash {
    let mut bytes = vec![0u8; 32];
    bytes[0] = low;
    bytes[31] = high;
    Sha256dHash::from_bytes(bytes).unwrap()
}

#[test]
fn header_below_target_passes() {
    let hash = number(1, 0);
    let target = number(2, 0);
    assert_eq!(validate_block_header(&hash, &target, &target), Ok(()));
}

#[test]
fn header_equal_to_target_fails() {
    let hash = number(2, 0);
    let target = number(2, 0);
    assert_eq!(
        validate_block_header(&hash, &target, &target),
        Err(Error::BlockProofOfWorkError)
    );
}

#[test]
fn header_above_target_fails() {
    let hash = number(3, 0);
    let target = number(2, 0);
    assert_eq!(
        validate_block_header(&hash, &target, &target),
        Err(Error::BlockProofOfWorkError)
    );
}

#[test]
fn comparison_weighs_high_bytes_most() {
    // 1 * 256^31 + 255 is still below 2 * 256^31.
    let hash = number(255, 1);
    let target = number(0, 2);
    assert_eq!(validate_block_header(&hash, &target, &target), Ok(()));
    // ... and 3 * 256^31 is above it.
    let big_hash = number(0, 3);
    assert_eq!(
        validate_block_header(&big_hash, &target, &target),
        Err(Error::BlockProofOfWorkError)
    );
}

#[test]
fn mismatched_target_fails_before_hash_check() {
    // The hash is below both targets; the mismatch alone must fail the
    // validation, with the target error rather than the proof-of-work one.
    let hash = number(1, 0);
    let target = number(2, 0);
    let expected = number(3, 0);
    assert_eq!(
        validate_block_header(&hash, &target, &expected),
        Err(Error::BlockTargetError)
    );
}

#[test]
fn block_error_descriptions() {
    assert_eq!(
        Error::BlockProofOfWorkError.description(),
        "block hash not below the target"
    );
    assert_eq!(Error::BlockTargetError.description(), "incorrect block target");
}
