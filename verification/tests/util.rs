use freebck::storage::util::{
    base16_decode, base16_encode, encode_hex, nibble_char, nibble_value, xor_byte_hash,
};
use freebck::cmd::backup::ignore_already_exists;
use freebck::util::hash::{content_hash, finish_content_hash, hasher_new, hasher_update};
use freebck::util::text::{bytes_equal, bytes_in_order, parse_u32, push_decimal};
use freebck::util::io::{error_kind, IoErrorKind};
use freebck::util::time::{
    as_unix_timestamp, epoch_request, system_time_from_unix_timestamp, time_or_invalid,
    unix_timestamp_of_offset,
};
use std::io::{Error, ErrorKind};
use std::time::{Duration, UNIX_EPOCH};

#[test]
fn test_xor_byte_hash_returns_correct_hash() {
    assert_eq!(xor_byte_hash("Hello World!".as_bytes()), "f2");
    assert_eq!(xor_byte_hash("Xello World!".as_bytes()), "e2");
    assert_eq!(xor_byte_hash("Hello Xorld!".as_bytes()), "31");
}

#[test]
fn test_base16_encode() {
    assert_eq!(base16_encode("Hello World!"), "48656c6c6f20576f726c6421");
}

#[test]
fn test_base16_decode() {
    assert_eq!(
        base16_decode("48656c6c6f20576f726c6421").unwrap(),
        "Hello World!"
    );
}

#[test]
fn test_base16_decode_upper_case() {
    assert_eq!(
        base16_decode("48656c6c6f20576f726c6421".to_uppercase().as_str()).unwrap(),
        "Hello World!"
    );
}

#[test]
fn xor_byte_hash_of_nothing_is_zero() {
    assert_eq!(xor_byte_hash(b""), "00");
}

#[test]
fn xor_byte_hash_rotates_by_position() {
    // 0x01 at index 1 is rotated by one bit, 0x80 at index 2 by two bits.
    assert_eq!(xor_byte_hash(&[0x00, 0x01]), "02");
    assert_eq!(xor_byte_hash(&[0x00, 0x00, 0x80]), "02");
    // index 8 wraps around to no rotation
    assert_eq!(xor_byte_hash(&[0, 0, 0, 0, 0, 0, 0, 0, 0x81]), "81");
}

#[test]
fn nibble_char_gives_lower_case_digits() {
    assert_eq!(nibble_char(0), b'0');
    assert_eq!(nibble_char(9), b'9');
    assert_eq!(nibble_char(10), b'a');
    assert_eq!(nibble_char(15), b'f');
}

#[test]
fn nibble_value_reads_both_cases() {
    assert_eq!(nibble_value(b'0'), 0);
    assert_eq!(nibble_value(b'9'), 9);
    assert_eq!(nibble_value(b'a'), 10);
    assert_eq!(nibble_value(b'F'), 15);
}

#[test]
fn encode_hex_writes_two_digits_per_byte() {
    assert_eq!(encode_hex(&[0x00, 0x0f, 0xf0, 0xff]), "000ff0ff");
    assert_eq!(encode_hex(&[]), "");
}

#[test]
fn base16_round_trip_of_non_ascii_text() {
    let text = "Grüße, 世界";
    assert_eq!(base16_decode(&base16_encode(text)).unwrap(), text);
}

#[test]
fn base16_decode_ignores_final_odd_digit() {
    assert_eq!(base16_decode("414").unwrap(), "A");
    assert_eq!(base16_decode("").unwrap(), "");
}

#[test]
fn base16_decode_refuses_invalid_utf8() {
    assert!(base16_decode("ff").is_err());
    assert!(base16_decode("c328").is_err());
}

#[test]
fn content_hash_is_sha256_in_hex() {
    assert_eq!(
        content_hash(b"abc"),
        "ba7816bf8f01cfea414140de5dae2223b00361a396177a9cb410ff61f20015ad"
    );
    assert_eq!(
        content_hash(b""),
        "e3b0c44298fc1c149afbf4c8996fb92427ae41e4649b934ca495991b7852b855"
    );
}

#[test]
fn parse_u32_accepts_what_str_parse_accepts() {
    for text in ["0", "7", "+42", "4294967295", "007", "", "+", "-1", "-0", "12a", " 1", "4294967296", "99999999999"] {
        assert_eq!(parse_u32(text.as_bytes()), text.parse::<u32>().ok(), "{:?}", text);
    }
}

#[test]
fn push_decimal_writes_the_number() {
    let mut s = String::from("n=");
    push_decimal(&mut s, 0);
    assert_eq!(s, "n=0");
    let mut s = String::new();
    push_decimal(&mut s, 4294967295);
    assert_eq!(s, "4294967295");
}

#[test]
fn bytes_in_order_is_lexicographic() {
    assert!(bytes_in_order(b"abc", b"abd"));
    assert!(bytes_in_order(b"ab", b"abc"));
    assert!(!bytes_in_order(b"abc", b"ab"));
    assert!(bytes_in_order(b"", b""));
    assert!(bytes_in_order(b"Z", b"a"));
    assert!(bytes_equal(b"abc", b"abc"));
    assert!(!bytes_equal(b"abc", b"abd"));
    assert!(!bytes_equal(b"abc", b"ab"));
}

#[test]
fn unix_timestamps_of_offsets() {
    assert_eq!(unix_timestamp_of_offset(Ok(1_700_000_000)), 1_700_000_000);
    assert_eq!(unix_timestamp_of_offset(Err(5)), -5);
    assert_eq!(unix_timestamp_of_offset(Ok(0)), 0);
}

#[test]
fn unix_timestamps_of_system_times() {
    assert_eq!(as_unix_timestamp(UNIX_EPOCH), 0);
    assert_eq!(as_unix_timestamp(UNIX_EPOCH + Duration::from_secs(90)), 90);
    assert_eq!(as_unix_timestamp(UNIX_EPOCH - Duration::from_secs(90)), -90);
}

#[test]
fn unix_timestamps_round_toward_zero() {
    assert_eq!(as_unix_timestamp(UNIX_EPOCH + Duration::from_millis(1500)), 1);
    assert_eq!(as_unix_timestamp(UNIX_EPOCH - Duration::from_millis(1500)), -1);
}

#[test]
fn timestamps_round_trip_through_system_times() {
    for n in [0i64, 1, -1, 1_700_000_000, -86_400] {
        let t = system_time_from_unix_timestamp(n).unwrap();
        assert_eq!(as_unix_timestamp(t), n);
    }
    let err = system_time_from_unix_timestamp(i64::MIN).unwrap_err();
    assert_eq!(err.kind(), std::io::ErrorKind::InvalidInput);
    assert_eq!(error_kind(&err), IoErrorKind::InvalidInput);
}

#[test]
fn timestamps_ask_the_clock_for_seconds_from_the_epoch() {
    assert_eq!(epoch_request(0), Some(Ok(0)));
    assert_eq!(epoch_request(1_700_000_000), Some(Ok(1_700_000_000)));
    assert_eq!(epoch_request(-86_400), Some(Err(86_400)));
    assert_eq!(epoch_request(i64::MAX), Some(Ok(i64::MAX as u64)));
    assert_eq!(epoch_request(i64::MIN + 1), Some(Err(i64::MAX as u64)));
    assert_eq!(epoch_request(i64::MIN), None);
}

#[test]
fn found_times_are_handed_on_and_missing_ones_refused() {
    let t = UNIX_EPOCH + Duration::from_secs(42);
    assert_eq!(time_or_invalid(42, Some(t)).unwrap(), t);
    let err = time_or_invalid(7, None).unwrap_err();
    assert_eq!(err.kind(), ErrorKind::InvalidInput);
    assert!(err.to_string().contains('7'));
}

#[test]
fn streaming_hash_equals_one_shot_hash() {
    let mut hasher = hasher_new();
    hasher_update(&mut hasher, b"ab");
    hasher_update(&mut hasher, b"");
    hasher_update(&mut hasher, b"c");
    assert_eq!(finish_content_hash(hasher), content_hash(b"abc"));
    assert_eq!(
        finish_content_hash(hasher_new()),
        "e3b0c44298fc1c149afbf4c8996fb92427ae41e4649b934ca495991b7852b855"
    );
}

#[test]
fn already_existing_targets_are_ignored() {
    let exists: std::io::Result<u8> = Err(Error::new(ErrorKind::AlreadyExists, "x"));
    assert!(ignore_already_exists(exists).is_ok());
    let missing: std::io::Result<u8> = Err(Error::new(ErrorKind::NotFound, "x"));
    assert_eq!(ignore_already_exists(missing).unwrap_err().kind(), ErrorKind::NotFound);
    assert!(ignore_already_exists(Ok::<u8, Error>(1)).is_ok());
}

#[test]
fn io_error_kinds() {
    assert_eq!(error_kind(&Error::new(ErrorKind::AlreadyExists, "x")), IoErrorKind::AlreadyExists);
    assert_eq!(error_kind(&Error::new(ErrorKind::NotFound, "x")), IoErrorKind::NotFound);
    assert_eq!(error_kind(&Error::new(ErrorKind::PermissionDenied, "x")), IoErrorKind::Other);
}
