use substreams_acme::codec::{decode_test_data, decode_timestamp, encode_test_data, encode_timestamp, DecodeError};
use substreams_acme::messages::{TestData, Timestamp};
use substreams_acme::varint::{read_varint, varint_encode};

fn summary(hash: &str, number: u64, ts: Option<Timestamp>, len: u64) -> TestData {
    TestData {
        block_hash: String::from(hash),
        block_number: number,
        block_timestamp: ts,
        transactions_len: len,
    }
}

#[test]
fn varint_small_values() {
    assert_eq!(varint_encode(0), vec![0]);
    assert_eq!(varint_encode(1), vec![1]);
    assert_eq!(varint_encode(127), vec![127]);
    assert_eq!(varint_encode(128), vec![128, 1]);
    assert_eq!(varint_encode(300), vec![172, 2]);
}

#[test]
fn varint_largest_value() {
    let bytes = varint_encode(u64::MAX);
    assert_eq!(bytes, vec![255, 255, 255, 255, 255, 255, 255, 255, 255, 1]);
    assert_eq!(read_varint(&bytes, 0), Some((u64::MAX, 10)));
}

#[test]
fn varint_read_rejects_truncation_and_overflow() {
    assert_eq!(read_varint(&vec![128], 0), None);
    assert_eq!(read_varint(&vec![], 0), None);
    // an eleventh significant byte pushes the value past 64 bits
    assert_eq!(
        read_varint(&vec![129, 128, 128, 128, 128, 128, 128, 128, 128, 128, 1], 0),
        None
    );
}

#[test]
fn encode_default_is_empty() {
    assert_eq!(encode_test_data(&TestData::default()), Vec::<u8>::new());
    assert_eq!(decode_test_data(&Vec::new()), Ok(TestData::default()));
}

#[test]
fn encode_known_bytes() {
    let d = summary("abcd", 42, None, 0);
    assert_eq!(
        encode_test_data(&d),
        vec![10, 4, 97, 98, 99, 100, 16, 42]
    );
    assert_eq!(decode_test_data(&vec![10, 4, 97, 98, 99, 100, 16, 42]), Ok(d));
}

#[test]
fn encode_all_fields_known_bytes() {
    let d = summary("ff", 1, Some(Timestamp { seconds: 1, nanos: 2 }), 3);
    assert_eq!(
        encode_test_data(&d),
        vec![10, 2, 102, 102, 16, 1, 26, 4, 8, 1, 16, 2, 32, 3]
    );
    assert_eq!(decode_test_data(&encode_test_data(&d)), Ok(d));
}

#[test]
fn timestamp_payload_bytes() {
    assert_eq!(encode_timestamp(&Timestamp { seconds: 1, nanos: 2 }), vec![8, 1, 16, 2]);
    assert_eq!(encode_timestamp(&Timestamp { seconds: 0, nanos: 0 }), Vec::<u8>::new());
    assert_eq!(decode_timestamp(&Vec::new()), Some(Timestamp { seconds: 0, nanos: 0 }));
    assert_eq!(decode_timestamp(&vec![8, 1, 16, 2]), Some(Timestamp { seconds: 1, nanos: 2 }));
}

#[test]
fn round_trip_negative_timestamp() {
    let d = summary("0a", 9, Some(Timestamp { seconds: -1, nanos: -2 }), 0);
    assert_eq!(decode_test_data(&encode_test_data(&d)), Ok(d));
}

#[test]
fn round_trip_extreme_values() {
    let cases = vec![
        summary("", u64::MAX, None, u64::MAX),
        summary("00ff10", 0, Some(Timestamp { seconds: i64::MIN, nanos: i32::MIN }), 0),
        summary("deadbeef", 1, Some(Timestamp { seconds: i64::MAX, nanos: i32::MAX }), 2),
        summary("", 0, Some(Timestamp { seconds: 0, nanos: 0 }), 0),
    ];
    for d in cases {
        assert_eq!(decode_test_data(&encode_test_data(&d)), Ok(d));
    }
}

#[test]
fn decode_rejects_malformed_input() {
    // unknown tag
    assert_eq!(decode_test_data(&vec![1]), Err(DecodeError::Malformed));
    // truncated varint after a tag
    assert_eq!(decode_test_data(&vec![16, 128]), Err(DecodeError::Malformed));
    // text length runs past the end
    assert_eq!(decode_test_data(&vec![10, 5, 97]), Err(DecodeError::Malformed));
    // text holding a byte that is no ASCII code
    assert_eq!(decode_test_data(&vec![10, 1, 200]), Err(DecodeError::Malformed));
    // trailing garbage after a good field
    assert_eq!(decode_test_data(&vec![16, 42, 0]), Err(DecodeError::Malformed));
    // fields out of canonical order
    assert_eq!(decode_test_data(&vec![16, 42, 10, 1, 97]), Err(DecodeError::Malformed));
    // nanoseconds image that fits no 32-bit value
    assert_eq!(
        decode_test_data(&vec![26, 6, 16, 128, 128, 128, 128, 16]),
        Err(DecodeError::Malformed)
    );
}

#[test]
fn wire_matches_reference_encoder() {
    let mut buf: Vec<u8> = Vec::new();
    prost::encoding::string::encode(1, &String::from("abcd"), &mut buf);
    prost::encoding::uint64::encode(2, &42u64, &mut buf);
    let ts = prost_types::Timestamp { seconds: 1, nanos: 2 };
    prost::encoding::message::encode(3, &ts, &mut buf);
    prost::encoding::uint64::encode(4, &7u64, &mut buf);
    let d = summary("abcd", 42, Some(Timestamp { seconds: 1, nanos: 2 }), 7);
    assert_eq!(encode_test_data(&d), buf);
    assert_eq!(decode_test_data(&buf), Ok(d));
}

#[test]
fn wire_matches_reference_encoder_negative_timestamp() {
    let mut buf: Vec<u8> = Vec::new();
    let ts = prost_types::Timestamp { seconds: -1, nanos: -2 };
    prost::encoding::message::encode(3, &ts, &mut buf);
    let d = summary("", 0, Some(Timestamp { seconds: -1, nanos: -2 }), 0);
    assert_eq!(encode_test_data(&d), buf);
    assert_eq!(decode_test_data(&buf), Ok(d));
}

#[test]
fn decode_accepts_redundant_zero_fields() {
    // a present field holding its default value is not canonical output,
    // but the decoder reads it
    assert_eq!(decode_test_data(&vec![16, 0]), Ok(TestData::default()));
    assert_eq!(
        decode_test_data(&vec![26, 0]),
        Ok(summary("", 0, Some(Timestamp { seconds: 0, nanos: 0 }), 0))
    );
}
