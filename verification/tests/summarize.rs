use substreams_acme::messages::{Attribute, BigInt, Block, BlockHeader, Event, TestData, Transaction};
use substreams_acme::summarize::{height_to_block_number, summarize, SummarizeError};
use substreams_acme::text::hex_encode;

fn header_with(hash: Vec<u8>, height: u64) -> BlockHeader {
    BlockHeader {
        height,
        hash,
        previous_num: None,
        previous_hash: None,
        final_num: 0,
        final_hash: Vec::new(),
        timestamp: 0,
    }
}

fn sample_transaction() -> Transaction {
    Transaction {
        kind: String::from("transfer"),
        hash: String::from("0xfeed"),
        sender: String::from("alice"),
        receiver: String::from("bob"),
        amount: Some(BigInt { bytes: vec![1, 0] }),
        fee: Some(BigInt { bytes: vec![7] }),
        success: true,
        events: vec![Event {
            kind: String::from("log"),
            attributes: vec![Attribute {
                key: String::from("k"),
                value: String::from("v"),
            }],
        }],
    }
}

#[test]
fn scenario_hash_abcd_height_42() {
    let block = Block {
        header: Some(header_with(vec![0xAB, 0xCD], 42)),
        transactions: Vec::new(),
    };
    let got = summarize(block).unwrap();
    assert_eq!(got.block_hash, "abcd");
    assert_eq!(got.block_number, 42);
    assert_eq!(got.block_timestamp, None);
    assert_eq!(got.transactions_len, 0);
}

#[test]
fn scenario_empty_hash_zero_height() {
    let block = Block {
        header: Some(header_with(Vec::new(), 0)),
        transactions: Vec::new(),
    };
    let got = summarize(block).unwrap();
    assert_eq!(got.block_hash, "");
    assert_eq!(got.block_number, 0);
    assert_eq!(got.block_timestamp, None);
    assert_eq!(got.transactions_len, 0);
}

#[test]
fn scenario_missing_header_errors() {
    let block = Block {
        header: None,
        transactions: vec![sample_transaction()],
    };
    assert_eq!(summarize(block), Err(SummarizeError::MissingRequiredField));
}

#[test]
fn summarize_twice_same_output() {
    let make = || Block {
        header: Some(header_with(vec![0x00, 0x1F, 0xF0, 0x9A], 7)),
        transactions: vec![sample_transaction()],
    };
    let first = summarize(make());
    let second = summarize(make());
    assert_eq!(first, second);
    assert_eq!(first.unwrap().block_hash, "001ff09a");
}

#[test]
fn transactions_and_timestamp_left_unset() {
    let mut header = header_with(vec![0x01], 5);
    header.timestamp = 1_700_000_000;
    let block = Block {
        header: Some(header),
        transactions: vec![sample_transaction(), sample_transaction()],
    };
    let got = summarize(block).unwrap();
    assert_eq!(got.block_hash, "01");
    assert_eq!(got.block_number, 5);
    assert_eq!(got.block_timestamp, None);
    assert_eq!(got.transactions_len, 0);
}

#[test]
fn largest_height_is_kept() {
    let block = Block {
        header: Some(header_with(vec![0xFF], u64::MAX)),
        transactions: Vec::new(),
    };
    let got = summarize(block).unwrap();
    assert_eq!(got.block_hash, "ff");
    assert_eq!(got.block_number, u64::MAX);
}

#[test]
fn height_conversion_is_exact() {
    assert_eq!(height_to_block_number(0), Ok(0));
    assert_eq!(height_to_block_number(42), Ok(42));
    assert_eq!(height_to_block_number(u64::MAX), Ok(u64::MAX));
}

#[test]
fn hex_encode_all_nibbles() {
    let bytes: Vec<u8> = vec![0x01, 0x23, 0x45, 0x67, 0x89, 0xAB, 0xCD, 0xEF];
    assert_eq!(hex_encode(&bytes), "0123456789abcdef");
    assert_eq!(hex_encode(&Vec::new()), "");
    assert_eq!(hex_encode(&vec![0x00]), "00");
}

#[test]
fn summary_default_is_all_unset() {
    let d = TestData::default();
    assert_eq!(d.block_hash, "");
    assert_eq!(d.block_number, 0);
    assert_eq!(d.block_timestamp, None);
    assert_eq!(d.transactions_len, 0);
}
