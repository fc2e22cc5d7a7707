//! The message schemas: the decoded block structures consumed by the
//! summarizer and the summary record it produces.

use vstd::prelude::*;
use vstd::utf8::is_ascii_chars;

verus! {

/// Header of a decoded block: the block's own height and hash, optional
/// chain-linkage pointers, a finality pointer and an epoch-seconds timestamp.
#[derive(Clone, PartialEq, Eq, Debug)]
pub struct BlockHeader {
    pub height: u64,
    pub hash: Vec<u8>,
    pub previous_num: Option<u64>,
    pub previous_hash: Option<Vec<u8>>,
    pub final_num: u64,
    pub final_hash: Vec<u8>,
    pub timestamp: u64,
}

/// A decoded unit of chain data: an optional header and an ordered list of
/// transactions. Summarization requires the header to be present.
#[derive(Clone, PartialEq, Eq, Debug)]
pub struct Block {
    pub header: Option<BlockHeader>,
    pub transactions: Vec<Transaction>,
}

/// A transaction of a block. The summarizer reads nothing of it beyond the
/// count of transactions in the block.
#[derive(Clone, PartialEq, Eq, Debug)]
pub struct Transaction {
    pub kind: String,
    pub hash: String,
    pub sender: String,
    pub receiver: String,
    pub amount: Option<BigInt>,
    pub fee: Option<BigInt>,
    pub success: bool,
    pub events: Vec<Event>,
}

/// An event attached to a transaction; key-value metadata only.
#[derive(Clone, PartialEq, Eq, Debug)]
pub struct Event {
    pub kind: String,
    pub attributes: Vec<Attribute>,
}

/// A key-value pair of an event.
#[derive(Clone, PartialEq, Eq, Debug)]
pub struct Attribute {
    pub key: String,
    pub value: String,
}

/// An arbitrary-precision integer as a raw big-endian byte sequence.
/// No arithmetic is defined on it here.
#[derive(Clone, PartialEq, Eq, Debug)]
pub struct BigInt {
    pub bytes: Vec<u8>,
}

/// A calendar timestamp: seconds since the epoch and a nanosecond part.
#[derive(Clone, Copy, PartialEq, Eq, Structural, Debug)]
pub struct Timestamp {
    pub seconds: i64,
    pub nanos: i32,
}

/// The summary record produced for a block: the header's hash as lowercase
/// hex text, the height as a plain number, and two fields the transform
/// leaves unset (timestamp absent, transaction count zero).
#[derive(Clone, PartialEq, Eq, Debug)]
pub struct TestData {
    pub block_hash: String,
    pub block_number: u64,
    pub block_timestamp: Option<Timestamp>,
    pub transactions_len: u64,
}

/// The mathematical model of a `TestData` value: the hash text as a
/// sequence of characters, the scalar fields as themselves.
#[verifier::ext_equal]
pub ghost struct TestDataView {
    pub block_hash: Seq<char>,
    pub block_number: u64,
    pub block_timestamp: Option<Timestamp>,
    pub transactions_len: u64,
}

impl TestDataView {
    /// A well-formed summary holds only ASCII text in its hash field; the
    /// schema's text field carries lowercase hex digits.
    pub open spec fn wf(self) -> bool {
        is_ascii_chars(self.block_hash)
    }
}

impl View for TestData {
    type V = TestDataView;

    open spec fn view(&self) -> TestDataView {
        TestDataView {
            block_hash: self.block_hash@,
            block_number: self.block_number,
            block_timestamp: self.block_timestamp,
            transactions_len: self.transactions_len,
        }
    }
}

impl Default for TestData {
    /// The all-unset summary: empty hash text, zero height, no timestamp,
    /// zero transaction count.
    fn default() -> (d: TestData)
        ensures
            d@ == (TestDataView {
                block_hash: Seq::<char>::empty(),
                block_number: 0u64,
                block_timestamp: None::<Timestamp>,
                transactions_len: 0u64,
            }),
    {
        TestData {
            block_hash: String::new(),
            block_number: 0,
            block_timestamp: None,
            transactions_len: 0,
        }
    }
}

} // verus!
