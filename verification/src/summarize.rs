//! The block summarizer: reduces a decoded block to its summary record.

use vstd::prelude::*;
use crate::messages::{Block, TestData, TestDataView, Timestamp};
use crate::text::{hex_encode, hex_of, lemma_hex_of_ascii};

verus! {

/// Why summarization failed.
#[derive(Clone, Copy, PartialEq, Eq, Structural, Debug)]
pub enum SummarizeError {
    /// The block has no header.
    MissingRequiredField,
    /// A numeric field does not fit the target integer type.
    NumericConversionError,
}

/// What summarization returns: with a header present, the summary whose
/// hash text is the lowercase hex of the header's hash bytes and whose
/// number is the header's height, the timestamp left absent and the
/// transaction count left zero; with the header absent, the
/// missing-field error.
pub open spec fn spec_summarize(b: Block) -> Result<TestDataView, SummarizeError> {
    match b.header {
        None => Err(SummarizeError::MissingRequiredField),
        Some(h) => Ok(
            TestDataView {
                block_hash: hex_of(h.hash@),
                block_number: h.height,
                block_timestamp: None::<Timestamp>,
                transactions_len: 0u64,
            },
        ),
    }
}

/// The height, converted to the summary's unsigned 64-bit representation.
/// Both sides are 64-bit unsigned, so the conversion always succeeds; it
/// is still checked through a wider type rather than assumed.
pub fn height_to_block_number(height: u64) -> (r: Result<u64, SummarizeError>)
    ensures
        r == Ok::<u64, SummarizeError>(height),
{
    let wide = height as u128;
    if wide <= u64::MAX as u128 {
        Ok(wide as u64)
    } else {
        Err(SummarizeError::NumericConversionError)
    }
}

/// Reduces a decoded block to its summary record, or fails fast when the
/// header is absent. A pure function of its input, with no side effects.
pub fn summarize(block: Block) -> (r: Result<TestData, SummarizeError>)
    ensures
        (match (r, spec_summarize(block)) {
            (Ok(d), Ok(v)) => d@ == v && d@.wf(),
            (Err(e), Err(f)) => e == f,
            _ => false,
        }),
{
    match block.header {
        None => Err(SummarizeError::MissingRequiredField),
        Some(header) => {
            let block_hash = hex_encode(&header.hash);
            let block_number = match height_to_block_number(header.height) {
                Ok(n) => n,
                Err(e) => {
                    return Err(e);
                },
            };
            Ok(
                TestData {
                    block_hash,
                    block_number,
                    block_timestamp: None,
                    transactions_len: 0,
                },
            )
        },
    }
}

/// Summarization is a pure function of its input: two byte-for-byte
/// identical blocks summarize to the same result.
pub proof fn lemma_summarize_deterministic(b1: Block, b2: Block)
    requires
        b1 == b2,
    ensures
        spec_summarize(b1) == spec_summarize(b2),
{
}

/// A summary produced from a block is well formed: its hash text is
/// ASCII, so it can always be encoded with the wire codec.
pub proof fn lemma_summary_wf(b: Block)
    ensures
        (spec_summarize(b) matches Ok(v) ==> v.wf()),
{
    match b.header {
        None => {},
        Some(h) => {
            lemma_hex_of_ascii(h.hash@);
        },
    }
}

} // verus!
