//! Block summarizer: turns a decoded chain block into a reduced summary
//! record, with a verified hex encoding and a verified tag-based binary
//! codec for the summary schema.

pub mod messages;
pub mod text;
pub mod varint;
pub mod codec;
pub mod summarize;
