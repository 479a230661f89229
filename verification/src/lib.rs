//! Readers for the columnar "fast field" storage of a search index.
//!
//! A fast field stores one `u64` per document, compressed by one of several
//! codecs. The readers here open such a column from its bytes, decode the value
//! of a document, fill ranges of values and report the column's bounds.
pub mod fast_value;
pub mod le_bytes;
pub mod bits;
pub mod codec;
pub mod blockwise_footer;
pub mod codecs;
pub mod gcd;
pub mod reader;
pub mod reader_u128;
pub mod laws;
