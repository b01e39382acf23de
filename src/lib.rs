//! A codec for a chunk-based container format in the style of PNG: a fixed
//! signature followed by length-prefixed, checksummed chunks.
pub mod chunk;
pub mod chunk_type;
pub mod png;
