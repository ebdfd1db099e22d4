//! A codec for the chunked framing of PNG files.
//!
//! A PNG stream is an eight-byte signature followed by chunks. Each chunk
//! carries a four-byte type tag, a payload and a CRC-32 checksum. This crate
//! decodes such a stream into typed chunks, lets a caller add, find and
//! remove chunks, and encodes the result back into bytes.

pub mod args;
pub mod checksum;
pub mod chunk;
pub mod chunk_type;
pub mod commands;
pub mod endian;
pub mod error;
pub mod png;
pub mod text;
