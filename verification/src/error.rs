//! The failures that decoding and lookup can report.

use vstd::prelude::*;

verus! {

/// A chunk-type text is not exactly four ASCII letters.
#[derive(Debug, Clone, Copy, PartialEq, Eq, Structural)]
pub struct InvalidType;

/// Why a single chunk could not be decoded or read.
#[derive(Debug, Clone, Copy, PartialEq, Eq, Structural)]
pub enum ChunkError {
    /// The stored checksum differs from the checksum of the type and payload.
    ChecksumMismatch,
    /// The buffer ends before the frame that its length field announces.
    Truncated,
    /// The payload was asked for as text and is not valid UTF-8.
    InvalidUtf8,
}

/// Why a container could not be parsed or changed.
#[derive(Debug, Clone, Copy, PartialEq, Eq, Structural)]
pub enum ContainerError {
    /// The buffer does not start with the eight signature bytes.
    BadSignature,
    /// A chunk inside the container failed to decode.
    Chunk(ChunkError),
    /// No chunk of the requested type is present.
    NotFound,
}

/// Why an operation on a file's content could not be carried out.
#[derive(Debug, Clone, Copy, PartialEq, Eq, Structural)]
pub enum CommandError {
    /// The chunk-type text is not four ASCII letters.
    InvalidType,
    /// The content is no PNG stream, or holds no chunk of the wanted type.
    Container(ContainerError),
    /// A chunk that should hold a message holds no text.
    Chunk(ChunkError),
    /// The message has more bytes than the length field of a chunk can
    /// count.
    MessageTooLong,
}

} // verus!
