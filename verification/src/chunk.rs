//! One framed record of a PNG stream: length, type, payload and checksum.

use crate::checksum::{checksum, crc32_iso_hdlc};
use crate::chunk_type::ChunkType;
use crate::endian::{
    be_bytes, be_value, from_be_bytes, lemma_bytes_of_value, lemma_value_of_bytes, to_be_bytes,
};
use crate::error::ChunkError;
use vstd::prelude::*;
use vstd::slice::{slice_subrange, slice_to_vec};
use vstd::utf8::{decode_utf8, encode_utf8_decode_utf8, valid_utf8};

verus! {

/// What a chunk is, apart from how it is stored: its type, its payload and
/// its checksum. The declared length is the length of the payload.
pub struct ChunkView {
    pub chunk_type: ChunkType,
    pub data: Seq<u8>,
    pub crc: u32,
}

impl ChunkView {
    /// The chunk of the given type and payload, under their checksum.
    pub open spec fn new(chunk_type: ChunkType, data: Seq<u8>) -> ChunkView {
        ChunkView { chunk_type, data, crc: crc32_iso_hdlc(chunk_type@ + data) }
    }

    /// The bytes that the checksum covers: the type, then the payload.
    pub open spec fn checked_bytes(self) -> Seq<u8> {
        self.chunk_type@ + self.data
    }

    /// The payload fits the length field and the checksum is that of the
    /// type and payload.
    pub open spec fn wf(self) -> bool {
        &&& self.data.len() <= u32::MAX
        &&& self.crc == crc32_iso_hdlc(self.checked_bytes())
    }

    /// The frame of the chunk: length, type, payload, checksum; the two
    /// numbers big-endian.
    pub open spec fn encode(self) -> Seq<u8> {
        be_bytes(self.data.len() as u32) + self.chunk_type@ + self.data + be_bytes(self.crc)
    }

    /// The payload length that the first four bytes of `bytes` announce.
    pub open spec fn declared_length(bytes: Seq<u8>) -> int
        recommends
            bytes.len() >= 4,
    {
        be_value(bytes) as int
    }

    /// Whether `bytes` ends before the frame that it announces: before the
    /// type is complete, or before the payload and checksum are.
    pub open spec fn truncated(bytes: Seq<u8>) -> bool {
        bytes.len() < 8 || bytes.len() < 8 + Self::declared_length(bytes) + 4
    }

    /// The fields of the frame at the start of `bytes`, its checksum not yet
    /// compared. Bytes behind the frame are not looked at.
    pub open spec fn frame(bytes: Seq<u8>) -> ChunkView
        recommends
            !Self::truncated(bytes),
    {
        let n = Self::declared_length(bytes);
        ChunkView {
            chunk_type: ChunkType::of_bytes(bytes.subrange(4, 8)),
            data: bytes.subrange(8, 8 + n),
            crc: be_value(bytes.subrange(8 + n, 12 + n)),
        }
    }

    /// The chunk that the frame at the start of `bytes` holds, or why there is
    /// none.
    pub open spec fn decode(bytes: Seq<u8>) -> Result<ChunkView, ChunkError> {
        if Self::truncated(bytes) {
            Err(ChunkError::Truncated)
        } else if Self::frame(bytes).crc != crc32_iso_hdlc(Self::frame(bytes).checked_bytes()) {
            Err(ChunkError::ChecksumMismatch)
        } else {
            Ok(Self::frame(bytes))
        }
    }
}

/// The frame of a chunk starts with the payload's length and is twelve bytes
/// longer than the payload.
pub proof fn lemma_encode_layout(v: ChunkView)
    requires
        v.data.len() <= u32::MAX,
    ensures
        v.encode().len() == 12 + v.data.len(),
        ChunkView::declared_length(v.encode()) == v.data.len(),
        ChunkView::frame(v.encode()) == v,
{
    let frame = v.encode();
    let n = v.data.len() as int;
    lemma_value_of_bytes(n as u32);
    lemma_value_of_bytes(v.chunk_type.sum);
    lemma_value_of_bytes(v.crc);
    assert(frame.subrange(0, 4) =~= be_bytes(n as u32));
    assert(be_value(frame) == be_value(frame.subrange(0, 4)));
    assert(frame.subrange(4, 8) =~= v.chunk_type@);
    assert(frame.subrange(8, 8 + n) =~= v.data);
    assert(frame.subrange(8 + n, 12 + n) =~= be_bytes(v.crc));
}

/// Bytes behind a complete frame change nothing of what the frame decodes
/// to.
pub proof fn lemma_decode_ignores_rest(bytes: Seq<u8>, rest: Seq<u8>)
    requires
        !ChunkView::truncated(bytes),
    ensures
        ChunkView::decode(bytes + rest) == ChunkView::decode(bytes),
{
    let n = ChunkView::declared_length(bytes) as int;
    let all = bytes + rest;
    assert(be_value(all) == be_value(bytes));
    assert(all.subrange(4, 8) =~= bytes.subrange(4, 8));
    assert(all.subrange(8, 8 + n) =~= bytes.subrange(8, 8 + n));
    assert(all.subrange(8 + n, 12 + n) =~= bytes.subrange(8 + n, 12 + n));
}

/// Round trip: a chunk built from any type and any payload that fits the
/// length field encodes to a frame that decodes to the same chunk, with the
/// same type, payload and length.
pub proof fn lemma_decode_encode(chunk_type: ChunkType, data: Seq<u8>)
    requires
        data.len() <= u32::MAX,
    ensures
        ChunkView::decode(ChunkView::new(chunk_type, data).encode()) == Ok::<
            ChunkView,
            ChunkError,
        >(ChunkView::new(chunk_type, data)),
{
    lemma_encode_layout(ChunkView::new(chunk_type, data));
}

/// Round trip for any well-formed chunk, whatever follows its frame.
pub proof fn lemma_decode_encoded(v: ChunkView, rest: Seq<u8>)
    requires
        v.wf(),
    ensures
        ChunkView::decode(v.encode() + rest) == Ok::<ChunkView, ChunkError>(v),
{
    lemma_encode_layout(v);
    lemma_decode_ignores_rest(v.encode(), rest);
}

/// What decodes is well formed, and its frame is the start of the buffer.
pub proof fn lemma_decoded_is_prefix(bytes: Seq<u8>)
    requires
        ChunkView::decode(bytes) is Ok,
    ensures
        ChunkView::decode(bytes)->Ok_0.wf(),
        12 <= 12 + ChunkView::declared_length(bytes) <= bytes.len(),
        ChunkView::decode(bytes)->Ok_0.encode() == bytes.subrange(
            0,
            12 + ChunkView::declared_length(bytes),
        ),
{
    let v = ChunkView::frame(bytes);
    let n = ChunkView::declared_length(bytes) as int;
    lemma_bytes_of_value(bytes.subrange(0, 4));
    lemma_bytes_of_value(bytes.subrange(4, 8));
    lemma_bytes_of_value(bytes.subrange(8 + n, 12 + n));
    assert(be_value(bytes) == be_value(bytes.subrange(0, 4)));
    assert(v.encode() =~= bytes.subrange(0, 12 + n));
}

/// Truncation: a buffer shorter than the eight bytes of length and type, or
/// shorter than those eight, the declared payload and the four checksum bytes
/// together, decodes to `Truncated`.
pub proof fn lemma_short_buffer_is_truncated(bytes: Seq<u8>)
    requires
        bytes.len() < 8 || bytes.len() < 8 + ChunkView::declared_length(bytes) + 4,
    ensures
        ChunkView::decode(bytes) == Err::<ChunkView, ChunkError>(ChunkError::Truncated),
{
}

/// Every proper prefix of a chunk's frame decodes to `Truncated`.
pub proof fn lemma_cut_frame_is_truncated(v: ChunkView, n: int)
    requires
        v.data.len() <= u32::MAX,
        0 <= n < v.encode().len(),
    ensures
        ChunkView::decode(v.encode().take(n)) == Err::<ChunkView, ChunkError>(
            ChunkError::Truncated,
        ),
{
    lemma_encode_layout(v);
    if n >= 8 {
        assert(be_value(v.encode().take(n)) == be_value(v.encode()));
    }
}

/// What the checksum guards. Take the frame of a well-formed chunk and change
/// bytes of its type or payload, leaving the length and the stored checksum
/// as they are. The result is rejected with `ChecksumMismatch` exactly when
/// the changed bytes have another checksum than the stored one; a change
/// that keeps the checksum decodes.
pub proof fn lemma_change_detected_iff_checksum_differs(v: ChunkView, changed: Seq<u8>)
    requires
        v.wf(),
        changed.len() == v.encode().len(),
        changed.subrange(0, 4) == v.encode().subrange(0, 4),
        changed.subrange(v.encode().len() - 4, v.encode().len() as int) == v.encode().subrange(
            v.encode().len() - 4,
            v.encode().len() as int,
        ),
    ensures
        crc32_iso_hdlc(changed.subrange(4, changed.len() - 4)) != v.crc ==> ChunkView::decode(
            changed,
        ) == Err::<ChunkView, ChunkError>(ChunkError::ChecksumMismatch),
        crc32_iso_hdlc(changed.subrange(4, changed.len() - 4)) == v.crc ==> ChunkView::decode(
            changed,
        ) is Ok,
{
    let n = v.data.len() as int;
    lemma_encode_layout(v);
    assert(be_value(changed) == be_value(changed.subrange(0, 4)));
    assert(be_value(v.encode()) == be_value(v.encode().subrange(0, 4)));
    assert(ChunkView::declared_length(changed) == n);
    let frame = ChunkView::frame(changed);
    lemma_bytes_of_value(changed.subrange(4, 8));
    assert(frame.checked_bytes() =~= changed.subrange(4, 8 + n));
    assert(frame.crc == v.crc);
}

/// A chunk: a typed payload with its length and checksum.
#[derive(Debug, PartialEq, Eq)]
pub struct Chunk {
    len: u32,
    chunk_type: ChunkType,
    data: Vec<u8>,
    crc: u32,
}

impl View for Chunk {
    type V = ChunkView;

    closed spec fn view(&self) -> ChunkView {
        ChunkView { chunk_type: self.chunk_type, data: self.data@, crc: self.crc }
    }
}

impl Chunk {
    /// Every chunk declares the length of its payload and carries the
    /// checksum of its type and payload.
    #[verifier::type_invariant]
    spec fn inv(&self) -> bool {
        &&& self.len == self.data@.len()
        &&& self.crc == crc32_iso_hdlc(self.chunk_type@ + self.data@)
    }

    /// Builds the chunk of the given type and payload and computes its
    /// checksum. The payload must fit the 32-bit length field; nothing else is
    /// asked of it.
    pub fn new(chunk_type: ChunkType, data: Vec<u8>) -> (chunk: Chunk)
        requires
            data@.len() <= u32::MAX,
        ensures
            chunk@ == ChunkView::new(chunk_type, data@),
            chunk@.wf(),
    {
        let tag = chunk_type.bytes();
        let mut buff: Vec<u8> = Vec::new();
        buff.extend_from_slice(&tag);
        buff.extend_from_slice(&data);
        assert(buff@ =~= chunk_type@ + data@);
        let crc = checksum(&buff);
        Chunk::with_checksum(chunk_type, data, crc)
    }

    /// Builds the chunk of the given type and payload around a checksum that
    /// is known to be theirs.
    pub fn with_checksum(chunk_type: ChunkType, data: Vec<u8>, crc: u32) -> (chunk: Chunk)
        requires
            data@.len() <= u32::MAX,
            crc == crc32_iso_hdlc(chunk_type@ + data@),
        ensures
            chunk@ == (ChunkView { chunk_type, data: data@, crc }),
            chunk@.wf(),
    {
        let len = data.len() as u32;
        Chunk { len, chunk_type, data, crc }
    }

    /// Accepts a decoded frame if the checksum `stored` in it is the checksum
    /// `computed` from its type and payload, and rejects it otherwise.
    pub fn assemble(chunk_type: ChunkType, data: Vec<u8>, stored: u32, computed: u32) -> (r:
        Result<Chunk, ChunkError>)
        requires
            data@.len() <= u32::MAX,
            computed == crc32_iso_hdlc(chunk_type@ + data@),
        ensures
            match r {
                Ok(chunk) => {
                    &&& stored == computed
                    &&& chunk@ == (ChunkView { chunk_type, data: data@, crc: stored })
                    &&& chunk@.wf()
                },
                Err(e) => stored != computed && e == ChunkError::ChecksumMismatch,
            },
    {
        if stored == computed {
            Ok(Chunk::with_checksum(chunk_type, data, stored))
        } else {
            Err(ChunkError::ChecksumMismatch)
        }
    }

    /// Decodes the frame at the start of `bytes`: a big-endian length, four
    /// type bytes, that many payload bytes and a big-endian checksum. Bytes
    /// behind the frame are left alone.
    ///
    /// Fails with `Truncated` when `bytes` ends before the frame does, and
    /// with `ChecksumMismatch` when the stored checksum is not the checksum
    /// of the type and payload. The type is taken as it stands: any four
    /// bytes are accepted.
    pub fn try_from(bytes: &[u8]) -> (r: Result<Chunk, ChunkError>)
        ensures
            match r {
                Ok(chunk) => ChunkView::decode(bytes@) == Ok::<ChunkView, ChunkError>(chunk@),
                Err(e) => ChunkView::decode(bytes@) == Err::<ChunkView, ChunkError>(e),
            },
    {
        if bytes.len() < 8 {
            return Err(ChunkError::Truncated);
        }
        let len = from_be_bytes([bytes[0], bytes[1], bytes[2], bytes[3]]);
        assert(len == be_value(bytes@)) by {
            assert([bytes[0], bytes[1], bytes[2], bytes[3]]@ =~= bytes@.subrange(0, 4));
        }
        if bytes.len() - 8 < 4 || bytes.len() - 12 < len as usize {
            return Err(ChunkError::Truncated);
        }
        let data_end: usize = 8 + len as usize;
        let tag = [bytes[4], bytes[5], bytes[6], bytes[7]];
        let chunk_type = ChunkType::from(tag);
        let data = slice_to_vec(slice_subrange(bytes, 8, data_end));
        let stored = from_be_bytes(
            [bytes[data_end], bytes[data_end + 1], bytes[data_end + 2], bytes[data_end + 3]],
        );
        let computed = checksum(slice_subrange(bytes, 4, data_end));
        proof {
            let frame = ChunkView::frame(bytes@);
            assert(tag@ =~= bytes@.subrange(4, 8));
            assert(chunk_type == frame.chunk_type);
            lemma_bytes_of_value(tag@);
            assert(chunk_type@ == tag@);
            assert(data@ == frame.data);
            assert([bytes[data_end as int], bytes[data_end + 1], bytes[data_end + 2], bytes[data_end
                + 3]]@ =~= bytes@.subrange(data_end as int, data_end + 4));
            assert(stored == frame.crc);
            assert(bytes@.subrange(4, data_end as int) =~= chunk_type@ + data@);
        }
        Chunk::assemble(chunk_type, data, stored, computed)
    }

    /// The length that the chunk declares: the length of its payload.
    pub fn length(&self) -> (len: u32)
        ensures
            len == self@.data.len(),
    {
        proof {
            use_type_invariant(self);
        }
        self.len
    }

    /// The checksum of the chunk: the CRC-32 of its type and payload.
    pub fn crc(&self) -> (crc: u32)
        ensures
            crc == self@.crc,
            crc == crc32_iso_hdlc(self@.checked_bytes()),
    {
        proof {
            use_type_invariant(self);
        }
        self.crc
    }

    /// The type of the chunk.
    pub fn chunk_type(&self) -> (chunk_type: &ChunkType)
        ensures
            *chunk_type == self@.chunk_type,
    {
        &self.chunk_type
    }

    /// The payload of the chunk.
    pub fn data(&self) -> (data: &Vec<u8>)
        ensures
            data@ == self@.data,
    {
        &self.data
    }

    /// The payload as text.
    ///
    /// Fails with `InvalidUtf8` exactly when the payload is not valid UTF-8.
    pub fn data_as_string(&self) -> (r: Result<String, ChunkError>)
        ensures
            match r {
                Ok(text) => valid_utf8(self@.data) && text@ == decode_utf8(self@.data),
                Err(e) => !valid_utf8(self@.data) && e == ChunkError::InvalidUtf8,
            },
    {
        let copy = self.data.clone();
        assert(copy@ =~= self.data@);
        match String::from_utf8(copy) {
            Ok(text) => {
                proof {
                    encode_utf8_decode_utf8(text@);
                }
                Ok(text)
            },
            Err(_) => Err(ChunkError::InvalidUtf8),
        }
    }

    /// The frame of the chunk: big-endian length, type, payload, big-endian
    /// checksum.
    pub fn as_bytes(&self) -> (bytes: Vec<u8>)
        ensures
            bytes@ == self@.encode(),
            self@.wf(),
    {
        proof {
            use_type_invariant(self);
        }
        let len_b = to_be_bytes(self.len);
        let tag = self.chunk_type.bytes();
        let crc_b = to_be_bytes(self.crc);

        let mut bytes = Vec::new();
        bytes.extend_from_slice(&len_b);
        bytes.extend_from_slice(&tag);
        bytes.extend_from_slice(&self.data);
        bytes.extend_from_slice(&crc_b);
        assert(bytes@ =~= self@.encode());
        bytes
    }
}

} // verus!
