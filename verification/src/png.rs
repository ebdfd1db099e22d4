//! A whole PNG stream: the signature and the chunks behind it, in order.

use crate::chunk::{
    lemma_decode_encoded, lemma_decoded_is_prefix, lemma_encode_layout, Chunk, ChunkView,
};
use crate::chunk_type::ChunkType;
use crate::error::ContainerError;
use std::str::FromStr;
use vstd::prelude::*;
use vstd::slice::slice_subrange;

verus! {

/// The eight bytes that every PNG stream starts with.
pub const STANDARD_HEADER: [u8; 8] = [137, 80, 78, 71, 13, 10, 26, 10];

/// The signature as a sequence: `89 50 4E 47 0D 0A 1A 0A`.
pub open spec fn signature() -> Seq<u8> {
    seq![0x89u8, 0x50, 0x4e, 0x47, 0x0d, 0x0a, 0x1a, 0x0a]
}

/// Every chunk of the sequence is well formed.
pub open spec fn all_wf(chunks: Seq<ChunkView>) -> bool {
    forall|i: int| 0 <= i < chunks.len() ==> (#[trigger] chunks[i]).wf()
}

/// The frames of the chunks, one after the other.
pub open spec fn encode_all(chunks: Seq<ChunkView>) -> Seq<u8>
    decreases chunks.len(),
{
    if chunks.len() == 0 {
        Seq::empty()
    } else {
        chunks.first().encode() + encode_all(chunks.drop_first())
    }
}

/// The stream of a container: the signature, then the frames of its chunks
/// in order.
pub open spec fn serialize(chunks: Seq<ChunkView>) -> Seq<u8> {
    signature() + encode_all(chunks)
}

/// `found` in front of what the rest of a buffer parsed to; a failure in the
/// rest stays that failure.
pub open spec fn after(found: Seq<ChunkView>, rest: Result<Seq<ChunkView>, ContainerError>)
    -> Result<Seq<ChunkView>, ContainerError> {
    match rest {
        Ok(more) => Ok(found + more),
        Err(e) => Err(e),
    }
}

/// The chunks that `bytes` holds, frame after frame until `bytes` is used
/// up, or the failure of the first frame that does not decode.
pub open spec fn parse_chunks(bytes: Seq<u8>) -> Result<Seq<ChunkView>, ContainerError>
    decreases bytes.len(),
{
    if bytes.len() == 0 {
        Ok(Seq::empty())
    } else {
        match ChunkView::decode(bytes) {
            Err(e) => Err(ContainerError::Chunk(e)),
            Ok(v) => after(
                seq![v],
                parse_chunks(bytes.skip(12 + ChunkView::declared_length(bytes))),
            ),
        }
    }
}

/// The chunks of the stream `bytes`: `BadSignature` unless it starts with
/// the signature, else what the bytes behind the signature parse to.
pub open spec fn parse(bytes: Seq<u8>) -> Result<Seq<ChunkView>, ContainerError> {
    if bytes.len() < 8 || bytes.subrange(0, 8) != signature() {
        Err(ContainerError::BadSignature)
    } else {
        parse_chunks(bytes.skip(8))
    }
}

/// `i` is the place of the first chunk of type `t`.
pub open spec fn is_first_of_type(chunks: Seq<ChunkView>, t: ChunkType, i: int) -> bool {
    &&& 0 <= i < chunks.len()
    &&& chunks[i].chunk_type == t
    &&& forall|j: int| 0 <= j < i ==> (#[trigger] chunks[j]).chunk_type != t
}

/// The place of the first chunk of type `t`, if there is one.
pub open spec fn position(chunks: Seq<ChunkView>, t: ChunkType) -> Option<int> {
    if exists|i: int| is_first_of_type(chunks, t, i) {
        Some(choose|i: int| is_first_of_type(chunks, t, i))
    } else {
        None
    }
}

/// The place of the first chunk whose type `text` names. A text that names
/// no type names no chunk.
pub open spec fn position_by_text(chunks: Seq<ChunkView>, text: Seq<char>) -> Option<int> {
    match ChunkType::parse(text) {
        Some(t) => position(chunks, t),
        None => None,
    }
}

/// The first place of a type is the only place that is the first.
pub proof fn lemma_position_is(chunks: Seq<ChunkView>, t: ChunkType, i: int)
    requires
        is_first_of_type(chunks, t, i),
    ensures
        position(chunks, t) == Some(i),
{
    let k = choose|k: int| is_first_of_type(chunks, t, k);
    assert(is_first_of_type(chunks, t, k));
    if k < i {
        assert(chunks[k].chunk_type != t);
    }
    if i < k {
        assert(chunks[i].chunk_type != t);
    }
}

/// Where no chunk has the type, the type has no place.
pub proof fn lemma_position_none(chunks: Seq<ChunkView>, t: ChunkType)
    requires
        forall|j: int| 0 <= j < chunks.len() ==> (#[trigger] chunks[j]).chunk_type != t,
    ensures
        position(chunks, t) is None,
{
}

/// The frames of a sequence with one more chunk at its end are the frames of
/// the sequence, then the frame of that chunk.
pub proof fn lemma_encode_all_push(chunks: Seq<ChunkView>, last: ChunkView)
    ensures
        encode_all(chunks.push(last)) == encode_all(chunks) + last.encode(),
    decreases chunks.len(),
{
    let longer = chunks.push(last);
    if chunks.len() == 0 {
        reveal_with_fuel(encode_all, 2);
        assert(longer.drop_first() =~= Seq::<ChunkView>::empty());
        assert(encode_all(longer) =~= last.encode());
        assert(encode_all(chunks) + last.encode() =~= last.encode());
    } else {
        assert(longer.drop_first() =~= chunks.drop_first().push(last));
        lemma_encode_all_push(chunks.drop_first(), last);
        assert(encode_all(longer) =~= encode_all(chunks) + last.encode());
    }
}

/// The frames of well-formed chunks parse back to those chunks.
pub proof fn lemma_parse_encoded_chunks(chunks: Seq<ChunkView>)
    requires
        all_wf(chunks),
    ensures
        parse_chunks(encode_all(chunks)) == Ok::<Seq<ChunkView>, ContainerError>(chunks),
    decreases chunks.len(),
{
    if chunks.len() == 0 {
        assert(chunks =~= Seq::empty());
    } else {
        let first = chunks.first();
        let rest = chunks.drop_first();
        let bytes = encode_all(chunks);
        assert(first.wf());
        assert(all_wf(rest)) by {
            assert forall|i: int| 0 <= i < rest.len() implies (#[trigger] rest[i]).wf() by {
                assert(rest[i] == chunks[i + 1]);
            }
        }
        lemma_encode_layout(first);
        lemma_decode_encoded(first, encode_all(rest));
        assert(ChunkView::declared_length(bytes) == ChunkView::declared_length(first.encode()));
        assert(bytes.skip(12 + ChunkView::declared_length(bytes)) =~= encode_all(rest));
        lemma_parse_encoded_chunks(rest);
        assert(seq![first] + rest =~= chunks);
    }
}

/// Container round trip: the stream of any sequence of well-formed chunks
/// parses, and gives back the same chunks in the same order under the same
/// signature.
pub proof fn lemma_parse_serialized(chunks: Seq<ChunkView>)
    requires
        all_wf(chunks),
    ensures
        parse(serialize(chunks)) == Ok::<Seq<ChunkView>, ContainerError>(chunks),
        serialize(chunks).subrange(0, 8) == signature(),
{
    let bytes = serialize(chunks);
    assert(bytes.subrange(0, 8) =~= signature());
    assert(bytes.skip(8) =~= encode_all(chunks));
    lemma_parse_encoded_chunks(chunks);
}

/// What a buffer that parses starts with: a frame that decodes, before
/// bytes that parse.
proof fn lemma_parse_chunks_split(bytes: Seq<u8>)
    requires
        bytes.len() > 0,
        parse_chunks(bytes) is Ok,
    ensures
        ChunkView::decode(bytes) is Ok,
        parse_chunks(bytes.skip(12 + ChunkView::declared_length(bytes))) is Ok,
        parse_chunks(bytes)->Ok_0 == seq![ChunkView::decode(bytes)->Ok_0] + parse_chunks(
            bytes.skip(12 + ChunkView::declared_length(bytes)),
        )->Ok_0,
{
}

/// The chunks that a buffer parses to are well formed, and their frames are
/// the buffer, byte for byte.
pub proof fn lemma_encode_parsed_chunks(bytes: Seq<u8>)
    requires
        parse_chunks(bytes) is Ok,
    ensures
        all_wf(parse_chunks(bytes)->Ok_0),
        encode_all(parse_chunks(bytes)->Ok_0) == bytes,
    decreases bytes.len(),
{
    if bytes.len() == 0 {
        assert(parse_chunks(bytes)->Ok_0 =~= Seq::<ChunkView>::empty());
        assert(bytes =~= Seq::<u8>::empty());
    } else {
        let first = ChunkView::decode(bytes)->Ok_0;
        let frame_len = 12 + ChunkView::declared_length(bytes);
        let rest = bytes.skip(frame_len);
        let more = parse_chunks(rest)->Ok_0;
        lemma_parse_chunks_split(bytes);
        lemma_decoded_is_prefix(bytes);
        lemma_encode_parsed_chunks(rest);
        lemma_encode_all_prepend(first, more);
        lemma_all_wf_prepend(first, more);
        lemma_cut_and_join(bytes, frame_len);
    }
}

/// A sequence cut in two and joined again is the sequence.
proof fn lemma_cut_and_join(bytes: Seq<u8>, at: int)
    requires
        0 <= at <= bytes.len(),
    ensures
        bytes.subrange(0, at) + bytes.skip(at) == bytes,
{
    assert(bytes.subrange(0, at) + bytes.skip(at) =~= bytes);
}

/// A well-formed chunk in front of well-formed chunks gives well-formed
/// chunks.
proof fn lemma_all_wf_prepend(first: ChunkView, more: Seq<ChunkView>)
    requires
        first.wf(),
        all_wf(more),
    ensures
        all_wf(seq![first] + more),
{
    let chunks = seq![first] + more;
    assert forall|i: int| 0 <= i < chunks.len() implies (#[trigger] chunks[i]).wf() by {
        if i > 0 {
            assert(chunks[i] == more[i - 1]);
        }
    }
}

/// The frames of a sequence with one more chunk in front are the frame of
/// that chunk, then the frames of the sequence.
proof fn lemma_encode_all_prepend(first: ChunkView, more: Seq<ChunkView>)
    ensures
        encode_all(seq![first] + more) == first.encode() + encode_all(more),
{
    let chunks = seq![first] + more;
    assert(chunks.first() == first);
    assert(chunks.drop_first() =~= more);
}

/// Serializing is the inverse of parsing: the chunks that a stream parses to
/// are well formed, and their stream is the stream that was parsed, byte for
/// byte.
pub proof fn lemma_serialize_parsed(bytes: Seq<u8>)
    requires
        parse(bytes) is Ok,
    ensures
        all_wf(parse(bytes)->Ok_0),
        serialize(parse(bytes)->Ok_0) == bytes,
{
    lemma_encode_parsed_chunks(bytes.skip(8));
    assert(bytes.subrange(0, 8) + bytes.skip(8) =~= bytes);
}

/// A sequence that holds a chunk of a type has a first chunk of that type.
pub proof fn lemma_has_position(chunks: Seq<ChunkView>, t: ChunkType, j: int)
    requires
        0 <= j < chunks.len(),
        chunks[j].chunk_type == t,
    ensures
        position(chunks, t) matches Some(i) && i <= j && is_first_of_type(chunks, t, i),
    decreases j,
{
    if exists|k: int| 0 <= k < j && chunks[k].chunk_type == t {
        let k = choose|k: int| 0 <= k < j && chunks[k].chunk_type == t;
        lemma_has_position(chunks, t, k);
    } else {
        assert(is_first_of_type(chunks, t, j));
        lemma_position_is(chunks, t, j);
    }
}

/// Append and remove are inverse. Put a chunk whose type `text` names at the
/// end of a sequence that holds no chunk of that type. Then the first chunk
/// that `text` names is the new one, at the end, and taking it out leaves
/// the sequence as it was.
pub proof fn lemma_remove_appended(chunks: Seq<ChunkView>, added: ChunkView, text: Seq<char>)
    requires
        ChunkType::parse(text) == Some(added.chunk_type),
        position_by_text(chunks, text) is None,
    ensures
        position_by_text(chunks.push(added), text) == Some(chunks.len() as int),
        chunks.push(added)[chunks.len() as int] == added,
        chunks.push(added).remove(chunks.len() as int) == chunks,
{
    let t = added.chunk_type;
    let longer = chunks.push(added);
    let n = chunks.len() as int;
    assert forall|j: int| 0 <= j < n implies (#[trigger] longer[j]).chunk_type != t by {
        if chunks[j].chunk_type == t {
            lemma_has_position(chunks, t, j);
        }
    }
    lemma_position_is(longer, t, n);
    assert(longer.remove(n) =~= chunks);
}

/// Where the type is present already, the chunk that comes out after an
/// append is the earlier one, and the new chunk stays.
pub proof fn lemma_remove_after_append_takes_first(
    chunks: Seq<ChunkView>,
    added: ChunkView,
    text: Seq<char>,
)
    requires
        ChunkType::parse(text) == Some(added.chunk_type),
        position_by_text(chunks, text) is Some,
    ensures
        position_by_text(chunks.push(added), text) == position_by_text(chunks, text),
{
    let t = added.chunk_type;
    let i = position(chunks, t)->Some_0;
    let longer = chunks.push(added);
    assert(is_first_of_type(chunks, t, i));
    assert(longer[i] == chunks[i]);
    assert forall|j: int| 0 <= j < i implies (#[trigger] longer[j]).chunk_type != t by {
        assert(longer[j] == chunks[j]);
    }
    lemma_position_is(longer, t, i);
}

/// The views of the chunks of a sequence, in its order.
pub open spec fn views(chunks: Seq<Chunk>) -> Seq<ChunkView> {
    Seq::new(chunks.len(), |i: int| chunks[i]@)
}

/// Nothing parses to no chunks.
proof fn lemma_parse_chunks_end(bytes: Seq<u8>, found: Seq<ChunkView>)
    requires
        bytes.len() == 0,
    ensures
        after(found, parse_chunks(bytes)) == Ok::<Seq<ChunkView>, ContainerError>(found),
{
    assert(found + Seq::<ChunkView>::empty() =~= found);
}

/// A buffer whose first frame does not decode fails to parse, for the reason
/// for which the frame does not decode.
proof fn lemma_parse_chunks_fail(bytes: Seq<u8>, found: Seq<ChunkView>)
    requires
        bytes.len() > 0,
        ChunkView::decode(bytes) is Err,
    ensures
        after(found, parse_chunks(bytes)) == Err::<Seq<ChunkView>, ContainerError>(
            ContainerError::Chunk(ChunkView::decode(bytes)->Err_0),
        ),
{
}

/// A buffer whose first frame decodes parses to the chunk of that frame, then
/// to what the bytes behind the frame parse to.
proof fn lemma_parse_chunks_step(bytes: Seq<u8>, found: Seq<ChunkView>)
    requires
        ChunkView::decode(bytes) is Ok,
    ensures
        ChunkView::decode(bytes)->Ok_0.data.len() == ChunkView::declared_length(bytes),
        12 + ChunkView::declared_length(bytes) <= bytes.len(),
        after(found, parse_chunks(bytes)) == after(
            found.push(ChunkView::decode(bytes)->Ok_0),
            parse_chunks(bytes.skip(12 + ChunkView::declared_length(bytes))),
        ),
{
    let v = ChunkView::decode(bytes)->Ok_0;
    match parse_chunks(bytes.skip(12 + ChunkView::declared_length(bytes))) {
        Ok(more) => {
            assert(found + (seq![v] + more) =~= found.push(v) + more);
        },
        Err(_) => {},
    }
}

/// A PNG stream in memory: the signature and the chunks, in file order.
#[derive(Debug, PartialEq, Eq)]
pub struct Png {
    chunks: Vec<Chunk>,
}

impl View for Png {
    type V = Seq<ChunkView>;

    /// The chunks of the container, in order.
    closed spec fn view(&self) -> Seq<ChunkView> {
        views(self.chunks@)
    }
}

impl Png {
    /// The container with the signature and no chunk.
    pub fn new() -> (png: Png)
        ensures
            png@ == Seq::<ChunkView>::empty(),
    {
        let png = Png { chunks: Vec::new() };
        assert(png@ =~= Seq::<ChunkView>::empty());
        png
    }

    /// Parses a whole stream: the signature, then chunks one after the other
    /// until the buffer is used up. The chunks keep the order of the stream.
    ///
    /// Fails with `BadSignature` when the buffer does not start with the
    /// signature, and with the failure of the first chunk that does not
    /// decode, wrapped in `ContainerError::Chunk`.
    pub fn try_from(bytes: &[u8]) -> (r: Result<Png, ContainerError>)
        ensures
            match r {
                Ok(png) => parse(bytes@) == Ok::<Seq<ChunkView>, ContainerError>(png@),
                Err(e) => parse(bytes@) == Err::<Seq<ChunkView>, ContainerError>(e),
            },
    {
        if bytes.len() < 8 {
            return Err(ContainerError::BadSignature);
        }
        let mut i: usize = 0;
        while i < 8
            invariant
                i <= 8 <= bytes.len(),
                forall|j: int| 0 <= j < i ==> bytes[j] == signature()[j],
            decreases 8 - i,
        {
            if bytes[i] != STANDARD_HEADER[i] {
                assert(bytes@.subrange(0, 8)[i as int] != signature()[i as int]);
                return Err(ContainerError::BadSignature);
            }
            i += 1;
        }
        assert(bytes@.subrange(0, 8) =~= signature());

        let mut chunks: Vec<Chunk> = Vec::new();
        let mut pos: usize = 8;
        proof {
            match parse_chunks(bytes@.skip(8)) {
                Ok(all) => {
                    assert(views(chunks@) + all =~= all);
                },
                Err(_) => {},
            }
        }
        while pos < bytes.len()
            invariant
                8 <= pos <= bytes.len(),
                parse(bytes@) == parse_chunks(bytes@.skip(8)),
                parse_chunks(bytes@.skip(8)) == after(
                    views(chunks@),
                    parse_chunks(bytes@.skip(pos as int)),
                ),
            decreases bytes.len() - pos,
        {
            let rest = slice_subrange(bytes, pos, bytes.len());
            match Chunk::try_from(rest) {
                Err(e) => {
                    proof {
                        lemma_parse_chunks_fail(rest@, views(chunks@));
                    }
                    return Err(ContainerError::Chunk(e));
                },
                Ok(chunk) => {
                    let len = chunk.length() as usize;
                    proof {
                        lemma_parse_chunks_step(rest@, views(chunks@));
                        assert(rest@.skip(12 + len) =~= bytes@.skip(pos + 12 + len));
                        assert(views(chunks@.push(chunk)) =~= views(chunks@).push(chunk@));
                    }
                    pos += 12 + len;
                    chunks.push(chunk);
                },
            }
        }
        proof {
            lemma_parse_chunks_end(bytes@.skip(pos as int), views(chunks@));
        }
        Ok(Png { chunks })
    }

    /// Puts `chunk` behind the chunks that are there. Chunks of the same type
    /// may already be present.
    pub fn append_chunk(&mut self, chunk: Chunk)
        ensures
            final(self)@ == old(self)@.push(chunk@),
    {
        let ghost before = self@;
        self.chunks.push(chunk);
        assert(self@ =~= before.push(chunk@));
    }

    /// The first chunk whose type `chunk_type` names, or `None` when no chunk
    /// has that type or the text names no type.
    pub fn chunk_by_type(&self, chunk_type: &str) -> (found: Option<&Chunk>)
        ensures
            match found {
                Some(chunk) => position_by_text(self@, chunk_type@) matches Some(i) && self@[i]
                    == chunk@,
                None => position_by_text(self@, chunk_type@) is None,
            },
    {
        let wanted = match ChunkType::from_str(chunk_type) {
            Ok(t) => t,
            Err(_) => {
                return None;
            },
        };
        let mut i: usize = 0;
        while i < self.chunks.len()
            invariant
                i <= self.chunks.len(),
                ChunkType::parse(chunk_type@) == Some(wanted),
                forall|j: int| 0 <= j < i ==> (#[trigger] self@[j]).chunk_type != wanted,
            decreases self.chunks.len() - i,
        {
            if *self.chunks[i].chunk_type() == wanted {
                proof {
                    lemma_position_is(self@, wanted, i as int);
                }
                return Some(&self.chunks[i]);
            }
            i += 1;
        }
        proof {
            lemma_position_none(self@, wanted);
        }
        None
    }

    /// Takes out the first chunk whose type `chunk_type` names and returns
    /// it. The chunks that stay keep their order.
    ///
    /// Fails with `NotFound`, and changes nothing, when no chunk has that
    /// type or the text names no type.
    pub fn remove_chunk(&mut self, chunk_type: &str) -> (r: Result<Chunk, ContainerError>)
        ensures
            match r {
                Ok(chunk) => position_by_text(old(self)@, chunk_type@) matches Some(i) && old(
                    self,
                )@[i] == chunk@ && final(self)@ == old(self)@.remove(i),
                Err(e) => position_by_text(old(self)@, chunk_type@) is None && e
                    == ContainerError::NotFound && final(self)@ == old(self)@,
            },
    {
        let wanted = match ChunkType::from_str(chunk_type) {
            Ok(t) => t,
            Err(_) => {
                return Err(ContainerError::NotFound);
            },
        };
        let mut i: usize = 0;
        while i < self.chunks.len()
            invariant
                i <= self.chunks.len(),
                *self == *old(self),
                ChunkType::parse(chunk_type@) == Some(wanted),
                forall|j: int| 0 <= j < i ==> (#[trigger] self@[j]).chunk_type != wanted,
            decreases self.chunks.len() - i,
        {
            if *self.chunks[i].chunk_type() == wanted {
                let ghost before = self@;
                proof {
                    lemma_position_is(before, wanted, i as int);
                }
                let chunk = self.chunks.remove(i);
                assert(self@ =~= before.remove(i as int));
                return Ok(chunk);
            }
            i += 1;
        }
        proof {
            lemma_position_none(self@, wanted);
        }
        Err(ContainerError::NotFound)
    }

    /// The signature that the stream starts with. It is the same for every
    /// container.
    pub fn header(&self) -> (header: &[u8; 8])
        ensures
            header@ == signature(),
    {
        let header = &STANDARD_HEADER;
        assert(header@ =~= signature());
        header
    }

    /// The chunks in file order.
    pub fn chunks(&self) -> (chunks: &[Chunk])
        ensures
            views(chunks@) == self@,
    {
        self.chunks.as_slice()
    }

    /// The stream of the container: the signature, then the frame of each
    /// chunk in order. Parsing the stream gives the same chunks back.
    pub fn as_bytes(&self) -> (bytes: Vec<u8>)
        ensures
            bytes@ == serialize(self@),
            all_wf(self@),
            parse(bytes@) == Ok::<Seq<ChunkView>, ContainerError>(self@),
    {
        let mut bytes: Vec<u8> = Vec::new();
        bytes.extend_from_slice(&STANDARD_HEADER);
        assert(bytes@ =~= signature() + encode_all(self@.take(0)));
        let mut i: usize = 0;
        while i < self.chunks.len()
            invariant
                i <= self.chunks.len(),
                bytes@ == signature() + encode_all(self@.take(i as int)),
                forall|j: int| 0 <= j < i ==> (#[trigger] self@[j]).wf(),
            decreases self.chunks.len() - i,
        {
            let frame = self.chunks[i].as_bytes();
            proof {
                lemma_encode_all_push(self@.take(i as int), self@[i as int]);
                assert(self@.take(i + 1) =~= self@.take(i as int).push(self@[i as int]));
            }
            bytes.extend_from_slice(&frame);
            assert(bytes@ =~= signature() + encode_all(self@.take(i + 1)));
            i += 1;
        }
        proof {
            assert(self@.take(i as int) =~= self@);
            lemma_parse_serialized(self@);
        }
        bytes
    }
}

} // verus!
