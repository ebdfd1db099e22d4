//! The four operations, on the content of a file rather than on the file.
//!
//! Each of them takes the bytes that were read and gives back what is to be
//! written or shown. Reading, writing and showing are the caller's.

use crate::args::{Cli, Commands, DecodeArgs, EncodeArgs, RemoveArgs};
use crate::chunk::{Chunk, ChunkView};
use crate::chunk_type::ChunkType;
use crate::error::{ChunkError, CommandError, ContainerError};
use crate::png::{
    lemma_parse_serialized, lemma_remove_appended, lemma_serialize_parsed, parse, position,
    serialize, views, Png,
};
use std::str::FromStr;
use vstd::prelude::*;
use vstd::utf8::{
    decode_utf8, encode_utf8, encode_utf8_decode_utf8, encode_utf8_valid_utf8, valid_utf8,
};

verus! {

/// The type of the chunks that `print` lists: the one that the text `dEAD`
/// names.
pub open spec fn diagnostic_type() -> ChunkType {
    ChunkType::of_bytes(seq![0x64u8, 0x45, 0x41, 0x44])
}

/// The texts of the chunks of type `t`, in the order of the chunks.
pub open spec fn messages(chunks: Seq<ChunkView>, t: ChunkType) -> Seq<Seq<char>>
    decreases chunks.len(),
{
    if chunks.len() == 0 {
        Seq::empty()
    } else if chunks.last().chunk_type == t {
        messages(chunks.drop_last(), t).push(decode_utf8(chunks.last().data))
    } else {
        messages(chunks.drop_last(), t)
    }
}

/// Every chunk of type `t` holds text.
pub open spec fn all_text(chunks: Seq<ChunkView>, t: ChunkType) -> bool {
    forall|i: int|
        0 <= i < chunks.len() && (#[trigger] chunks[i]).chunk_type == t ==> valid_utf8(
            chunks[i].data,
        )
}

/// The texts that a sequence of strings holds.
pub open spec fn texts(strings: Seq<String>) -> Seq<Seq<char>> {
    Seq::new(strings.len(), |i: int| strings[i]@)
}

/// What `encode` makes of a file's content: the stream of the chunks that
/// were there and, behind them, a new chunk of the named type that carries
/// the message as UTF-8.
pub open spec fn encoded(content: Seq<u8>, type_text: Seq<char>, message: Seq<char>) -> Result<
    Seq<u8>,
    CommandError,
> {
    match parse(content) {
        Err(e) => Err(CommandError::Container(e)),
        Ok(chunks) => match ChunkType::parse(type_text) {
            None => Err(CommandError::InvalidType),
            Some(t) => if encode_utf8(message).len() > u32::MAX {
                Err(CommandError::MessageTooLong)
            } else {
                Ok(serialize(chunks.push(ChunkView::new(t, encode_utf8(message)))))
            },
        },
    }
}

/// What `decode` finds in a file's content: the text of the first chunk of
/// the named type, or nothing where there is no such chunk.
pub open spec fn decoded(content: Seq<u8>, type_text: Seq<char>) -> Result<
    Option<Seq<char>>,
    CommandError,
> {
    match ChunkType::parse(type_text) {
        None => Err(CommandError::InvalidType),
        Some(t) => match parse(content) {
            Err(e) => Err(CommandError::Container(e)),
            Ok(chunks) => match position(chunks, t) {
                None => Ok(None),
                Some(i) => if valid_utf8(chunks[i].data) {
                    Ok(Some(decode_utf8(chunks[i].data)))
                } else {
                    Err(CommandError::Chunk(ChunkError::InvalidUtf8))
                },
            },
        },
    }
}

/// What `remove` makes of a file's content: the stream without the first
/// chunk of the named type, and that chunk.
pub open spec fn removed(content: Seq<u8>, type_text: Seq<char>) -> Result<
    (Seq<u8>, ChunkView),
    CommandError,
> {
    match ChunkType::parse(type_text) {
        None => Err(CommandError::InvalidType),
        Some(t) => match parse(content) {
            Err(e) => Err(CommandError::Container(e)),
            Ok(chunks) => match position(chunks, t) {
                None => Err(CommandError::Container(ContainerError::NotFound)),
                Some(i) => Ok((serialize(chunks.remove(i)), chunks[i])),
            },
        },
    }
}

/// What `print` finds in a file's content: the texts of all chunks of the
/// diagnostic type.
pub open spec fn printed(content: Seq<u8>) -> Result<Seq<Seq<char>>, CommandError> {
    match parse(content) {
        Err(e) => Err(CommandError::Container(e)),
        Ok(chunks) => if all_text(chunks, diagnostic_type()) {
            Ok(messages(chunks, diagnostic_type()))
        } else {
            Err(CommandError::Chunk(ChunkError::InvalidUtf8))
        },
    }
}

/// A message that was hidden can be read: where a stream holds no chunk of
/// the named type, `decode` finds in what `encode` made of it the message
/// that `encode` was given.
pub proof fn lemma_decode_finds_encoded(content: Seq<u8>, type_text: Seq<char>, message: Seq<char>)
    requires
        encoded(content, type_text, message) is Ok,
        decoded(content, type_text) == Ok::<Option<Seq<char>>, CommandError>(None),
    ensures
        decoded(encoded(content, type_text, message)->Ok_0, type_text) == Ok::<
            Option<Seq<char>>,
            CommandError,
        >(Some(message)),
{
    let chunks = parse(content)->Ok_0;
    let t = ChunkType::parse(type_text)->Some_0;
    let added = ChunkView::new(t, encode_utf8(message));
    let longer = chunks.push(added);
    lemma_serialize_parsed(content);
    assert forall|i: int| 0 <= i < longer.len() implies (#[trigger] longer[i]).wf() by {
        if i < chunks.len() {
            assert(longer[i] == chunks[i]);
        }
    }
    lemma_parse_serialized(longer);
    lemma_remove_appended(chunks, added, type_text);
    encode_utf8_valid_utf8(message);
    encode_utf8_decode_utf8(message);
}

/// Taking a hidden message out undoes hiding it: where a stream holds no
/// chunk of the named type, `remove` makes of what `encode` made of it the
/// stream as it was, and hands out the chunk that `encode` added.
pub proof fn lemma_remove_undoes_encode(content: Seq<u8>, type_text: Seq<char>, message: Seq<char>)
    requires
        encoded(content, type_text, message) is Ok,
        decoded(content, type_text) == Ok::<Option<Seq<char>>, CommandError>(None),
    ensures
        removed(encoded(content, type_text, message)->Ok_0, type_text) == Ok::<
            (Seq<u8>, ChunkView),
            CommandError,
        >((content, ChunkView::new(ChunkType::parse(type_text)->Some_0, encode_utf8(message)))),
{
    let chunks = parse(content)->Ok_0;
    let t = ChunkType::parse(type_text)->Some_0;
    let added = ChunkView::new(t, encode_utf8(message));
    let longer = chunks.push(added);
    lemma_serialize_parsed(content);
    assert forall|i: int| 0 <= i < longer.len() implies (#[trigger] longer[i]).wf() by {
        if i < chunks.len() {
            assert(longer[i] == chunks[i]);
        }
    }
    lemma_parse_serialized(longer);
    lemma_remove_appended(chunks, added, type_text);
}

/// Hides `args.message` in the PNG stream `content`: appends a chunk of type
/// `args.chunk_type` whose payload is the message, and returns the new
/// stream.
///
/// Fails when `content` does not parse, then when the type text is not four
/// ASCII letters, then when the message is too long for one chunk.
pub fn encode(args: &EncodeArgs, content: &[u8]) -> (r: Result<Vec<u8>, CommandError>)
    ensures
        match r {
            Ok(out) => encoded(content@, args.chunk_type@, args.message@) == Ok::<
                Seq<u8>,
                CommandError,
            >(out@),
            Err(e) => encoded(content@, args.chunk_type@, args.message@) == Err::<
                Seq<u8>,
                CommandError,
            >(e),
        },
{
    let mut png = match Png::try_from(content) {
        Ok(png) => png,
        Err(e) => {
            return Err(CommandError::Container(e));
        },
    };
    let chunk_type = match ChunkType::from_str(args.chunk_type.as_str()) {
        Ok(t) => t,
        Err(_) => {
            return Err(CommandError::InvalidType);
        },
    };
    let message = args.message.as_str().as_bytes_vec();
    if message.len() > u32::MAX as usize {
        return Err(CommandError::MessageTooLong);
    }
    let chunk = Chunk::new(chunk_type, message);
    png.append_chunk(chunk);
    Ok(png.as_bytes())
}

/// Reads the message that the first chunk of type `args.chunk_type` in the
/// PNG stream `content` carries. `None` says that there is no such chunk.
///
/// Fails when the type text is not four ASCII letters, then when `content`
/// does not parse, then when the chunk holds no UTF-8 text.
pub fn decode(args: &DecodeArgs, content: &[u8]) -> (r: Result<Option<String>, CommandError>)
    ensures
        match r {
            Ok(Some(text)) => decoded(content@, args.chunk_type@) == Ok::<
                Option<Seq<char>>,
                CommandError,
            >(Some(text@)),
            Ok(None) => decoded(content@, args.chunk_type@) == Ok::<
                Option<Seq<char>>,
                CommandError,
            >(None),
            Err(e) => decoded(content@, args.chunk_type@) == Err::<
                Option<Seq<char>>,
                CommandError,
            >(e),
        },
{
    if ChunkType::from_str(args.chunk_type.as_str()).is_err() {
        return Err(CommandError::InvalidType);
    }
    let png = match Png::try_from(content) {
        Ok(png) => png,
        Err(e) => {
            return Err(CommandError::Container(e));
        },
    };
    match png.chunk_by_type(args.chunk_type.as_str()) {
        None => Ok(None),
        Some(chunk) => match chunk.data_as_string() {
            Ok(text) => Ok(Some(text)),
            Err(e) => Err(CommandError::Chunk(e)),
        },
    }
}

/// Takes the first chunk of type `args.chunk_type` out of the PNG stream
/// `content`, and returns the new stream and the chunk.
///
/// Fails when the type text is not four ASCII letters, then when `content`
/// does not parse, then with `NotFound` when there is no such chunk.
pub fn remove(args: &RemoveArgs, content: &[u8]) -> (r: Result<(Vec<u8>, Chunk), CommandError>)
    ensures
        match r {
            Ok((out, chunk)) => removed(content@, args.chunk_type@) == Ok::<
                (Seq<u8>, ChunkView),
                CommandError,
            >((out@, chunk@)),
            Err(e) => removed(content@, args.chunk_type@) == Err::<
                (Seq<u8>, ChunkView),
                CommandError,
            >(e),
        },
{
    if ChunkType::from_str(args.chunk_type.as_str()).is_err() {
        return Err(CommandError::InvalidType);
    }
    let mut png = match Png::try_from(content) {
        Ok(png) => png,
        Err(e) => {
            return Err(CommandError::Container(e));
        },
    };
    match png.remove_chunk(args.chunk_type.as_str()) {
        Ok(chunk) => Ok((png.as_bytes(), chunk)),
        Err(e) => Err(CommandError::Container(e)),
    }
}

/// The chunk type that the text `dEAD` names.
pub fn diagnostic_chunk_type() -> (t: ChunkType)
    ensures
        t == diagnostic_type(),
        ChunkType::parse("dEAD"@) == Some(t),
{
    let tag: [u8; 4] = [0x64, 0x45, 0x41, 0x44];
    proof {
        reveal_strlit("dEAD");
        let bytes = Seq::new(4, |i: int| "dEAD"@[i] as u8);
        assert(bytes =~= seq![0x64u8, 0x45, 0x41, 0x44]);
        assert(tag@ =~= bytes);
    }
    ChunkType::from(tag)
}

/// Lists the messages that the PNG stream `content` may hide: the texts of
/// its chunks of the diagnostic type, in file order.
///
/// Fails when `content` does not parse, and when one of those chunks holds
/// no UTF-8 text.
pub fn print(content: &[u8]) -> (r: Result<Vec<String>, CommandError>)
    ensures
        match r {
            Ok(found) => printed(content@) == Ok::<Seq<Seq<char>>, CommandError>(texts(found@)),
            Err(e) => printed(content@) == Err::<Seq<Seq<char>>, CommandError>(e),
        },
{
    let wanted = diagnostic_chunk_type();
    let png = match Png::try_from(content) {
        Ok(png) => png,
        Err(e) => {
            return Err(CommandError::Container(e));
        },
    };
    let chunks = png.chunks();
    let mut found: Vec<String> = Vec::new();
    let mut i: usize = 0;
    assert(texts(found@) =~= messages(png@.take(0), wanted));
    while i < chunks.len()
        invariant
            i <= chunks.len(),
            views(chunks@) == png@,
            wanted == diagnostic_type(),
            parse(content@) == Ok::<Seq<ChunkView>, ContainerError>(png@),
            texts(found@) == messages(png@.take(i as int), wanted),
            all_text(png@.take(i as int), wanted),
        decreases chunks.len() - i,
    {
        let ghost before = png@.take(i as int);
        let ghost upto = png@.take(i + 1);
        assert(upto.drop_last() =~= before);
        assert(upto.last() == png@[i as int]);
        if *chunks[i].chunk_type() == wanted {
            match chunks[i].data_as_string() {
                Ok(text) => {
                    let ghost old_found = found@;
                    found.push(text);
                    assert(texts(found@) =~= texts(old_found).push(text@));
                },
                Err(e) => {
                    return Err(CommandError::Chunk(e));
                },
            }
        }
        assert(all_text(upto, wanted)) by {
            assert forall|j: int|
                0 <= j < upto.len() && (#[trigger] upto[j]).chunk_type == wanted implies valid_utf8(
                upto[j].data,
            ) by {
                if j < i {
                    assert(before[j] == upto[j]);
                }
            }
        }
        i += 1;
    }
    assert(png@.take(i as int) =~= png@);
    Ok(found)
}

/// What an operation gives back to the caller.
#[derive(Debug, PartialEq, Eq)]
pub enum Outcome {
    /// The new content of the file, with the message in it.
    Encoded(Vec<u8>),
    /// The message that was found, if there was one.
    Decoded(Option<String>),
    /// The new content of the file, and the chunk that was taken out.
    Removed(Vec<u8>, Chunk),
    /// The messages that were found.
    Printed(Vec<String>),
}

/// Carries out the operation that `cli` asks for on the file content
/// `content`: the result is that of `encode`, `decode`, `remove` or `print`.
pub fn run(cli: &Cli, content: &[u8]) -> (r: Result<Outcome, CommandError>)
    ensures
        match (cli.command, r) {
            (Commands::Encode(args), Ok(Outcome::Encoded(out))) => encoded(
                content@,
                args.chunk_type@,
                args.message@,
            ) == Ok::<Seq<u8>, CommandError>(out@),
            (Commands::Encode(args), Err(e)) => encoded(
                content@,
                args.chunk_type@,
                args.message@,
            ) == Err::<Seq<u8>, CommandError>(e),
            (Commands::Decode(args), Ok(Outcome::Decoded(Some(text)))) => decoded(
                content@,
                args.chunk_type@,
            ) == Ok::<Option<Seq<char>>, CommandError>(Some(text@)),
            (Commands::Decode(args), Ok(Outcome::Decoded(None))) => decoded(
                content@,
                args.chunk_type@,
            ) == Ok::<Option<Seq<char>>, CommandError>(None),
            (Commands::Decode(args), Err(e)) => decoded(content@, args.chunk_type@) == Err::<
                Option<Seq<char>>,
                CommandError,
            >(e),
            (Commands::Remove(args), Ok(Outcome::Removed(out, chunk))) => removed(
                content@,
                args.chunk_type@,
            ) == Ok::<(Seq<u8>, ChunkView), CommandError>((out@, chunk@)),
            (Commands::Remove(args), Err(e)) => removed(content@, args.chunk_type@) == Err::<
                (Seq<u8>, ChunkView),
                CommandError,
            >(e),
            (Commands::Print(_), Ok(Outcome::Printed(found))) => printed(content@) == Ok::<
                Seq<Seq<char>>,
                CommandError,
            >(texts(found@)),
            (Commands::Print(_), Err(e)) => printed(content@) == Err::<
                Seq<Seq<char>>,
                CommandError,
            >(e),
            _ => false,
        },
{
    match &cli.command {
        Commands::Encode(args) => match encode(args, content) {
            Ok(out) => Ok(Outcome::Encoded(out)),
            Err(e) => Err(e),
        },
        Commands::Decode(args) => match decode(args, content) {
            Ok(message) => Ok(Outcome::Decoded(message)),
            Err(e) => Err(e),
        },
        Commands::Remove(args) => match remove(args, content) {
            Ok((out, chunk)) => Ok(Outcome::Removed(out, chunk)),
            Err(e) => Err(e),
        },
        Commands::Print(_) => match print(content) {
            Ok(found) => Ok(Outcome::Printed(found)),
            Err(e) => Err(e),
        },
    }
}

} // verus!
