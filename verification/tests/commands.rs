use pngme::args::{Cli, Commands, DecodeArgs, EncodeArgs, PrintArgs, RemoveArgs};
use pngme::chunk::Chunk;
use pngme::chunk_type::ChunkType;
use pngme::commands::{decode, diagnostic_chunk_type, encode, print, remove, run, Outcome};
use pngme::error::{ChunkError, CommandError, ContainerError};
use pngme::png::{Png, STANDARD_HEADER};

const SMALLEST_IMAGE: [u8; 67] = [
    137, 80, 78, 71, 13, 10, 26, 10, 0, 0, 0, 13, 73, 72, 68, 82, 0, 0, 0, 1, 0, 0, 0, 1, 8, 6, 0,
    0, 0, 31, 21, 196, 137, 0, 0, 0, 10, 73, 68, 65, 84, 120, 156, 99, 0, 1, 0, 0, 5, 0, 1, 13,
    10, 45, 180, 0, 0, 0, 0, 73, 69, 78, 68, 174, 66, 96, 130,
];

fn encode_args(chunk_type: &str, message: &str) -> EncodeArgs {
    EncodeArgs {
        file_path: String::from("image.png"),
        chunk_type: String::from(chunk_type),
        message: String::from(message),
    }
}

fn decode_args(chunk_type: &str) -> DecodeArgs {
    DecodeArgs { file_path: String::from("image.png"), chunk_type: String::from(chunk_type) }
}

fn remove_args(chunk_type: &str) -> RemoveArgs {
    RemoveArgs { file_path: String::from("image.png"), chunk_type: String::from(chunk_type) }
}

fn print_args() -> PrintArgs {
    PrintArgs { file_path: String::from("image.png") }
}

fn with_chunks(chunks: &[(&[u8; 4], &[u8])]) -> Vec<u8> {
    let mut png = Png::try_from(&SMALLEST_IMAGE[..]).unwrap();
    for (tag, payload) in chunks {
        png.append_chunk(Chunk::new(ChunkType::from(**tag), payload.to_vec()));
    }
    png.as_bytes()
}

#[test]
fn command_encode_appends_the_message() {
    let out = encode(&encode_args("RuSt", "This is where your secret message will be!"), &SMALLEST_IMAGE).unwrap();
    assert_eq!(&out[..67], &SMALLEST_IMAGE[..]);
    let mut frame = vec![0, 0, 0, 42, b'R', b'u', b'S', b't'];
    frame.extend_from_slice(b"This is where your secret message will be!");
    frame.extend_from_slice(&2882656334u32.to_be_bytes());
    assert_eq!(&out[67..], &frame[..]);
}

#[test]
fn command_encode_on_an_empty_container() {
    let out = encode(&encode_args("dEAD", ""), &STANDARD_HEADER).unwrap();
    let crc = crc::Crc::<u32>::new(&crc::CRC_32_ISO_HDLC).checksum(b"dEAD");
    let mut expected = STANDARD_HEADER.to_vec();
    expected.extend_from_slice(&[0, 0, 0, 0, b'd', b'E', b'A', b'D']);
    expected.extend_from_slice(&crc.to_be_bytes());
    assert_eq!(out, expected);
}

#[test]
fn command_encode_writes_the_message_as_utf8() {
    let out = encode(&encode_args("tEXt", "gr\u{fc}n"), &STANDARD_HEADER).unwrap();
    assert_eq!(&out[8..12], &[0, 0, 0, 5]);
    assert_eq!(&out[16..21], &[b'g', b'r', 0xc3, 0xbc, b'n']);
}

#[test]
fn command_encode_failures() {
    assert_eq!(
        encode(&encode_args("RuSt", "hidden"), &[1, 2, 3]),
        Err(CommandError::Container(ContainerError::BadSignature))
    );
    assert_eq!(
        encode(&encode_args("Ru1t", "hidden"), &[1, 2, 3]),
        Err(CommandError::Container(ContainerError::BadSignature))
    );
    assert_eq!(
        encode(&encode_args("RuSt", "hidden"), &SMALLEST_IMAGE[..66]),
        Err(CommandError::Container(ContainerError::Chunk(ChunkError::Truncated)))
    );
    assert_eq!(encode(&encode_args("Ru1t", "hidden"), &SMALLEST_IMAGE), Err(CommandError::InvalidType));
    assert_eq!(encode(&encode_args("RuStt", "hidden"), &SMALLEST_IMAGE), Err(CommandError::InvalidType));
}

#[test]
fn command_decode_reads_the_first_message() {
    let content = with_chunks(&[(b"RuSt", b"first"), (b"ruSt", b"other"), (b"RuSt", b"second")]);
    assert_eq!(decode(&decode_args("RuSt"), &content), Ok(Some(String::from("first"))));
    assert_eq!(decode(&decode_args("ruSt"), &content), Ok(Some(String::from("other"))));
    assert_eq!(decode(&decode_args("IEND"), &content), Ok(Some(String::new())));
}

#[test]
fn command_decode_finds_nothing() {
    assert_eq!(decode(&decode_args("RuSt"), &SMALLEST_IMAGE), Ok(None));
    assert_eq!(decode(&decode_args("RuSt"), &STANDARD_HEADER), Ok(None));
}

#[test]
fn command_decode_failures() {
    assert_eq!(decode(&decode_args("Ru1t"), &SMALLEST_IMAGE), Err(CommandError::InvalidType));
    assert_eq!(decode(&decode_args("Ru1t"), &[1, 2, 3]), Err(CommandError::InvalidType));
    assert_eq!(
        decode(&decode_args("RuSt"), &[1, 2, 3]),
        Err(CommandError::Container(ContainerError::BadSignature))
    );
    let mut damaged = SMALLEST_IMAGE.to_vec();
    damaged[40] ^= 0x10;
    assert_eq!(
        decode(&decode_args("RuSt"), &damaged),
        Err(CommandError::Container(ContainerError::Chunk(ChunkError::ChecksumMismatch)))
    );
    assert_eq!(
        decode(&decode_args("IDAT"), &SMALLEST_IMAGE),
        Err(CommandError::Chunk(ChunkError::InvalidUtf8))
    );
}

#[test]
fn command_remove_takes_the_first_chunk_out() {
    let content = with_chunks(&[(b"RuSt", b"first"), (b"RuSt", b"second")]);
    let (out, chunk) = remove(&remove_args("RuSt"), &content).unwrap();
    assert_eq!(chunk, Chunk::new(ChunkType::from(*b"RuSt"), b"first".to_vec()));
    assert_eq!(out, with_chunks(&[(b"RuSt", b"second")]));
    let (out, chunk) = remove(&remove_args("RuSt"), &out).unwrap();
    assert_eq!(chunk.data_as_string().unwrap(), "second");
    assert_eq!(out, SMALLEST_IMAGE.to_vec());
}

#[test]
fn command_remove_failures() {
    assert_eq!(remove(&remove_args("Ru1t"), &SMALLEST_IMAGE), Err(CommandError::InvalidType));
    assert_eq!(
        remove(&remove_args("RuSt"), &SMALLEST_IMAGE[1..]),
        Err(CommandError::Container(ContainerError::BadSignature))
    );
    assert_eq!(
        remove(&remove_args("RuSt"), &SMALLEST_IMAGE),
        Err(CommandError::Container(ContainerError::NotFound))
    );
}

#[test]
fn command_encode_then_remove_restores_the_content() {
    let hidden = encode(&encode_args("RuSt", "hidden"), &SMALLEST_IMAGE).unwrap();
    assert_eq!(decode(&decode_args("RuSt"), &hidden), Ok(Some(String::from("hidden"))));
    let (restored, chunk) = remove(&remove_args("RuSt"), &hidden).unwrap();
    assert_eq!(restored, SMALLEST_IMAGE.to_vec());
    assert_eq!(chunk.data_as_string().unwrap(), "hidden");
}

#[test]
fn command_print_lists_the_diagnostic_chunks() {
    assert_eq!(diagnostic_chunk_type(), ChunkType { sum: 0x6445_4144 });
    assert_eq!(diagnostic_chunk_type().to_string(), "dEAD");
    let content = with_chunks(&[
        (b"dEAD", b"one"),
        (b"RuSt", b"skipped"),
        (b"dEAD", b""),
        (b"DEAD", b"skipped"),
        (b"dEAD", b"three"),
    ]);
    assert_eq!(
        print(&content),
        Ok(vec![String::from("one"), String::new(), String::from("three")])
    );
    assert_eq!(print(&SMALLEST_IMAGE), Ok(Vec::new()));
    assert_eq!(print(&STANDARD_HEADER), Ok(Vec::new()));
}

#[test]
fn command_print_failures() {
    assert_eq!(
        print(&[]),
        Err(CommandError::Container(ContainerError::BadSignature))
    );
    let content = with_chunks(&[(b"dEAD", b"one"), (b"dEAD", &[0xff, 0xfe]), (b"dEAD", b"three")]);
    assert_eq!(print(&content), Err(CommandError::Chunk(ChunkError::InvalidUtf8)));
    let content = with_chunks(&[(b"RuSt", &[0xff, 0xfe]), (b"dEAD", b"one")]);
    assert_eq!(print(&content), Ok(vec![String::from("one")]));
}

#[test]
fn command_file_path_of_each_operation() {
    let mut args = encode_args("RuSt", "m");
    args.file_path = String::from("a.png");
    assert_eq!(Commands::Encode(args).file_path(), "a.png");
    let mut args = decode_args("RuSt");
    args.file_path = String::from("b.png");
    assert_eq!(Commands::Decode(args).file_path(), "b.png");
    let mut args = remove_args("RuSt");
    args.file_path = String::from("c.png");
    assert_eq!(Commands::Remove(args).file_path(), "c.png");
    assert_eq!(Commands::Print(PrintArgs { file_path: String::from("d.png") }).file_path(), "d.png");
}

#[test]
fn command_run_carries_out_each_operation() {
    let cli = Cli { command: Commands::Encode(encode_args("dEAD", "hidden")) };
    let hidden = match run(&cli, &SMALLEST_IMAGE) {
        Ok(Outcome::Encoded(out)) => out,
        other => panic!("{:?}", other),
    };
    assert_eq!(hidden, encode(&encode_args("dEAD", "hidden"), &SMALLEST_IMAGE).unwrap());

    let cli = Cli { command: Commands::Decode(decode_args("dEAD")) };
    assert_eq!(run(&cli, &hidden), Ok(Outcome::Decoded(Some(String::from("hidden")))));
    assert_eq!(run(&cli, &SMALLEST_IMAGE), Ok(Outcome::Decoded(None)));

    let cli = Cli { command: Commands::Print(print_args()) };
    assert_eq!(run(&cli, &hidden), Ok(Outcome::Printed(vec![String::from("hidden")])));

    let cli = Cli { command: Commands::Remove(remove_args("dEAD")) };
    assert_eq!(
        run(&cli, &hidden),
        Ok(Outcome::Removed(
            SMALLEST_IMAGE.to_vec(),
            Chunk::new(ChunkType::from(*b"dEAD"), b"hidden".to_vec())
        ))
    );
    assert_eq!(run(&cli, &SMALLEST_IMAGE), Err(CommandError::Container(ContainerError::NotFound)));

    let cli = Cli { command: Commands::Decode(decode_args("dE4D")) };
    assert_eq!(run(&cli, &hidden), Err(CommandError::InvalidType));
}
