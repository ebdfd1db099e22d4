use pngme::chunk::Chunk;
use pngme::chunk_type::ChunkType;
use pngme::endian::{from_be_bytes, to_be_bytes};
use pngme::error::ChunkError;
use std::str::FromStr;

fn testing_chunk() -> Chunk {
    let data_length: u32 = 42;
    let chunk_type = "RuSt".as_bytes();
    let message_bytes = "This is where your secret message will be!".as_bytes();
    let crc: u32 = 2882656334;

    let chunk_data: Vec<u8> = data_length
        .to_be_bytes()
        .iter()
        .chain(chunk_type.iter())
        .chain(message_bytes.iter())
        .chain(crc.to_be_bytes().iter())
        .copied()
        .collect();

    Chunk::try_from(chunk_data.as_ref()).unwrap()
}

fn frame(length: u32, chunk_type: &[u8], payload: &[u8], crc: u32) -> Vec<u8> {
    length
        .to_be_bytes()
        .iter()
        .chain(chunk_type.iter())
        .chain(payload.iter())
        .chain(crc.to_be_bytes().iter())
        .copied()
        .collect()
}

fn reference_crc(chunk_type: &[u8], payload: &[u8]) -> u32 {
    let crc = crc::Crc::<u32>::new(&crc::CRC_32_ISO_HDLC);
    let mut digest = crc.digest();
    digest.update(chunk_type);
    digest.update(payload);
    digest.finalize()
}

#[test]
fn test_new_chunk() {
    let chunk_type = ChunkType::from_str("RuSt").unwrap();
    let data = "This is where your secret message will be!".as_bytes().to_vec();
    let chunk = Chunk::new(chunk_type, data);
    assert_eq!(chunk.length(), 42);
    assert_eq!(chunk.crc(), 2882656334);
}

#[test]
fn test_chunk_length() {
    let chunk = testing_chunk();
    assert_eq!(chunk.length(), 42);
}

#[test]
fn test_chunk_type() {
    let chunk = testing_chunk();
    assert_eq!(chunk.chunk_type().to_string(), String::from("RuSt"));
}

#[test]
fn test_chunk_string() {
    let chunk = testing_chunk();
    let chunk_string = chunk.data_as_string().unwrap();
    let expected_chunk_string = String::from("This is where your secret message will be!");
    assert_eq!(chunk_string, expected_chunk_string);
}

#[test]
fn test_chunk_crc() {
    let chunk = testing_chunk();
    assert_eq!(chunk.crc(), 2882656334);
}

#[test]
fn test_valid_chunk_from_bytes() {
    let data_length: u32 = 42;
    let chunk_type = "RuSt".as_bytes();
    let message_bytes = "This is where your secret message will be!".as_bytes();
    let crc: u32 = 2882656334;

    let chunk_data: Vec<u8> = data_length
        .to_be_bytes()
        .iter()
        .chain(chunk_type.iter())
        .chain(message_bytes.iter())
        .chain(crc.to_be_bytes().iter())
        .copied()
        .collect();

    let chunk = Chunk::try_from(chunk_data.as_ref()).unwrap();

    let chunk_string = chunk.data_as_string().unwrap();
    let expected_chunk_string = String::from("This is where your secret message will be!");

    assert_eq!(chunk.length(), 42);
    assert_eq!(chunk.chunk_type().to_string(), String::from("RuSt"));
    assert_eq!(chunk_string, expected_chunk_string);
    assert_eq!(chunk.crc(), 2882656334);
}

#[test]
fn test_invalid_chunk_from_bytes() {
    let data_length: u32 = 42;
    let chunk_type = "RuSt".as_bytes();
    let message_bytes = "This is where your secret message will be!".as_bytes();
    let crc: u32 = 2882656333;

    let chunk_data: Vec<u8> = data_length
        .to_be_bytes()
        .iter()
        .chain(chunk_type.iter())
        .chain(message_bytes.iter())
        .chain(crc.to_be_bytes().iter())
        .copied()
        .collect();

    let chunk = Chunk::try_from(chunk_data.as_ref());

    assert!(chunk.is_err());
}

#[test]
pub fn test_chunk_trait_impls() {
    let data_length: u32 = 42;
    let chunk_type = "RuSt".as_bytes();
    let message_bytes = "This is where your secret message will be!".as_bytes();
    let crc: u32 = 2882656334;

    let chunk_data: Vec<u8> = data_length
        .to_be_bytes()
        .iter()
        .chain(chunk_type.iter())
        .chain(message_bytes.iter())
        .chain(crc.to_be_bytes().iter())
        .copied()
        .collect();

    let chunk: Chunk = Chunk::try_from(chunk_data.as_ref()).unwrap();

    let _chunk_string = format!("{:?}", chunk);
}

#[test]
fn big_endian_layout_of_values() {
    assert_eq!(to_be_bytes(0), [0, 0, 0, 0]);
    assert_eq!(to_be_bytes(42), [0, 0, 0, 42]);
    assert_eq!(to_be_bytes(0x0102_0304), [1, 2, 3, 4]);
    assert_eq!(to_be_bytes(2882656334), [0xab, 0xd1, 0xd8, 0x4e]);
    assert_eq!(to_be_bytes(u32::MAX), [255, 255, 255, 255]);
    assert_eq!(from_be_bytes([0, 0, 0, 42]), 42);
    assert_eq!(from_be_bytes([1, 2, 3, 4]), 0x0102_0304);
    assert_eq!(from_be_bytes([0xab, 0xd1, 0xd8, 0x4e]), 2882656334);
    assert_eq!(from_be_bytes([255, 255, 255, 255]), u32::MAX);
    for x in [0u32, 1, 255, 256, 65535, 65536, 0x00ff_ffff, 0x0100_0000, 0x8000_0000, u32::MAX] {
        assert_eq!(to_be_bytes(x), x.to_be_bytes());
        assert_eq!(from_be_bytes(x.to_be_bytes()), x);
    }
}

#[test]
fn chunk_checksum_is_crc32_of_type_and_payload() {
    let empty = Chunk::new(ChunkType::from(*b"IEND"), Vec::new());
    assert_eq!(empty.length(), 0);
    assert_eq!(empty.crc(), 0xae42_6082);

    let header = Chunk::new(ChunkType::from(*b"IHDR"), vec![0, 0, 0, 1, 0, 0, 0, 1, 8, 6, 0, 0, 0]);
    assert_eq!(header.length(), 13);
    assert_eq!(header.crc(), 521520265);

    let bare = Chunk::new(ChunkType::from(*b"1234"), b"56789".to_vec());
    assert_eq!(bare.crc(), 0xcbf4_3926);

    for payload in [&b""[..], &b"a"[..], &b"hello"[..], &[0u8, 255, 1, 254][..]] {
        let chunk = Chunk::new(ChunkType::from(*b"dEAD"), payload.to_vec());
        assert_eq!(chunk.crc(), reference_crc(b"dEAD", payload));
        assert_ne!(chunk.crc(), reference_crc(b"", payload));
    }
}

#[test]
fn chunk_keeps_what_it_was_built_from() {
    let chunk = Chunk::new(ChunkType::from(*b"dEAD"), vec![1, 2, 3]);
    assert_eq!(*chunk.chunk_type(), ChunkType::from(*b"dEAD"));
    assert_eq!(chunk.data(), &vec![1, 2, 3]);
    assert_eq!(chunk.length(), 3);
}

#[test]
fn chunk_frame_layout() {
    let chunk = Chunk::new(ChunkType::from(*b"RuSt"), b"hi".to_vec());
    let crc = reference_crc(b"RuSt", b"hi");
    let mut expected = vec![0, 0, 0, 2, b'R', b'u', b'S', b't', b'h', b'i'];
    expected.extend_from_slice(&crc.to_be_bytes());
    assert_eq!(chunk.as_bytes(), expected);

    let end = Chunk::new(ChunkType::from(*b"IEND"), Vec::new());
    assert_eq!(end.as_bytes(), vec![0, 0, 0, 0, 73, 69, 78, 68, 174, 66, 96, 130]);
}

#[test]
fn chunk_round_trip() {
    let payloads: [&[u8]; 4] = [b"", b"x", b"This is where your secret message will be!", &[0, 255, 128, 7]];
    for tag in [*b"RuSt", *b"IEND", *b"Ru1t", [0, 1, 2, 3]] {
        for payload in payloads {
            let chunk = Chunk::new(ChunkType::from(tag), payload.to_vec());
            let decoded = Chunk::try_from(&chunk.as_bytes()[..]).unwrap();
            assert_eq!(decoded.chunk_type(), chunk.chunk_type());
            assert_eq!(decoded.data(), chunk.data());
            assert_eq!(decoded.length(), chunk.length());
            assert_eq!(decoded.crc(), chunk.crc());
            assert_eq!(decoded, chunk);
        }
    }
}

#[test]
fn chunk_decoding_takes_any_type_bytes() {
    let bytes = frame(1, b"Ru1t", b"x", reference_crc(b"Ru1t", b"x"));
    let chunk = Chunk::try_from(&bytes[..]).unwrap();
    assert_eq!(chunk.chunk_type().bytes(), *b"Ru1t");
    assert!(!chunk.chunk_type().is_valid());
}

#[test]
fn chunk_decoding_keeps_the_stored_checksum() {
    let bytes = frame(0, b"IEND", b"", 0xae42_6082);
    let chunk = Chunk::try_from(&bytes[..]).unwrap();
    assert_eq!(chunk.crc(), 0xae42_6082);
    assert_eq!(chunk.length(), 0);
    assert_eq!(chunk.data(), &Vec::<u8>::new());
}

#[test]
fn chunk_decoding_leaves_bytes_behind_the_frame() {
    let mut bytes = frame(0, b"IEND", b"", 0xae42_6082);
    bytes.extend_from_slice(&[1, 2, 3, 4, 5]);
    let chunk = Chunk::try_from(&bytes[..]).unwrap();
    assert_eq!(chunk.as_bytes(), &bytes[..12]);
}

#[test]
fn chunk_checksum_mismatch() {
    let bytes = frame(42, b"RuSt", b"This is where your secret message will be!", 2882656333);
    assert_eq!(Chunk::try_from(&bytes[..]), Err(ChunkError::ChecksumMismatch));
    let bytes = frame(0, b"IEND", b"", 0);
    assert_eq!(Chunk::try_from(&bytes[..]), Err(ChunkError::ChecksumMismatch));
}

#[test]
fn chunk_single_bit_flips_are_detected() {
    let good = testing_chunk().as_bytes();
    assert!(Chunk::try_from(&good[..]).is_ok());
    for index in 4..good.len() - 4 {
        for bit in 0..8 {
            let mut bad = good.clone();
            bad[index] ^= 1 << bit;
            assert_eq!(Chunk::try_from(&bad[..]), Err(ChunkError::ChecksumMismatch));
        }
    }
}

#[test]
fn chunk_truncation() {
    let good = testing_chunk().as_bytes();
    assert_eq!(good.len(), 8 + 42 + 4);
    for cut in 0..good.len() {
        assert_eq!(Chunk::try_from(&good[..cut]), Err(ChunkError::Truncated));
    }
    assert!(Chunk::try_from(&good[..]).is_ok());
}

#[test]
fn chunk_truncation_by_declared_length() {
    assert_eq!(Chunk::try_from(&[][..]), Err(ChunkError::Truncated));
    assert_eq!(Chunk::try_from(&[0, 0, 0][..]), Err(ChunkError::Truncated));
    assert_eq!(Chunk::try_from(&[0, 0, 0, 0, 73, 69, 78][..]), Err(ChunkError::Truncated));
    assert_eq!(Chunk::try_from(&[0, 0, 0, 0, 73, 69, 78, 68][..]), Err(ChunkError::Truncated));
    assert_eq!(
        Chunk::try_from(&[0, 0, 0, 0, 73, 69, 78, 68, 174, 66, 96][..]),
        Err(ChunkError::Truncated)
    );
    let declares_more = frame(3, b"IEND", b"ab", 0);
    assert_eq!(Chunk::try_from(&declares_more[..]), Err(ChunkError::Truncated));
    let declares_most = frame(u32::MAX, b"IEND", b"abcdef", 0);
    assert_eq!(Chunk::try_from(&declares_most[..]), Err(ChunkError::Truncated));
}

#[test]
fn chunk_assembly_compares_the_two_checksums() {
    let tag = ChunkType::from(*b"RuSt");
    let message = b"This is where your secret message will be!".to_vec();
    let chunk = Chunk::assemble(tag, message.clone(), 2882656334, 2882656334).unwrap();
    assert_eq!(chunk.crc(), 2882656334);
    assert_eq!(chunk.length(), 42);
    assert_eq!(chunk.data(), &message);
    assert_eq!(*chunk.chunk_type(), tag);
    assert_eq!(
        Chunk::assemble(tag, message.clone(), 2882656333, 2882656334),
        Err(ChunkError::ChecksumMismatch)
    );

    let sealed = Chunk::with_checksum(tag, message.clone(), 2882656334);
    assert_eq!(sealed, Chunk::new(tag, message));
}

#[test]
fn chunk_payload_as_text() {
    let chunk = Chunk::new(ChunkType::from(*b"tEXt"), "gr\u{fc}\u{df}e \u{1f600}".as_bytes().to_vec());
    assert_eq!(chunk.data_as_string(), Ok(String::from("gr\u{fc}\u{df}e \u{1f600}")));
    let empty = Chunk::new(ChunkType::from(*b"tEXt"), Vec::new());
    assert_eq!(empty.data_as_string(), Ok(String::new()));
}

#[test]
fn chunk_payload_that_is_no_text() {
    for payload in [vec![0xff], vec![b'a', 0xc3], vec![0xed, 0xa0, 0x80], vec![0xc0, 0x80]] {
        let chunk = Chunk::new(ChunkType::from(*b"tEXt"), payload);
        assert_eq!(chunk.data_as_string(), Err(ChunkError::InvalidUtf8));
    }
}
