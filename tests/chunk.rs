use pngme::chunk::{Chunk, ChunkError};
use pngme::chunk_type::ChunkType;
use std::convert::TryFrom;
use std::str::FromStr;

fn frame(data_length: u32, chunk_type: &[u8], message_bytes: &[u8], crc: u32) -> Vec<u8> {
    data_length
        .to_be_bytes()
        .iter()
        .chain(chunk_type.iter())
        .chain(message_bytes.iter())
        .chain(crc.to_be_bytes().iter())
        .copied()
        .collect()
}

fn testing_chunk() -> Chunk {
    let data_length: u32 = 42;
    let chunk_type = "RuSt".as_bytes();
    let message_bytes = "This is where your secret message will be!".as_bytes();
    let crc: u32 = 2882656334;

    let chunk_data: Vec<u8> = frame(data_length, chunk_type, message_bytes, crc);

    Chunk::try_from(chunk_data.as_ref()).unwrap()
}

#[test]
fn test_new_chunk() {
    let chunk_type = ChunkType::from_str("RuSt").unwrap();
    let data = "This is where your secret message will be!"
        .as_bytes()
        .to_vec();
    let chunk = Chunk::new(chunk_type, data);
    assert_eq!(chunk.length(), 42);
    assert_eq!(chunk.crc(), 2882656334);
}

#[test]
fn test_chunk_length() {
    let chunk = testing_chunk();
    assert_eq!(chunk.length(), 42);
}

#[test]
fn test_chunk_type() {
    let chunk = testing_chunk();
    assert_eq!(chunk.chunk_type().to_string(), String::from("RuSt"));
}

#[test]
fn test_chunk_string() {
    let chunk = testing_chunk();
    let chunk_string = chunk.data_as_string().unwrap();
    let expected_chunk_string = String::from("This is where your secret message will be!");
    assert_eq!(chunk_string, expected_chunk_string);
}

#[test]
fn test_chunk_crc() {
    let chunk = testing_chunk();
    assert_eq!(chunk.crc(), 2882656334);
}

#[test]
fn test_valid_chunk_from_bytes() {
    let data_length: u32 = 42;
    let chunk_type = "RuSt".as_bytes();
    let message_bytes = "This is where your secret message will be!".as_bytes();
    let crc: u32 = 2882656334;

    let chunk_data: Vec<u8> = frame(data_length, chunk_type, message_bytes, crc);

    let chunk = Chunk::try_from(chunk_data.as_ref()).unwrap();

    let chunk_string = chunk.data_as_string().unwrap();
    let expected_chunk_string = String::from("This is where your secret message will be!");

    assert_eq!(chunk.length(), 42);
    assert_eq!(chunk.chunk_type().to_string(), String::from("RuSt"));
    assert_eq!(chunk_string, expected_chunk_string);
}

#[test]
fn test_invalid_chunk_from_bytes() {
    let data_length: u32 = 42;
    let chunk_type = "RuSt".as_bytes();
    let message_bytes = "This is where your secret message will be!".as_bytes();
    let crc: u32 = 2882656333;

    let chunk_data: Vec<u8> = frame(data_length, chunk_type, message_bytes, crc);

    let chunk = Chunk::try_from(chunk_data.as_ref());

    assert!(chunk.is_err());
}

#[test]
pub fn test_chunk_trait_impls() {
    let data_length: u32 = 42;
    let chunk_type = "RuSt".as_bytes();
    let message_bytes = "This is where your secret message will be!".as_bytes();
    let crc: u32 = 2882656334;

    let chunk_data: Vec<u8> = frame(data_length, chunk_type, message_bytes, crc);

    let chunk: Chunk = TryFrom::try_from(chunk_data.as_ref()).unwrap();

    let _chunk_string = chunk.to_string();
}

#[test]
fn checksum_of_iend_is_known() {
    // CRC-32 (IEEE) of the ASCII text "IEND" is 0xAE426082.
    let chunk = Chunk::new(ChunkType::from_str("IEND").unwrap(), Vec::new());
    assert_eq!(chunk.crc(), 0xAE42_6082);
    assert_eq!(chunk.as_bytes(), vec![0, 0, 0, 0, 73, 69, 78, 68, 0xAE, 0x42, 0x60, 0x82]);
}

#[test]
fn encode_gives_the_literal_frame() {
    let message = "This is where your secret message will be!".as_bytes();
    let chunk = Chunk::new(ChunkType::from_str("RuSt").unwrap(), message.to_vec());
    let expected = frame(42, "RuSt".as_bytes(), message, 2882656334);
    assert_eq!(chunk.as_bytes(), expected);
    assert_eq!(chunk.as_bytes().len(), 12 + 42);
}

#[test]
fn chunk_round_trip() {
    let chunk = Chunk::new(ChunkType::from_str("teXt").unwrap(), vec![0, 1, 2, 255, 128]);
    let back = Chunk::try_from(chunk.as_bytes().as_slice()).unwrap();
    assert_eq!(back.chunk_type().bytes(), *b"teXt");
    assert_eq!(back.data(), &[0u8, 1, 2, 255, 128][..]);
    assert_eq!(back.crc(), chunk.crc());
}

#[test]
fn flipped_bits_are_caught() {
    let message = "This is where your secret message will be!".as_bytes();
    let good = frame(42, "RuSt".as_bytes(), message, 2882656334);
    for i in 4..(good.len() - 4) {
        for bit in 0..8 {
            let mut bad = good.clone();
            bad[i] ^= 1 << bit;
            let r = Chunk::try_from(bad.as_slice());
            assert!(r.is_err());
            if i >= 8 {
                assert_eq!(r.unwrap_err(), ChunkError::CrcMismatch);
            }
        }
    }
}

#[test]
fn corrupted_checksum_is_a_crc_mismatch() {
    let message = "This is where your secret message will be!".as_bytes();
    let bad = frame(42, "RuSt".as_bytes(), message, 2882656333);
    assert_eq!(Chunk::try_from(bad.as_slice()).unwrap_err(), ChunkError::CrcMismatch);
    let good = frame(42, "RuSt".as_bytes(), message, 2882656334);
    assert!(Chunk::try_from(good.as_slice()).is_ok());
}

#[test]
fn framing_errors() {
    assert_eq!(Chunk::try_from(&[0u8, 0, 0, 0, 82, 117, 83][..]).unwrap_err(), ChunkError::FrameTooShort);
    assert_eq!(Chunk::try_from(&[][..]).unwrap_err(), ChunkError::FrameTooShort);
    let long = frame(3, "RuSt".as_bytes(), b"ab", 0);
    assert_eq!(Chunk::try_from(long.as_slice()).unwrap_err(), ChunkError::LengthMismatch);
    let bad_type = frame(0, "Ru1t".as_bytes(), b"", 0);
    assert_eq!(Chunk::try_from(bad_type.as_slice()).unwrap_err(), ChunkError::InvalidChunkType);
}

#[test]
fn split_frame_and_given_checksum() {
    let message = "This is where your secret message will be!".as_bytes();
    let f = frame(42, "RuSt".as_bytes(), message, 7);
    let (chunk, stored) = Chunk::split_frame(f.as_slice()).unwrap();
    assert_eq!(stored, 7);
    assert_eq!(chunk.data(), message);
    assert!(Chunk::from_frame_with_crc(f.as_slice(), 7).is_ok());
    assert_eq!(Chunk::from_frame_with_crc(f.as_slice(), 8).unwrap_err(), ChunkError::CrcMismatch);
}

#[test]
fn long_data_is_summarised() {
    let chunk = Chunk::new(ChunkType::from_str("RuSt").unwrap(), vec![b'a'; 64]);
    assert_eq!(chunk.data_as_string().unwrap(), "[.. 64 bytes ..]");
    let short = Chunk::new(ChunkType::from_str("RuSt").unwrap(), vec![b'a'; 63]);
    assert_eq!(short.data_as_string().unwrap(), "a".repeat(63));
    let lossy = Chunk::new(ChunkType::from_str("RuSt").unwrap(), vec![b'h', 0xff, b'i']);
    assert_eq!(lossy.data_as_string().unwrap(), "h\u{FFFD}i");
}

#[test]
fn chunk_text() {
    let chunk = Chunk::new(ChunkType::from_str("RuSt").unwrap(), b"hello".to_vec());
    assert_eq!(chunk.to_string(), "Chunk{type: RuSt, data: 'hello', len: 5}");
}
