use pngme::chunk_type::{ChunkType, ChunkTypeError};
use std::convert::TryFrom;
use std::str::FromStr;

#[test]
pub fn test_chunk_type_from_bytes() {
    let expected = [82, 117, 83, 116];
    let actual = ChunkType::try_from([82, 117, 83, 116]).unwrap();

    assert_eq!(expected, actual.bytes());
}

#[test]
pub fn test_chunk_type_from_str() {
    let expected = ChunkType::try_from([82, 117, 83, 116]).unwrap();
    let actual = ChunkType::from_str("RuSt").unwrap();
    assert_eq!(expected, actual);
}

#[test]
pub fn test_chunk_type_is_critical() {
    let chunk = ChunkType::from_str("RuSt").unwrap();
    assert!(chunk.is_critical());
}

#[test]
pub fn test_chunk_type_is_not_critical() {
    let chunk = ChunkType::from_str("ruSt").unwrap();
    assert!(!chunk.is_critical());
}

#[test]
pub fn test_chunk_type_is_public() {
    let chunk = ChunkType::from_str("RUSt").unwrap();
    assert!(chunk.is_public());
}

#[test]
pub fn test_chunk_type_is_not_public() {
    let chunk = ChunkType::from_str("RuSt").unwrap();
    assert!(!chunk.is_public());
}

#[test]
pub fn test_chunk_type_is_reserved_bit_valid() {
    let chunk = ChunkType::from_str("RuSt").unwrap();
    assert!(chunk.is_reserved_bit_valid());
}

#[test]
pub fn test_chunk_type_is_reserved_bit_invalid() {
    let chunk = ChunkType::from_str("Rust").unwrap();
    assert!(!chunk.is_reserved_bit_valid());
}

#[test]
pub fn test_chunk_type_is_safe_to_copy() {
    let chunk = ChunkType::from_str("RuSt").unwrap();
    assert!(chunk.is_safe_to_copy());
}

#[test]
pub fn test_chunk_type_is_unsafe_to_copy() {
    let chunk = ChunkType::from_str("RuST").unwrap();
    assert!(!chunk.is_safe_to_copy());
}

#[test]
pub fn test_valid_chunk_is_valid() {
    let chunk = ChunkType::from_str("RuSt").unwrap();
    assert!(chunk.is_valid());
}

#[test]
pub fn test_invalid_chunk_is_valid() {
    let chunk = ChunkType::from_str("Rust").unwrap();
    assert!(!chunk.is_valid());

    let chunk = ChunkType::from_str("Ru1t");
    assert!(chunk.is_err());
}

#[test]
pub fn test_chunk_type_string() {
    let chunk = ChunkType::from_str("RuSt").unwrap();
    assert_eq!(&chunk.to_string(), "RuSt");
}

#[test]
pub fn test_chunk_type_trait_impls() {
    let chunk_type_1: ChunkType = TryFrom::try_from([82, 117, 83, 116]).unwrap();
    let chunk_type_2: ChunkType = FromStr::from_str("RuSt").unwrap();
    let _chunk_string = chunk_type_1.to_string();
    let _are_chunks_equal = chunk_type_1 == chunk_type_2;
}

#[test]
fn rust_flags_follow_letter_case() {
    let t = ChunkType::from_str("RuSt").unwrap();
    assert!(t.is_critical());
    assert!(!t.is_public());
    assert!(t.is_reserved_bit_valid());
    assert!(t.is_safe_to_copy());
    assert!(!ChunkType::from_str("Rust").unwrap().is_reserved_bit_valid());
    assert!(!ChunkType::from_str("RuST").unwrap().is_safe_to_copy());
}

#[test]
fn digits_and_symbols_are_refused() {
    assert_eq!(ChunkType::from_str("Ru1t"), Err(ChunkTypeError::ExpectAsciiBytes));
    assert_eq!(ChunkType::from_str("Ru!t"), Err(ChunkTypeError::ExpectAsciiBytes));
    assert_eq!(ChunkType::try_from([82, 117, 49, 116]), Err(ChunkTypeError::ExpectAsciiBytes));
    assert_eq!(ChunkType::try_from([82, 117, 64, 116]), Err(ChunkTypeError::ExpectAsciiBytes));
    assert_eq!(ChunkType::try_from([82, 117, 91, 116]), Err(ChunkTypeError::ExpectAsciiBytes));
}

#[test]
fn wrong_lengths_are_refused() {
    assert!(ChunkType::from_str("").is_err());
    assert!(ChunkType::from_str("RuS").is_err());
    assert!(ChunkType::from_str("RuStX").is_err());
    assert!(ChunkType::from_str("Ruéé").is_err());
}

#[test]
fn equality_is_case_sensitive() {
    let a = ChunkType::from_str("RuSt").unwrap();
    let b = ChunkType::from_str("rust").unwrap();
    assert!(a != b);
    assert!(a == ChunkType::try_from([82, 117, 83, 116]).unwrap());
}
