use pngme::{ChunkError, ChunkType};
use std::convert::TryFrom;
use std::str::FromStr;

#[test]
fn chunk_type_from_bytes() {
    let expected = [82, 117, 83, 116];
    let actual = ChunkType::try_from([82, 117, 83, 116]).unwrap();
    assert_eq!(expected, actual.bytes());
}

#[test]
fn chunk_type_from_str() {
    let expected = ChunkType::try_from([82, 117, 83, 116]).unwrap();
    let actual = ChunkType::from_str("RuSt").unwrap();
    assert_eq!(expected, actual);
}

#[test]
fn property_bits_of_rust_mixed_case() {
    let t = ChunkType::from_str("RuSt").unwrap();
    assert!(t.is_critical());
    assert!(!t.is_public());
    assert!(t.is_reserved_bit_valid());
    assert!(t.is_valid());
    assert!(t.is_safe_to_copy());
}

#[test]
fn unsafe_to_copy_when_last_is_upper() {
    let t = ChunkType::from_str("RuST").unwrap();
    assert!(!t.is_safe_to_copy());
}

#[test]
fn each_property_reads_its_own_byte() {
    let t = ChunkType::from_str("ruSt").unwrap();
    assert!(!t.is_critical());
    let t = ChunkType::from_str("RUSt").unwrap();
    assert!(t.is_public());
    let t = ChunkType::from_str("Rust").unwrap();
    assert!(!t.is_reserved_bit_valid());
    assert!(!t.is_valid());
    assert!(t.is_critical());
    let t = ChunkType::from_str("ZZZZ").unwrap();
    assert!(t.is_critical() && t.is_public() && t.is_valid() && !t.is_safe_to_copy());
    let t = ChunkType::from_str("zzzz").unwrap();
    assert!(!t.is_critical() && !t.is_public() && !t.is_valid() && t.is_safe_to_copy());
}

#[test]
fn non_letter_bytes_are_rejected() {
    assert_eq!(ChunkType::from_str("Ru1t"), Err(ChunkError::InvalidTagByte));
    for b in [0x31u8, 0x40, 0x5B, 0x60, 0x7B, 0x00, 0xFF] {
        assert_eq!(ChunkType::try_from([b, 65, 65, 65]), Err(ChunkError::InvalidTagByte));
        assert_eq!(ChunkType::try_from([65, 65, 65, b]), Err(ChunkError::InvalidTagByte));
    }
    for b in [0x41u8, 0x5A, 0x61, 0x7A] {
        assert!(ChunkType::try_from([b, b, b, b]).is_ok());
    }
}

#[test]
fn text_of_wrong_length_is_rejected() {
    assert_eq!(ChunkType::from_str("RuS"), Err(ChunkError::WrongTagLength));
    assert_eq!(ChunkType::from_str("RuStX"), Err(ChunkError::WrongTagLength));
    assert_eq!(ChunkType::from_str(""), Err(ChunkError::WrongTagLength));
    // Three characters, four bytes: the length is counted in bytes.
    assert_eq!(ChunkType::from_str("R\u{e9}S"), Err(ChunkError::InvalidTagByte));
}

#[test]
fn tag_text_round_trip() {
    let t = ChunkType::from_str("RuSt").unwrap();
    assert_eq!(t.to_string(), "RuSt");
    assert_eq!(ChunkType::from_str(&t.to_string()).unwrap(), t);
}

#[test]
fn chunk_type_trait_impls() {
    let chunk_type_1: ChunkType = TryFrom::try_from([82, 117, 83, 116]).unwrap();
    let chunk_type_2: ChunkType = FromStr::from_str("RuSt").unwrap();
    assert!(chunk_type_1 == chunk_type_2);
}
