use pngme::chunk_type::ChunkType;
use pngme::error::PngError;

#[test]
pub fn test_chunk_type_from_bytes() {
    let expected = [82, 117, 83, 116];
    let actual = ChunkType::try_from([82, 117, 83, 116]).unwrap();

    assert_eq!(expected, actual.bytes());
}

#[test]
pub fn test_chunk_type_from_str() {
    let expected = ChunkType::try_from([82, 117, 83, 116]).unwrap();
    let actual = ChunkType::from_str("RuSt").unwrap();
    assert_eq!(expected, actual);
}

#[test]
pub fn test_chunk_type_is_critical() {
    let chunk = ChunkType::from_str("RuSt").unwrap();
    assert!(chunk.is_critical());
}

#[test]
pub fn test_chunk_type_is_not_critical() {
    let chunk = ChunkType::from_str("ruSt").unwrap();
    assert!(!chunk.is_critical());
}

#[test]
pub fn test_chunk_type_is_public() {
    let chunk = ChunkType::from_str("RUSt").unwrap();
    assert!(chunk.is_public());
}

#[test]
pub fn test_chunk_type_is_not_public() {
    let chunk = ChunkType::from_str("RuSt").unwrap();
    assert!(!chunk.is_public());
}

#[test]
pub fn test_chunk_type_is_reserved_bit_valid() {
    let chunk = ChunkType::from_str("RuSt").unwrap();
    assert!(chunk.is_reserved_bit_valid());
}

#[test]
pub fn test_chunk_type_is_reserved_bit_invalid() {
    let chunk = ChunkType::from_str("Rust").unwrap();
    assert!(!chunk.is_reserved_bit_valid());
}

#[test]
pub fn test_chunk_type_is_safe_to_copy() {
    let chunk = ChunkType::from_str("RuSt").unwrap();
    assert!(chunk.is_safe_to_copy());
}

#[test]
pub fn test_chunk_type_is_unsafe_to_copy() {
    let chunk = ChunkType::from_str("RuST").unwrap();
    assert!(!chunk.is_safe_to_copy());
}

#[test]
pub fn test_valid_chunk_is_valid() {
    let chunk = ChunkType::from_str("RuSt").unwrap();
    assert!(chunk.is_valid());
}

#[test]
pub fn test_invalid_chunk_is_valid() {
    let chunk = ChunkType::from_str("Rust").unwrap();
    assert!(!chunk.is_valid());

    let chunk = ChunkType::from_str("Ru1t");
    assert!(chunk.is_err());
}

#[test]
pub fn test_chunk_type_string() {
    let chunk = ChunkType::from_str("RuSt").unwrap();
    assert_eq!(&chunk.to_string(), "RuSt");
}

#[test]
pub fn test_chunk_type_trait_impls() {
    let chunk_type_1 = ChunkType::try_from([82, 117, 83, 116]).unwrap();
    let chunk_type_2 = ChunkType::from_str("RuSt").unwrap();
    let _chunk_string = chunk_type_1.to_string();
    assert!(chunk_type_1 == chunk_type_2);
}

#[test]
fn letters_z_are_accepted() {
    let t = ChunkType::from_str("ZzZz").unwrap();
    assert_eq!(t.bytes(), [90, 122, 90, 122]);
    let t = ChunkType::try_from([b'z', b'Z', b'a', b'A']).unwrap();
    assert_eq!(t.to_string(), "zZaA");
}

#[test]
fn non_letter_bytes_are_rejected() {
    assert_eq!(ChunkType::try_from([82, 117, 64, 116]), Err(PngError::InvalidChunkType));
    assert_eq!(ChunkType::try_from([82, 117, 91, 116]), Err(PngError::InvalidChunkType));
    assert_eq!(ChunkType::try_from([96, 117, 83, 116]), Err(PngError::InvalidChunkType));
    assert_eq!(ChunkType::try_from([123, 117, 83, 116]), Err(PngError::InvalidChunkType));
}

#[test]
fn text_of_wrong_length_is_rejected() {
    assert_eq!(ChunkType::from_str("abc"), Err(PngError::InvalidLength));
    assert_eq!(ChunkType::from_str("abcde"), Err(PngError::InvalidLength));
    assert_eq!(ChunkType::from_str(""), Err(PngError::InvalidLength));
    assert_eq!(ChunkType::from_str("ab1"), Err(PngError::InvalidChunkType));
    assert_eq!(ChunkType::from_str("abé"), Err(PngError::InvalidChunkType));
}

#[test]
fn every_letter_tag_renders_as_itself() {
    let letters: Vec<u8> = (b'A'..=b'Z').chain(b'a'..=b'z').collect();
    for (k, &a) in letters.iter().enumerate() {
        let b = letters[(k * 7 + 3) % letters.len()];
        let c = letters[(k * 11 + 5) % letters.len()];
        let d = letters[(k * 13 + 1) % letters.len()];
        let t = ChunkType::try_from([a, b, c, d]).unwrap();
        let s = t.to_string();
        assert_eq!(s.as_bytes(), &[a, b, c, d]);
        assert_eq!(ChunkType::from_str(&s).unwrap(), t);
    }
}

#[test]
fn is_valid_needs_upper_case_third_letter() {
    assert!(ChunkType::from_str("abCd").unwrap().is_valid());
    assert!(!ChunkType::from_str("abcd").unwrap().is_valid());
}
