use pngme::chunk::Chunk;
use pngme::chunk_type::ChunkType;
use pngme::error::PngError;
use pngme::png::Png;

fn chunk_from_strings(chunk_type: &str, data: &str) -> Chunk {
    Chunk::new(ChunkType::from_str(chunk_type).unwrap(), data.as_bytes().to_vec())
}

fn testing_chunks() -> Vec<Chunk> {
    vec![
        chunk_from_strings("FrSt", "I am the first chunk"),
        chunk_from_strings("miDl", "I am another chunk"),
        chunk_from_strings("LASt", "I am the last chunk"),
    ]
}

fn testing_png() -> Png {
    Png::from_chunks(testing_chunks())
}

fn same_chunks(a: &[Chunk], b: &[Chunk]) -> bool {
    a.len() == b.len() && a.iter().zip(b.iter()).all(|(x, y)| x.as_bytes() == y.as_bytes())
}

#[test]
fn header_is_the_png_signature() {
    assert_eq!(testing_png().header(), [137, 80, 78, 71, 13, 10, 26, 10]);
    assert_eq!(Png::STANDARD_HEADER, [137, 80, 78, 71, 13, 10, 26, 10]);
}

#[test]
fn encoding_is_signature_then_chunks() {
    let png = testing_png();
    let mut expected: Vec<u8> = Png::STANDARD_HEADER.to_vec();
    for c in testing_chunks() {
        expected.extend(c.as_bytes());
    }
    assert_eq!(png.as_bytes(), expected);
}

#[test]
fn container_round_trip() {
    let png = testing_png();
    let back = Png::try_from(png.as_bytes().as_slice()).unwrap();
    assert!(same_chunks(back.chunks(), png.chunks()));
    assert_eq!(back.chunks()[1].chunk_type().to_string(), "miDl");
}

#[test]
fn empty_container_round_trip() {
    let png = Png::from_chunks(vec![]);
    assert_eq!(png.as_bytes(), Png::STANDARD_HEADER.to_vec());
    let back = Png::try_from(&Png::STANDARD_HEADER[..]).unwrap();
    assert!(back.chunks().is_empty());
}

#[test]
fn bad_signature_is_rejected() {
    let mut bytes = testing_png().as_bytes();
    bytes[0] = 13;
    assert_eq!(Png::try_from(bytes.as_slice()).unwrap_err(), PngError::InvalidSignature);
    let mut bytes = testing_png().as_bytes();
    bytes[7] = 0;
    assert_eq!(Png::try_from(bytes.as_slice()).unwrap_err(), PngError::InvalidSignature);
    assert_eq!(Png::try_from(&[137, 80, 78][..]).unwrap_err(), PngError::InvalidSignature);
    assert_eq!(Png::try_from(&[0u8; 8][..]).unwrap_err(), PngError::InvalidSignature);
}

#[test]
fn a_bad_chunk_fails_the_whole_file() {
    let mut bytes = testing_png().as_bytes();
    let last = bytes.len() - 1;
    bytes[last] ^= 1;
    assert!(matches!(Png::try_from(bytes.as_slice()), Err(PngError::CrcMismatch { .. })));
    let bytes = testing_png().as_bytes();
    assert_eq!(
        Png::try_from(&bytes[..bytes.len() - 2]).unwrap_err(),
        PngError::TruncatedInput
    );
}

#[test]
fn append_then_find() {
    let mut png = testing_png();
    png.append_chunk(chunk_from_strings("TeSt", "Message"));
    let found = png.chunk_by_type("TeSt").unwrap();
    assert_eq!(found.chunk_type().to_string(), "TeSt");
    assert_eq!(found.data_as_string().unwrap(), "Message");
    assert_eq!(png.chunks().len(), 4);
}

#[test]
fn find_gives_the_first_match() {
    let mut png = testing_png();
    png.append_chunk(chunk_from_strings("FrSt", "second of its type"));
    let found = png.chunk_by_type("FrSt").unwrap();
    assert_eq!(found.data_as_string().unwrap(), "I am the first chunk");
    assert!(png.chunk_by_type("NoNe").is_none());
    assert!(png.chunk_by_type("FrS").is_none());
}

#[test]
fn remove_then_absent() {
    let mut png = testing_png();
    assert_eq!(png.remove_chunk("miDl"), Ok(()));
    assert!(png.chunk_by_type("miDl").is_none());
    assert_eq!(png.chunks().len(), 2);
    assert_eq!(png.chunks()[1].chunk_type().to_string(), "LASt");
}

#[test]
fn remove_takes_only_the_first_match() {
    let mut png = testing_png();
    png.append_chunk(chunk_from_strings("FrSt", "second of its type"));
    png.remove_chunk("FrSt").unwrap();
    let found = png.chunk_by_type("FrSt").unwrap();
    assert_eq!(found.data_as_string().unwrap(), "second of its type");
}

#[test]
fn remove_of_absent_type_changes_nothing() {
    let mut png = testing_png();
    let before = png.as_bytes();
    assert_eq!(png.remove_chunk("NoNe"), Err(PngError::ChunkNotFound));
    assert_eq!(png.as_bytes(), before);
}
