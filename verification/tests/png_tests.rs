use pngme::chunk::Chunk;
use pngme::chunk_type::ChunkType;
use pngme::error::PngError;
use pngme::png::{decode_msg, encode_png, remove_msg, PngContainer};

const SIGNATURE: [u8; 8] = [137, 80, 78, 71, 13, 10, 26, 10];

fn empty_container_bytes() -> Vec<u8> {
    SIGNATURE.to_vec()
}

fn container_with_chunks(chunks: Vec<Chunk>) -> Vec<u8> {
    let mut bytes = empty_container_bytes();
    for chunk in chunks {
        bytes.extend_from_slice(chunk.as_bytes().as_ref());
    }
    bytes
}

#[test]
fn test_png_parse_empty() {
    let png = PngContainer::parse(empty_container_bytes().as_ref()).unwrap();
    assert_eq!(png.chunks().len(), 0);
    assert_eq!(png.serialize(), empty_container_bytes());
}

#[test]
fn test_png_bad_signature() {
    let bad = vec![13, 80, 78, 71, 13, 10, 26, 10];
    assert_eq!(PngContainer::parse(bad.as_ref()).unwrap_err(), PngError::BadSignature);
    assert_eq!(PngContainer::parse(&[]).unwrap_err(), PngError::BadSignature);
    assert_eq!(PngContainer::parse(&[137, 80]).unwrap_err(), PngError::BadSignature);

    let mut with_chunks = vec![0, 80, 78, 71, 13, 10, 26, 10];
    let chunk = Chunk::new(ChunkType::parse_str("RuSt").unwrap(), vec![1, 2, 3]);
    with_chunks.extend_from_slice(chunk.as_bytes().as_ref());
    assert_eq!(PngContainer::parse(with_chunks.as_ref()).unwrap_err(), PngError::BadSignature);
}

#[test]
fn test_png_trailing_data() {
    let mut bytes = empty_container_bytes();
    bytes.extend_from_slice(&[1, 2, 3]);
    assert_eq!(PngContainer::parse(bytes.as_ref()).unwrap_err(), PngError::TrailingData);
}

#[test]
fn test_png_propagates_chunk_error() {
    let chunk = Chunk::new(ChunkType::parse_str("RuSt").unwrap(), "hi".as_bytes().to_vec());
    let mut bytes = container_with_chunks(vec![chunk]);
    let last = bytes.len() - 1;
    bytes[last] ^= 0xff;
    assert_eq!(PngContainer::parse(bytes.as_ref()).unwrap_err(), PngError::CrcMismatch);
}

#[test]
fn test_png_parse_and_serialize_round_trip() {
    let c1 = Chunk::new(ChunkType::parse_str("FrSt").unwrap(), "first".as_bytes().to_vec());
    let c2 = Chunk::new(ChunkType::parse_str("miDl").unwrap(), "middle".as_bytes().to_vec());
    let bytes = container_with_chunks(vec![c1, c2]);

    let png = PngContainer::parse(bytes.as_ref()).unwrap();
    assert_eq!(png.chunks().len(), 2);
    assert_eq!(png.serialize(), bytes);
}

#[test]
fn test_png_append_and_find_chunk() {
    let mut png = PngContainer::parse(empty_container_bytes().as_ref()).unwrap();
    let chunk = Chunk::new(ChunkType::parse_str("RuSt").unwrap(), "secret".as_bytes().to_vec());
    png.append_chunk(chunk);

    let found = png.chunk_by_type("RuSt").unwrap();
    assert_eq!(found.data_as_string().unwrap(), "secret");
    assert!(png.chunk_by_type("TeSt").is_none());
}

#[test]
fn test_png_remove_first_match_only() {
    let mut png = PngContainer::parse(empty_container_bytes().as_ref()).unwrap();
    png.append_chunk(Chunk::new(ChunkType::parse_str("RuSt").unwrap(), "one".as_bytes().to_vec()));
    png.append_chunk(Chunk::new(ChunkType::parse_str("RuSt").unwrap(), "two".as_bytes().to_vec()));

    let removed = png.remove_chunk("RuSt").unwrap();
    assert_eq!(removed.data_as_string().unwrap(), "one");
    let remaining = png.chunk_by_type("RuSt").unwrap();
    assert_eq!(remaining.data_as_string().unwrap(), "two");
}

#[test]
fn test_png_remove_not_found() {
    let mut png = PngContainer::parse(empty_container_bytes().as_ref()).unwrap();
    assert_eq!(png.remove_chunk("RuSt").unwrap_err(), PngError::ChunkNotFound);
}

#[test]
fn test_png_end_to_end() {
    let png = PngContainer::parse(empty_container_bytes().as_ref()).unwrap();
    assert_eq!(png.chunks().len(), 0);

    let mut png = png;
    let chunk = Chunk::new(ChunkType::parse_str("ruSt").unwrap(), "hello".as_bytes().to_vec());
    png.append_chunk(chunk);

    let bytes = png.serialize();
    let mut reparsed = PngContainer::parse(bytes.as_ref()).unwrap();

    let found = reparsed.chunk_by_type("ruSt").unwrap();
    assert_eq!(found.data_as_string().unwrap(), "hello");

    let removed = reparsed.remove_chunk("ruSt").unwrap();
    assert_eq!(removed.data_as_string().unwrap(), "hello");
    assert!(reparsed.chunk_by_type("ruSt").is_none());
    assert_eq!(reparsed.remove_chunk("ruSt").unwrap_err(), PngError::ChunkNotFound);
}

#[test]
fn test_encode_decode_remove_msg() {
    let mut png = PngContainer::parse(empty_container_bytes().as_ref()).unwrap();

    encode_png(&mut png, "RuSt", "a hidden note").unwrap();
    assert_eq!(decode_msg(&png, "RuSt").unwrap(), "a hidden note");

    assert_eq!(remove_msg(&mut png, "RuSt").unwrap(), "a hidden note");
    assert_eq!(decode_msg(&png, "RuSt").unwrap_err(), PngError::ChunkNotFound);
}

#[test]
fn test_encode_rejects_bad_type() {
    let mut png = PngContainer::parse(empty_container_bytes().as_ref()).unwrap();
    assert_eq!(encode_png(&mut png, "toolong", "msg").unwrap_err(), PngError::InvalidLength);
    assert_eq!(encode_png(&mut png, "Ru1t", "msg").unwrap_err(), PngError::InvalidCharacters);
    assert_eq!(png.chunks().len(), 0);
}

#[test]
fn test_decode_msg_invalid_text() {
    let mut png = PngContainer::parse(empty_container_bytes().as_ref()).unwrap();
    png.append_chunk(Chunk::new(ChunkType::parse_str("RuSt").unwrap(), vec![0xc3, 0x28]));
    assert_eq!(decode_msg(&png, "RuSt").unwrap_err(), PngError::InvalidText);
}
