use pngme::chunk::Chunk;
use pngme::chunk_type::ChunkType;
use pngme::error::PngError;

fn chunk_bytes(data_length: u32, chunk_type: &[u8], message: &[u8], crc: u32) -> Vec<u8> {
    let mut bytes: Vec<u8> = Vec::new();
    bytes.extend_from_slice(&data_length.to_be_bytes());
    bytes.extend_from_slice(chunk_type);
    bytes.extend_from_slice(message);
    bytes.extend_from_slice(&crc.to_be_bytes());
    bytes
}

fn testing_chunk() -> Chunk {
    let data_length: u32 = 42;
    let chunk_type = "RuSt".as_bytes();
    let message_bytes = "This is where your secret message will be!".as_bytes();
    let crc: u32 = 2882656334;

    let chunk_data = chunk_bytes(data_length, chunk_type, message_bytes, crc);

    Chunk::parse(chunk_data.as_ref()).unwrap()
}

#[test]
fn test_new_chunk() {
    let chunk_type = ChunkType::parse_str("RuSt").unwrap();
    let data = "This is where your secret message will be!".as_bytes().to_vec();
    let chunk = Chunk::new(chunk_type, data);
    assert_eq!(chunk.length(), 42);
    assert_eq!(chunk.crc(), 2882656334);
}

#[test]
fn test_chunk_length() {
    let chunk = testing_chunk();
    assert_eq!(chunk.length(), 42);
}

#[test]
fn test_chunk_type() {
    let chunk = testing_chunk();
    assert_eq!(chunk.chunk_type().to_string(), String::from("RuSt"));
}

#[test]
fn test_chunk_string() {
    let chunk = testing_chunk();
    let chunk_string = chunk.data_as_string().unwrap();
    let expected_chunk_string = String::from("This is where your secret message will be!");
    assert_eq!(chunk_string, expected_chunk_string);
}

#[test]
fn test_chunk_crc() {
    let chunk = testing_chunk();
    assert_eq!(chunk.crc(), 2882656334);
}

#[test]
fn test_valid_chunk_from_bytes() {
    let data_length: u32 = 42;
    let chunk_type = "RuSt".as_bytes();
    let message_bytes = "This is where your secret message will be!".as_bytes();
    let crc: u32 = 2882656334;

    let chunk_data = chunk_bytes(data_length, chunk_type, message_bytes, crc);

    let chunk = Chunk::parse(chunk_data.as_ref()).unwrap();

    let chunk_string = chunk.data_as_string().unwrap();
    let expected_chunk_string = String::from("This is where your secret message will be!");

    assert_eq!(chunk.length(), 42);
    assert_eq!(chunk.chunk_type().to_string(), String::from("RuSt"));
    assert_eq!(chunk_string, expected_chunk_string);
    assert_eq!(chunk.crc(), 2882656334);
}

#[test]
fn test_invalid_chunk_from_bytes() {
    let data_length: u32 = 42;
    let chunk_type = "RuSt".as_bytes();
    let message_bytes = "This is where your secret message will be!".as_bytes();
    let crc: u32 = 2882656333;

    let chunk_data = chunk_bytes(data_length, chunk_type, message_bytes, crc);

    let chunk = Chunk::parse(chunk_data.as_ref());
    assert!(chunk.is_err());
}

#[test]
fn test_chunk_trait_impls() {
    let data_length: u32 = 42;
    let chunk_type = "RuSt".as_bytes();
    let message_bytes = "This is where your secret message will be!".as_bytes();
    let crc: u32 = 2882656334;

    let chunk_data = chunk_bytes(data_length, chunk_type, message_bytes, crc);

    let chunk: Chunk = Chunk::parse(chunk_data.as_ref()).unwrap();

    let _chunk_string = chunk.data_as_string().unwrap();
}

#[test]
fn test_chunk_serialize_parse_round_trip() {
    let chunk_type = ChunkType::parse_str("RuSt").unwrap();
    let data = "any payload at all".as_bytes().to_vec();
    let chunk = Chunk::new(chunk_type, data.clone());

    let bytes = chunk.as_bytes();
    let reparsed = Chunk::parse(bytes.as_ref()).unwrap();

    assert_eq!(reparsed.length(), chunk.length());
    assert_eq!(reparsed.chunk_type().bytes(), chunk.chunk_type().bytes());
    assert_eq!(reparsed.data(), chunk.data());
    assert_eq!(reparsed.crc(), chunk.crc());
}

#[test]
fn test_chunk_serialized_layout() {
    let chunk_type = ChunkType::parse_str("RuSt").unwrap();
    let chunk = Chunk::new(chunk_type, vec![1, 2, 3]);
    let bytes = chunk.as_bytes();
    assert_eq!(bytes.len(), 15);
    assert_eq!(&bytes[0..4], &[0, 0, 0, 3]);
    assert_eq!(&bytes[4..8], "RuSt".as_bytes());
    assert_eq!(&bytes[8..11], &[1, 2, 3]);
    assert_eq!(&bytes[11..15], &chunk.crc().to_be_bytes());
}

#[test]
fn test_chunk_mutated_data_byte_gives_crc_mismatch() {
    let chunk_type = ChunkType::parse_str("RuSt").unwrap();
    let chunk = Chunk::new(chunk_type, "hello".as_bytes().to_vec());
    let mut bytes = chunk.as_bytes();
    bytes[8] ^= 0x01;
    assert_eq!(Chunk::parse(bytes.as_ref()).unwrap_err(), PngError::CrcMismatch);
}

#[test]
fn test_chunk_insufficient_data() {
    assert_eq!(Chunk::parse(&[0, 0, 0, 1]).unwrap_err(), PngError::InsufficientData);
    let short = chunk_bytes(200, "RuSt".as_bytes(), "tiny".as_bytes(), 0);
    assert_eq!(Chunk::parse(short.as_ref()).unwrap_err(), PngError::InsufficientData);
}

#[test]
fn test_chunk_bad_type_bytes() {
    let bytes = chunk_bytes(4, &[82, 117, 49, 116], "data".as_bytes(), 0);
    assert_eq!(Chunk::parse(bytes.as_ref()).unwrap_err(), PngError::NotAsciiAlphabetic);
}

#[test]
fn test_chunk_data_not_utf8() {
    let chunk_type = ChunkType::parse_str("RuSt").unwrap();
    let chunk = Chunk::new(chunk_type, vec![0xff, 0xfe, 0x00]);
    assert_eq!(chunk.data_as_string(), Err(PngError::InvalidText));
}

#[test]
fn test_chunk_empty_data() {
    let chunk_type = ChunkType::parse_str("RuSt").unwrap();
    let chunk = Chunk::new(chunk_type, Vec::new());
    assert_eq!(chunk.length(), 0);
    assert_eq!(chunk.data_as_string().unwrap(), String::new());
    let reparsed = Chunk::parse(chunk.as_bytes().as_ref()).unwrap();
    assert_eq!(reparsed.crc(), chunk.crc());
}
