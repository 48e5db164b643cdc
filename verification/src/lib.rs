//! A library for hiding and retrieving text payloads inside a PNG image,
//! by inserting, reading and removing custom auxiliary chunks.
//!
//! The core of the library is the PNG chunk data model: the 4-byte chunk
//! type code with its bit-encoded semantics ([`chunk_type::ChunkType`]),
//! the length-prefixed, CRC-checked chunk record ([`chunk::Chunk`]), and
//! the container holding the fixed signature plus an ordered sequence of
//! chunks ([`png::PngContainer`]). All file and command-line handling is
//! left to callers; the library works on plain byte buffers.

pub mod be32;
pub mod checksum;
pub mod chunk;
pub mod chunk_type;
pub mod error;
pub mod png;
pub mod text;
