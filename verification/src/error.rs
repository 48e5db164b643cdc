//! The error type shared by every fallible operation of the library.

use vstd::prelude::*;

verus! {

/// Everything that can go wrong while parsing or manipulating a PNG
/// container, one variant per failure condition. Every operation of the
/// library reports failure through this type; none aborts the process.
#[derive(Clone, Copy, Debug, PartialEq, Eq, Structural)]
pub enum PngError {
    /// A chunk type string does not consist of exactly 4 bytes.
    InvalidLength,
    /// A chunk type string contains a byte that is not ASCII alphabetic.
    InvalidCharacters,
    /// A 4-byte chunk type code contains a byte that is not ASCII alphabetic.
    NotAsciiAlphabetic,
    /// A buffer is shorter than a declared field requires.
    InsufficientData,
    /// A stored checksum disagrees with the one recomputed over type and data.
    CrcMismatch,
    /// A byte buffer does not begin with the fixed PNG signature.
    BadSignature,
    /// A partial chunk record remains after the last complete chunk.
    TrailingData,
    /// No chunk of the requested type exists in the container.
    ChunkNotFound,
    /// Chunk data is not valid UTF-8 text.
    InvalidText,
}

} // verus!
