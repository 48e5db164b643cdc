//! The CRC-32/ISO-HDLC checksum that guards every PNG chunk record.

use vstd::prelude::*;

verus! {

/// The CRC-32/ISO-HDLC checksum of a byte sequence. The checksum is a pure
/// function of the input bytes; its value is left abstract here and is
/// computed by the `crc` crate.
pub uninterp spec fn crc32_of(bytes: Seq<u8>) -> u32;

/// Relies on `crc::Crc::<u32>::checksum` with the CRC-32/ISO-HDLC algorithm
/// from the crate's catalog: a deterministic, pure function of the input
/// bytes.
#[verifier::external_body]
pub(crate) fn crc32_checksum(bytes: &[u8]) -> (r: u32)
    ensures
        r == crc32_of(bytes@),
{
    crc::Crc::<u32>::new(&crc::CRC_32_ISO_HDLC).checksum(bytes)
}

} // verus!
