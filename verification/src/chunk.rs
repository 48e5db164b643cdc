//! One PNG chunk record: length, type, data and CRC, with its
//! serialized byte form and its parser.

use vstd::prelude::*;

use crate::be32::{
    lemma_u32_be_bytes_round_trip, push_u32_be, read_u32_be, spec_u32_from_be_bytes,
    spec_u32_to_be_bytes,
};
use crate::checksum::{crc32_checksum, crc32_of};
use crate::chunk_type::{chunk_type_wf, ChunkType};
use crate::error::PngError;
use crate::text::utf8_to_string;

verus! {

/// The mathematical content of one chunk record: its 4 type bytes, its
/// data bytes and its stored checksum. The length field of the wire form
/// is the data length and is not repeated here.
#[verifier::ext_equal]
pub struct ChunkModel {
    pub type_bytes: Seq<u8>,
    pub data: Seq<u8>,
    pub crc: u32,
}

/// True when a chunk record is internally consistent: the type code is
/// well-formed, the data length fits the 32-bit length field, and the
/// stored checksum equals the one computed over type and data.
pub open spec fn chunk_model_wf(m: ChunkModel) -> bool {
    &&& chunk_type_wf(m.type_bytes)
    &&& m.data.len() <= u32::MAX
    &&& m.crc == crc32_of(m.type_bytes + m.data)
}

/// The serialized byte form of a chunk record: data length (4 bytes
/// big-endian), the 4 type bytes, the data, and the checksum (4 bytes
/// big-endian).
pub open spec fn spec_chunk_serialize(m: ChunkModel) -> Seq<u8> {
    spec_u32_to_be_bytes(m.data.len() as u32) + m.type_bytes + m.data + spec_u32_to_be_bytes(m.crc)
}

/// The outcome of reading one chunk record from the front of `bytes`.
/// Bytes past the record are ignored. Failures, in the order the checks
/// run: fewer than 12 bytes; a type byte that is not ASCII alphabetic;
/// fewer data bytes than the length field declares; a stored checksum
/// that disagrees with the recomputed one.
pub open spec fn spec_chunk_parse(bytes: Seq<u8>) -> Result<ChunkModel, PngError> {
    if bytes.len() < 12 {
        Err(PngError::InsufficientData)
    } else {
        let dlen = spec_u32_from_be_bytes(bytes.subrange(0, 4)) as int;
        let type_bytes = bytes.subrange(4, 8);
        if !chunk_type_wf(type_bytes) {
            Err(PngError::NotAsciiAlphabetic)
        } else if bytes.len() < 12 + dlen {
            Err(PngError::InsufficientData)
        } else {
            let data = bytes.subrange(8, 8 + dlen);
            let stored = spec_u32_from_be_bytes(bytes.subrange(8 + dlen, 12 + dlen));
            if stored != crc32_of(type_bytes + data) {
                Err(PngError::CrcMismatch)
            } else {
                Ok(ChunkModel { type_bytes, data, crc: stored })
            }
        }
    }
}

/// Appends all bytes of `src` to `dst`.
pub(crate) fn push_bytes(dst: &mut Vec<u8>, src: &[u8])
    ensures
        final(dst)@ == old(dst)@ + src@,
{
    let mut i: usize = 0;
    while i < src.len()
        invariant
            i <= src@.len(),
            dst@ == old(dst)@ + src@.subrange(0, i as int),
        decreases src@.len() - i,
    {
        let b = src[i];
        dst.push(b);
        proof {
            assert(old(dst)@ + src@.subrange(0, i + 1) =~= (old(dst)@ + src@.subrange(
                0,
                i as int,
            )).push(b));
        }
        i = i + 1;
    }
    proof {
        assert(src@.subrange(0, src@.len() as int) =~= src@);
    }
}

/// One length-prefixed, CRC-checked record of the container format,
/// holding a 4-byte type code and a payload. A chunk is immutable after
/// construction, and its stored checksum always equals the one computed
/// over its type and data.
#[derive(Debug)]
pub struct Chunk {
    length: u32,
    chunktype: ChunkType,
    data: Vec<u8>,
    crc: u32,
}

impl View for Chunk {
    type V = ChunkModel;

    closed spec fn view(&self) -> ChunkModel {
        ChunkModel { type_bytes: self.chunktype@, data: self.data@, crc: self.crc }
    }
}

impl Chunk {
    #[verifier::type_invariant]
    spec fn type_inv(self) -> bool {
        self.length == self.data@.len() && chunk_model_wf(self@)
    }

    /// Builds a fresh chunk from a type code and a data buffer; the
    /// length and the checksum are derived, never supplied by a caller.
    /// The data must fit the 32-bit length field of the wire form.
    pub fn new(chunktype: ChunkType, data: Vec<u8>) -> (r: Chunk)
        requires
            data@.len() <= u32::MAX,
        ensures
            r@ == (ChunkModel {
                type_bytes: chunktype@,
                data: data@,
                crc: crc32_of(chunktype@ + data@),
            }),
    {
        let length = data.len() as u32;
        let tb = chunktype.bytes();
        let mut buf: Vec<u8> = Vec::new();
        buf.push(tb[0]);
        buf.push(tb[1]);
        buf.push(tb[2]);
        buf.push(tb[3]);
        push_bytes(&mut buf, data.as_slice());
        proof {
            assert(buf@ =~= chunktype@ + data@);
            use_type_invariant(&chunktype);
        }
        let crc = crc32_checksum(buf.as_slice());
        Chunk { length, chunktype, data, crc }
    }

    /// The byte count of the data, as the length field of the wire form
    /// carries it.
    pub fn length(&self) -> (r: u32)
        ensures
            r == self@.data.len(),
    {
        proof {
            use_type_invariant(&*self);
        }
        self.length
    }

    /// The chunk's type code.
    pub fn chunk_type(&self) -> (r: &ChunkType)
        ensures
            r@ == self@.type_bytes,
    {
        &self.chunktype
    }

    /// The chunk's data bytes.
    pub fn data(&self) -> (r: &[u8])
        ensures
            r@ == self@.data,
    {
        self.data.as_slice()
    }

    /// The stored checksum over type and data.
    pub fn crc(&self) -> (r: u32)
        ensures
            r == self@.crc,
    {
        self.crc
    }

    /// The data bytes interpreted as UTF-8 text; data that is not valid
    /// UTF-8 is reported as an error, never a panic.
    pub fn data_as_string(&self) -> (r: Result<String, PngError>)
        ensures
            vstd::utf8::valid_utf8(self@.data) ==> (r matches Ok(s) && s@
                == vstd::utf8::decode_utf8(self@.data)),
            !vstd::utf8::valid_utf8(self@.data) ==> r == Err::<String, PngError>(
                PngError::InvalidText,
            ),
    {
        let copy = vstd::slice::slice_to_vec(self.data.as_slice());
        match utf8_to_string(copy) {
            Some(s) => Ok(s),
            None => Err(PngError::InvalidText),
        }
    }

    /// The serialized byte form of the chunk: length, type, data, CRC.
    pub fn as_bytes(&self) -> (r: Vec<u8>)
        ensures
            r@ == spec_chunk_serialize(self@),
    {
        proof {
            use_type_invariant(&*self);
        }
        let mut out: Vec<u8> = Vec::new();
        push_u32_be(&mut out, self.length);
        let tb = self.chunktype.bytes();
        out.push(tb[0]);
        out.push(tb[1]);
        out.push(tb[2]);
        out.push(tb[3]);
        push_bytes(&mut out, self.data.as_slice());
        push_u32_be(&mut out, self.crc);
        proof {
            assert(out@ =~= spec_chunk_serialize(self@));
        }
        out
    }

    /// Reads one chunk record from the front of `bytes`, which must hold
    /// the record whole; bytes past the record are ignored. The result
    /// and each failure are exactly those of [`spec_chunk_parse`].
    pub fn parse(bytes: &[u8]) -> (r: Result<Chunk, PngError>)
        ensures
            r matches Ok(c) ==> spec_chunk_parse(bytes@) == Ok::<ChunkModel, PngError>(c@),
            r matches Err(e) ==> spec_chunk_parse(bytes@) == Err::<ChunkModel, PngError>(e),
    {
        proof {
            assert(bytes@.skip(0) =~= bytes@);
        }
        match parse_chunk_at(bytes, 0) {
            Ok((c, _)) => Ok(c),
            Err(e) => Err(e),
        }
    }
}

/// Reads one chunk record from `bytes` starting at `start`, returning the
/// chunk together with the position just past its last byte.
pub(crate) fn parse_chunk_at(bytes: &[u8], start: usize) -> (r: Result<(Chunk, usize), PngError>)
    requires
        start <= bytes@.len(),
    ensures
        r matches Ok(p) ==> spec_chunk_parse(bytes@.skip(start as int)) == Ok::<
            ChunkModel,
            PngError,
        >(p.0@) && p.1 == start + 12 + p.0@.data.len(),
        r matches Err(e) ==> spec_chunk_parse(bytes@.skip(start as int)) == Err::<
            ChunkModel,
            PngError,
        >(e),
{
    let ghost rest = bytes@.skip(start as int);
    let n = bytes.len();
    if n - start < 12 {
        return Err(PngError::InsufficientData);
    }
    let dlen = read_u32_be(bytes, start);
    proof {
        assert(bytes@.subrange(start as int, start as int + 4) =~= rest.subrange(0, 4));
    }
    let type_arr = [bytes[start + 4], bytes[start + 5], bytes[start + 6], bytes[start + 7]];
    proof {
        assert(type_arr@ =~= rest.subrange(4, 8));
    }
    let chunktype = match ChunkType::parse(type_arr) {
        Ok(t) => t,
        Err(_) => {
            return Err(PngError::NotAsciiAlphabetic);
        },
    };
    let dlen_us = dlen as usize;
    if n - start - 12 < dlen_us {
        return Err(PngError::InsufficientData);
    }
    let data = vstd::slice::slice_to_vec(&bytes[start + 8..start + 8 + dlen_us]);
    proof {
        assert(data@ =~= rest.subrange(8, 8 + dlen as int));
    }
    let mut buf: Vec<u8> = Vec::new();
    let tb = chunktype.bytes();
    buf.push(tb[0]);
    buf.push(tb[1]);
    buf.push(tb[2]);
    buf.push(tb[3]);
    push_bytes(&mut buf, data.as_slice());
    proof {
        assert(buf@ =~= rest.subrange(4, 8) + rest.subrange(8, 8 + dlen as int));
    }
    let computed = crc32_checksum(buf.as_slice());
    let stored = read_u32_be(bytes, start + 8 + dlen_us);
    proof {
        assert(bytes@.subrange(
            start + 8 + dlen as int,
            start + 12 + dlen as int,
        ) =~= rest.subrange(8 + dlen as int, 12 + dlen as int));
    }
    if stored != computed {
        return Err(PngError::CrcMismatch);
    }
    let chunk = Chunk { length: dlen, chunktype, data, crc: stored };
    Ok((chunk, start + 12 + dlen_us))
}

/// Round trip with an arbitrary tail: a consistent chunk's serialized
/// form, followed by any further bytes, parses back to that same chunk,
/// and the record occupies exactly the first `12 + data length` bytes.
pub proof fn lemma_chunk_parse_with_tail(m: ChunkModel, tail: Seq<u8>)
    requires
        chunk_model_wf(m),
    ensures
        spec_chunk_parse(spec_chunk_serialize(m) + tail) == Ok::<ChunkModel, PngError>(m),
        (spec_chunk_serialize(m) + tail).skip(12 + m.data.len() as int) == tail,
{
    let bytes = spec_chunk_serialize(m) + tail;
    let dlen = m.data.len() as int;
    assert(bytes.len() == 12 + dlen + tail.len());
    assert(bytes.subrange(0, 4) =~= spec_u32_to_be_bytes(m.data.len() as u32));
    lemma_u32_be_bytes_round_trip(m.data.len() as u32);
    assert(spec_u32_from_be_bytes(bytes.subrange(0, 4)) == m.data.len() as u32);
    assert(bytes.subrange(4, 8) =~= m.type_bytes);
    assert(bytes.subrange(8, 8 + dlen) =~= m.data);
    assert(bytes.subrange(8 + dlen, 12 + dlen) =~= spec_u32_to_be_bytes(m.crc));
    lemma_u32_be_bytes_round_trip(m.crc);
    assert(spec_chunk_parse(bytes) matches Ok(m2) && m2 =~= m);
    assert(bytes.skip(12 + dlen) =~= tail);
}

/// The reverse round trip: a record read from the front of `bytes` is
/// consistent, and serializing it reproduces exactly the bytes the
/// record occupied.
pub proof fn lemma_chunk_parse_serialize_round_trip(bytes: Seq<u8>)
    requires
        spec_chunk_parse(bytes) is Ok,
    ensures
        chunk_model_wf(spec_chunk_parse(bytes)->Ok_0),
        12 + spec_chunk_parse(bytes)->Ok_0.data.len() <= bytes.len(),
        spec_chunk_serialize(spec_chunk_parse(bytes)->Ok_0) == bytes.take(
            12 + spec_chunk_parse(bytes)->Ok_0.data.len() as int,
        ),
{
    let m = spec_chunk_parse(bytes)->Ok_0;
    let dlen = spec_u32_from_be_bytes(bytes.subrange(0, 4)) as int;
    assert(m.type_bytes == bytes.subrange(4, 8));
    assert(m.data == bytes.subrange(8, 8 + dlen));
    assert(m.data.len() == dlen);
    crate::be32::lemma_u32_be_bytes_inverse(bytes.subrange(0, 4));
    crate::be32::lemma_u32_be_bytes_inverse(bytes.subrange(8 + dlen, 12 + dlen));
    assert(m.data.len() as u32 == spec_u32_from_be_bytes(bytes.subrange(0, 4)));
    assert(spec_chunk_serialize(m) =~= bytes.take(12 + dlen));
}

/// Round trip: parsing the serialized byte form of a consistent chunk
/// record yields exactly that record.
pub proof fn lemma_chunk_serialize_parse_round_trip(m: ChunkModel)
    requires
        chunk_model_wf(m),
    ensures
        spec_chunk_parse(spec_chunk_serialize(m)) == Ok::<ChunkModel, PngError>(m),
{
    lemma_chunk_parse_with_tail(m, Seq::empty());
    assert(spec_chunk_serialize(m) + Seq::<u8>::empty() =~= spec_chunk_serialize(m));
}

} // verus!
