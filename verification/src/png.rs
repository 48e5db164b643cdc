//! The PNG container: the fixed signature followed by an ordered
//! sequence of chunks, with parse, serialize, append, find and remove.

use vstd::prelude::*;
use vstd::string::StringSliceAdditionalSpecFns;
use vstd::string::StrSliceExecFns;

use crate::checksum::crc32_of;
use crate::chunk::{
    chunk_model_wf, lemma_chunk_parse_with_tail, parse_chunk_at, push_bytes, spec_chunk_parse,
    spec_chunk_serialize, Chunk, ChunkModel,
};
use crate::chunk_type::{chunk_type_wf, ChunkType};
use crate::error::PngError;

verus! {

/// The fixed 8-byte signature that opens every PNG file.
pub open spec fn spec_png_signature() -> Seq<u8> {
    seq![137u8, 80u8, 78u8, 71u8, 13u8, 10u8, 26u8, 10u8]
}

/// True when `bytes` starts with the fixed PNG signature.
pub open spec fn has_png_signature(bytes: Seq<u8>) -> bool {
    bytes.len() >= 8 && bytes.subrange(0, 8) == spec_png_signature()
}

/// The concatenated serialized forms of a sequence of chunk records.
pub open spec fn spec_chunks_serialize(ms: Seq<ChunkModel>) -> Seq<u8>
    decreases ms.len(),
{
    if ms.len() == 0 {
        Seq::empty()
    } else {
        spec_chunk_serialize(ms[0]) + spec_chunks_serialize(ms.drop_first())
    }
}

/// The outcome of reading chunk records one after the other until the
/// bytes run out. A leftover shorter than the 12 bytes a record needs at
/// minimum is trailing garbage; any failure of a single record
/// short-circuits the whole read.
pub open spec fn spec_chunks_parse(bytes: Seq<u8>) -> Result<Seq<ChunkModel>, PngError>
    decreases bytes.len(),
{
    if bytes.len() == 0 {
        Ok(Seq::empty())
    } else if bytes.len() < 12 {
        Err(PngError::TrailingData)
    } else {
        match spec_chunk_parse(bytes) {
            Err(e) => Err(e),
            Ok(m) => if 12 + m.data.len() <= bytes.len() {
                // the guard always holds of a record that parsed; it keeps
                // the recursion visibly decreasing
                match spec_chunks_parse(bytes.skip(12 + m.data.len() as int)) {
                    Err(e) => Err(e),
                    Ok(rest) => Ok(seq![m] + rest),
                }
            } else {
                Err(PngError::InsufficientData)
            },
        }
    }
}

/// The outcome of parsing a whole container: the signature must match
/// exactly, then the remaining bytes must be a clean sequence of chunk
/// records.
pub open spec fn spec_container_parse(bytes: Seq<u8>) -> Result<Seq<ChunkModel>, PngError> {
    if !has_png_signature(bytes) {
        Err(PngError::BadSignature)
    } else {
        spec_chunks_parse(bytes.skip(8))
    }
}

/// The serialized byte form of a container holding the given records.
pub open spec fn spec_container_serialize(ms: Seq<ChunkModel>) -> Seq<u8> {
    spec_png_signature() + spec_chunks_serialize(ms)
}

/// The in-memory form of one PNG file: an ordered sequence of chunks
/// behind the fixed signature. Insertion order is kept; the container
/// guarantees the structural validity of each chunk and enforces no
/// further ordering policy.
#[derive(Debug)]
pub struct PngContainer {
    chunks: Vec<Chunk>,
}

impl View for PngContainer {
    type V = Seq<ChunkModel>;

    closed spec fn view(&self) -> Seq<ChunkModel> {
        self.chunks@.map_values(|c: Chunk| c@)
    }
}

/// Serializing one more chunk record extends the serialized form of the
/// records before it.
proof fn lemma_chunks_serialize_push(ms: Seq<ChunkModel>, m: ChunkModel)
    ensures
        spec_chunks_serialize(ms.push(m)) == spec_chunks_serialize(ms) + spec_chunk_serialize(m),
    decreases ms.len(),
{
    if ms.len() == 0 {
        assert(ms =~= Seq::<ChunkModel>::empty());
        assert(ms.push(m)[0] == m);
        assert(ms.push(m).drop_first() =~= Seq::<ChunkModel>::empty());
        assert(spec_chunks_serialize(ms.push(m)) == spec_chunk_serialize(m)
            + spec_chunks_serialize(ms.push(m).drop_first()));
        assert(spec_chunks_serialize(ms.push(m)) =~= spec_chunks_serialize(ms)
            + spec_chunk_serialize(m));
    } else {
        assert(ms.push(m).drop_first() =~= ms.drop_first().push(m));
        lemma_chunks_serialize_push(ms.drop_first(), m);
        assert(ms.push(m)[0] == ms[0]);
        assert(spec_chunks_serialize(ms.push(m)) == spec_chunk_serialize(ms[0])
            + spec_chunks_serialize(ms.drop_first().push(m)));
        assert(spec_chunk_serialize(ms[0]) + (spec_chunks_serialize(ms.drop_first())
            + spec_chunk_serialize(m)) =~= (spec_chunk_serialize(ms[0]) + spec_chunks_serialize(
            ms.drop_first(),
        )) + spec_chunk_serialize(m));
    }
}

impl PngContainer {
    /// Reads a container from raw bytes: the fixed signature, then chunk
    /// records until the buffer is exhausted. The result and each failure
    /// are exactly those of [`spec_container_parse`]; nothing partial is
    /// ever returned.
    pub fn parse(bytes: &[u8]) -> (r: Result<PngContainer, PngError>)
        ensures
            r matches Ok(p) ==> spec_container_parse(bytes@) == Ok::<Seq<ChunkModel>, PngError>(
                p@,
            ),
            r matches Err(e) ==> spec_container_parse(bytes@) == Err::<Seq<ChunkModel>, PngError>(
                e,
            ),
    {
        if bytes.len() < 8 {
            return Err(PngError::BadSignature);
        }
        let sig_ok = bytes[0] == 137 && bytes[1] == 80 && bytes[2] == 78 && bytes[3] == 71
            && bytes[4] == 13 && bytes[5] == 10 && bytes[6] == 26 && bytes[7] == 10;
        if !sig_ok {
            proof {
                if has_png_signature(bytes@) {
                    assert(forall|i: int|
                        0 <= i < 8 ==> bytes@.subrange(0, 8)[i] == spec_png_signature()[i]);
                }
            }
            return Err(PngError::BadSignature);
        }
        proof {
            assert(bytes@.subrange(0, 8) =~= spec_png_signature());
        }
        let mut chunks: Vec<Chunk> = Vec::new();
        let mut pos: usize = 8;
        while pos < bytes.len()
            invariant
                8 <= pos <= bytes@.len(),
                has_png_signature(bytes@),
                match spec_chunks_parse(bytes@.skip(pos as int)) {
                    Ok(rest) => spec_chunks_parse(bytes@.skip(8)) == Ok::<
                        Seq<ChunkModel>,
                        PngError,
                    >(chunks@.map_values(|c: Chunk| c@) + rest),
                    Err(e) => spec_chunks_parse(bytes@.skip(8)) == Err::<
                        Seq<ChunkModel>,
                        PngError,
                    >(e),
                },
            decreases bytes@.len() - pos,
        {
            if bytes.len() - pos < 12 {
                proof {
                    assert(bytes@.skip(pos as int).len() == bytes@.len() - pos);
                }
                return Err(PngError::TrailingData);
            }
            match parse_chunk_at(bytes, pos) {
                Err(e) => {
                    proof {
                        assert(bytes@.skip(pos as int).len() == bytes@.len() - pos);
                    }
                    return Err(e);
                },
                Ok((c, next)) => {
                    proof {
                        let s = bytes@.skip(pos as int);
                        assert(s.skip(12 + c@.data.len() as int) =~= bytes@.skip(next as int));
                        assert(spec_chunks_parse(s) matches Ok(all) ==> all == seq![c@]
                            + spec_chunks_parse(bytes@.skip(next as int))->Ok_0);
                        assert(chunks@.push(c).map_values(|x: Chunk| x@) =~= chunks@.map_values(
                            |x: Chunk| x@,
                        ).push(c@));
                        assert(chunks@.map_values(|x: Chunk| x@).push(c@) + spec_chunks_parse(
                            bytes@.skip(next as int),
                        )->Ok_0 =~= chunks@.map_values(|x: Chunk| x@) + (seq![c@]
                            + spec_chunks_parse(bytes@.skip(next as int))->Ok_0));
                    }
                    chunks.push(c);
                    pos = next;
                },
            }
        }
        proof {
            assert(bytes@.skip(pos as int) =~= Seq::<u8>::empty());
            assert(chunks@.map_values(|c: Chunk| c@) + Seq::<ChunkModel>::empty()
                =~= chunks@.map_values(|c: Chunk| c@));
        }
        Ok(PngContainer { chunks })
    }

    /// The signature bytes followed by each chunk's serialized form, in
    /// stored order.
    pub fn serialize(&self) -> (r: Vec<u8>)
        ensures
            r@ == spec_container_serialize(self@),
    {
        let mut out: Vec<u8> = Vec::new();
        out.push(137);
        out.push(80);
        out.push(78);
        out.push(71);
        out.push(13);
        out.push(10);
        out.push(26);
        out.push(10);
        proof {
            assert(out@ =~= spec_png_signature());
            assert(self@.subrange(0, 0) =~= Seq::<ChunkModel>::empty());
        }
        let mut i: usize = 0;
        while i < self.chunks.len()
            invariant
                i <= self.chunks@.len(),
                self@.len() == self.chunks@.len(),
                out@ == spec_png_signature() + spec_chunks_serialize(self@.subrange(0, i as int)),
            decreases self.chunks@.len() - i,
        {
            let c = &self.chunks[i];
            let cb = c.as_bytes();
            push_bytes(&mut out, cb.as_slice());
            proof {
                lemma_chunks_serialize_push(self@.subrange(0, i as int), self@[i as int]);
                assert(self@.subrange(0, i + 1) =~= self@.subrange(0, i as int).push(
                    self@[i as int],
                ));
                assert(out@ =~= spec_png_signature() + spec_chunks_serialize(
                    self@.subrange(0, i + 1),
                ));
            }
            i = i + 1;
        }
        proof {
            assert(self@.subrange(0, self@.len() as int) =~= self@);
        }
        out
    }

    /// Appends a chunk at the end of the stored order. No uniqueness or
    /// ordering of chunk types is enforced; duplicates are permitted.
    pub fn append_chunk(&mut self, chunk: Chunk)
        ensures
            final(self)@ == old(self)@.push(chunk@),
    {
        self.chunks.push(chunk);
        proof {
            assert(self@ =~= old(self)@.push(chunk@));
        }
    }

    /// The position of the first chunk, in stored order, whose type code
    /// spells `type_code`.
    fn find_chunk_index(&self, type_code: &str) -> (r: Option<usize>)
        ensures
            r matches Some(i) ==> i < self@.len() && self@[i as int].type_bytes
                == type_code.spec_bytes() && (forall|j: int|
                0 <= j < i ==> self@[j].type_bytes != type_code.spec_bytes()),
            r is None ==> forall|j: int|
                0 <= j < self@.len() ==> self@[j].type_bytes != type_code.spec_bytes(),
    {
        let tcb = type_code.as_bytes();
        let mut j: usize = 0;
        while j < self.chunks.len()
            invariant
                j <= self.chunks@.len(),
                self@.len() == self.chunks@.len(),
                tcb@ == type_code.spec_bytes(),
                forall|k: int| 0 <= k < j ==> self@[k].type_bytes != type_code.spec_bytes(),
            decreases self.chunks@.len() - j,
        {
            let c = &self.chunks[j];
            let ct = c.chunk_type();
            proof {
                use_type_invariant(ct);
                assert(c == self.chunks@[j as int]);
                assert(self@[j as int] == self.chunks@[j as int]@);
                assert(ct@ == self@[j as int].type_bytes);
            }
            let tb = ct.bytes();
            let found = tcb.len() == 4 && tb[0] == tcb[0] && tb[1] == tcb[1] && tb[2] == tcb[2]
                && tb[3] == tcb[3];
            proof {
                if found {
                    assert forall|k: int| 0 <= k < 4 implies ct@[k] == tcb@[k] by {
                        if k == 0 {
                            assert(tb@[0] == tcb@[0]);
                        } else if k == 1 {
                            assert(tb@[1] == tcb@[1]);
                        } else if k == 2 {
                            assert(tb@[2] == tcb@[2]);
                        } else {
                            assert(tb@[3] == tcb@[3]);
                        }
                    }
                    assert(ct@ =~= tcb@);
                    assert(self@[j as int].type_bytes =~= type_code.spec_bytes());
                } else {
                    if self@[j as int].type_bytes == type_code.spec_bytes() {
                        assert(ct@ == tcb@);
                        assert(tcb@.len() == 4);
                        assert(tb@[0] == tcb@[0] && tb@[1] == tcb@[1] && tb@[2] == tcb@[2]
                            && tb@[3] == tcb@[3]);
                        assert(false);
                    }
                    assert(self@[j as int].type_bytes != type_code.spec_bytes());
                }
            }
            if found {
                return Some(j);
            }
            j = j + 1;
        }
        None
    }

    /// The first chunk, in stored order, whose type code spells
    /// `type_code`, if any chunk of that type is present.
    pub fn chunk_by_type(&self, type_code: &str) -> (r: Option<&Chunk>)
        ensures
            r matches Some(c) ==> exists|i: int|
                0 <= i < self@.len() && #[trigger] self@[i] == c@ && self@[i].type_bytes
                    == type_code.spec_bytes() && (forall|j: int|
                    0 <= j < i ==> self@[j].type_bytes != type_code.spec_bytes()),
            r is None ==> forall|j: int|
                0 <= j < self@.len() ==> self@[j].type_bytes != type_code.spec_bytes(),
    {
        match self.find_chunk_index(type_code) {
            Some(i) => Some(&self.chunks[i]),
            None => None,
        }
    }

    /// Removes and returns the first chunk whose type code spells
    /// `type_code`; later chunks of the same type stay. Fails, leaving
    /// the container unchanged, when no chunk of that type exists.
    pub fn remove_chunk(&mut self, type_code: &str) -> (r: Result<Chunk, PngError>)
        ensures
            r matches Ok(c) ==> exists|i: int|
                0 <= i < old(self)@.len() && #[trigger] old(self)@[i] == c@ && old(
                    self,
                )@[i].type_bytes == type_code.spec_bytes() && final(self)@ == old(self)@.remove(i)
                    && (forall|j: int|
                    0 <= j < i ==> old(self)@[j].type_bytes != type_code.spec_bytes()),
            r is Err ==> r == Err::<Chunk, PngError>(PngError::ChunkNotFound) && final(self)@
                == old(self)@ && (forall|j: int|
                0 <= j < old(self)@.len() ==> old(self)@[j].type_bytes != type_code.spec_bytes()),
    {
        match self.find_chunk_index(type_code) {
            Some(i) => {
                let c = self.chunks.remove(i);
                proof {
                    assert(self@ =~= old(self)@.remove(i as int));
                }
                Ok(c)
            },
            None => Err(PngError::ChunkNotFound),
        }
    }

    /// The chunks in stored order, for read-only inspection.
    pub fn chunks(&self) -> (r: &Vec<Chunk>)
        ensures
            r@.map_values(|c: Chunk| c@) == self@,
    {
        &self.chunks
    }
}

/// Round trip for a whole container: parsing the serialized form of any
/// sequence of consistent chunk records yields exactly those records.
pub proof fn lemma_container_serialize_parse_round_trip(ms: Seq<ChunkModel>)
    requires
        forall|i: int| 0 <= i < ms.len() ==> chunk_model_wf(#[trigger] ms[i]),
    ensures
        spec_container_parse(spec_container_serialize(ms)) == Ok::<Seq<ChunkModel>, PngError>(ms),
{
    let bytes = spec_container_serialize(ms);
    assert(bytes.subrange(0, 8) =~= spec_png_signature());
    assert(bytes.skip(8) =~= spec_chunks_serialize(ms));
    lemma_chunks_serialize_parse_round_trip(ms);
}

/// Reading records from a buffer that starts with one serialized record
/// prepends that record to whatever the rest of the buffer holds.
proof fn lemma_chunks_parse_cons(m: ChunkModel, tail: Seq<u8>)
    requires
        chunk_model_wf(m),
    ensures
        spec_chunks_parse(spec_chunk_serialize(m) + tail) == (match spec_chunks_parse(tail) {
            Ok(rest) => Ok::<Seq<ChunkModel>, PngError>(seq![m] + rest),
            Err(e) => Err::<Seq<ChunkModel>, PngError>(e),
        }),
{
    let bytes = spec_chunk_serialize(m) + tail;
    lemma_chunk_parse_with_tail(m, tail);
    assert(spec_chunk_serialize(m).len() == 12 + m.data.len());
    assert(bytes.skip(12 + m.data.len() as int) == tail);
}

/// Parsing the concatenated serialized forms of consistent chunk records
/// yields exactly those records.
proof fn lemma_chunks_serialize_parse_round_trip(ms: Seq<ChunkModel>)
    requires
        forall|i: int| 0 <= i < ms.len() ==> chunk_model_wf(#[trigger] ms[i]),
    ensures
        spec_chunks_parse(spec_chunks_serialize(ms)) == Ok::<Seq<ChunkModel>, PngError>(ms),
    decreases ms.len(),
{
    if ms.len() == 0 {
        assert(ms =~= Seq::<ChunkModel>::empty());
    } else {
        let m = ms[0];
        let tail = spec_chunks_serialize(ms.drop_first());
        lemma_chunks_parse_cons(m, tail);
        assert forall|i: int| 0 <= i < ms.drop_first().len() implies chunk_model_wf(
            #[trigger] ms.drop_first()[i],
        ) by {
            assert(ms.drop_first()[i] == ms[i + 1]);
        }
        lemma_chunks_serialize_parse_round_trip(ms.drop_first());
        assert(spec_chunks_serialize(ms) == spec_chunk_serialize(m) + tail);
        assert(seq![m] + ms.drop_first() =~= ms);
    }
}

/// The reverse round trip at the container level: serializing the
/// records a successful parse returned reproduces the input bytes
/// exactly.
#[verifier::rlimit(100)]
pub proof fn lemma_container_parse_serialize_round_trip(bytes: Seq<u8>)
    requires
        spec_container_parse(bytes) is Ok,
    ensures
        spec_container_serialize(spec_container_parse(bytes)->Ok_0) == bytes,
{
    lemma_chunks_parse_serialize_round_trip(bytes.skip(8));
    assert(spec_png_signature() + bytes.skip(8) =~= bytes);
}

/// The serialized form of a record sequence that begins with `m`, when
/// the record's bytes and the remaining bytes are known separately.
proof fn lemma_chunks_serialize_cons(
    m: ChunkModel,
    rest: Seq<ChunkModel>,
    ms: Seq<ChunkModel>,
    bytes: Seq<u8>,
    step: int,
)
    requires
        0 < step <= bytes.len(),
        ms == seq![m] + rest,
        spec_chunk_serialize(m) == bytes.take(step),
        spec_chunks_serialize(rest) == bytes.skip(step),
    ensures
        spec_chunks_serialize(ms) == bytes,
{
    assert(ms[0] == m);
    assert(ms.drop_first() =~= rest);
    assert(spec_chunks_serialize(ms) == spec_chunk_serialize(ms[0]) + spec_chunks_serialize(
        ms.drop_first(),
    ));
    assert(bytes.take(step) + bytes.skip(step) =~= bytes);
}

/// Serializing the records read from a clean sequence of chunk records
/// reproduces those bytes exactly.
#[verifier::rlimit(100)]
proof fn lemma_chunks_parse_serialize_round_trip(bytes: Seq<u8>)
    requires
        spec_chunks_parse(bytes) is Ok,
    ensures
        spec_chunks_serialize(spec_chunks_parse(bytes)->Ok_0) == bytes,
    decreases bytes.len(),
{
    let ms = spec_chunks_parse(bytes)->Ok_0;
    if bytes.len() == 0 {
        assert(spec_chunks_serialize(ms) =~= bytes);
    } else {
        let m = spec_chunk_parse(bytes)->Ok_0;
        let step = 12 + m.data.len() as int;
        crate::chunk::lemma_chunk_parse_serialize_round_trip(bytes);
        lemma_chunks_parse_serialize_round_trip(bytes.skip(step));
        lemma_chunks_serialize_cons(
            m,
            spec_chunks_parse(bytes.skip(step))->Ok_0,
            ms,
            bytes,
            step,
        );
    }
}

/// Builds a chunk from a type string and a message and appends it at the
/// end of the container. The message must fit the 32-bit length field of
/// the wire form; a malformed type string is rejected and leaves the
/// container unchanged.
pub fn encode_png(png: &mut PngContainer, chunk_type: &str, msg: &str) -> (r: Result<
    (),
    PngError,
>)
    requires
        msg.spec_bytes().len() <= u32::MAX,
    ensures
        chunk_type.spec_bytes().len() != 4 ==> r == Err::<(), PngError>(PngError::InvalidLength)
            && final(png)@ == old(png)@,
        chunk_type.spec_bytes().len() == 4 && !chunk_type_wf(chunk_type.spec_bytes()) ==> r
            == Err::<(), PngError>(PngError::InvalidCharacters) && final(png)@ == old(png)@,
        chunk_type_wf(chunk_type.spec_bytes()) ==> r is Ok && final(png)@ == old(png)@.push(
            ChunkModel {
                type_bytes: chunk_type.spec_bytes(),
                data: msg.spec_bytes(),
                crc: crc32_of(chunk_type.spec_bytes() + msg.spec_bytes()),
            },
        ),
{
    let t = match ChunkType::parse_str(chunk_type) {
        Ok(t) => t,
        Err(e) => {
            return Err(e);
        },
    };
    let data = msg.as_bytes_vec();
    let c = Chunk::new(t, data);
    png.append_chunk(c);
    Ok(())
}

/// The hidden message: the data of the first chunk of the given type,
/// decoded as UTF-8 text.
pub fn decode_msg(png: &PngContainer, chunk_type: &str) -> (r: Result<String, PngError>)
    ensures
        (forall|j: int| 0 <= j < png@.len() ==> png@[j].type_bytes != chunk_type.spec_bytes())
            ==> r == Err::<String, PngError>(PngError::ChunkNotFound),
        forall|i: int|
            (0 <= i < png@.len() && #[trigger] png@[i].type_bytes == chunk_type.spec_bytes() && (
            forall|j: int| 0 <= j < i ==> png@[j].type_bytes != chunk_type.spec_bytes())) ==> ((
            vstd::utf8::valid_utf8(png@[i].data) ==> (r matches Ok(s) && s@
                == vstd::utf8::decode_utf8(png@[i].data))) && (!vstd::utf8::valid_utf8(
                png@[i].data,
            ) ==> r == Err::<String, PngError>(PngError::InvalidText))),
{
    match png.chunk_by_type(chunk_type) {
        Some(c) => c.data_as_string(),
        None => Err(PngError::ChunkNotFound),
    }
}

/// Removes the first chunk of the given type and hands back its decoded
/// text. The chunk is removed whenever one is found; data that is not
/// valid UTF-8 is then still reported as an error.
pub fn remove_msg(png: &mut PngContainer, chunk_type: &str) -> (r: Result<String, PngError>)
    ensures
        (forall|j: int|
            0 <= j < old(png)@.len() ==> old(png)@[j].type_bytes != chunk_type.spec_bytes()) ==> r
            == Err::<String, PngError>(PngError::ChunkNotFound) && final(png)@ == old(png)@,
        forall|i: int|
            (0 <= i < old(png)@.len() && #[trigger] old(png)@[i].type_bytes
                == chunk_type.spec_bytes() && (forall|j: int|
                0 <= j < i ==> old(png)@[j].type_bytes != chunk_type.spec_bytes())) ==> (final(png)@
                == old(png)@.remove(i) && (vstd::utf8::valid_utf8(old(png)@[i].data) ==> (r matches
                Ok(s) && s@ == vstd::utf8::decode_utf8(old(png)@[i].data))) && (
            !vstd::utf8::valid_utf8(old(png)@[i].data) ==> r == Err::<String, PngError>(
                PngError::InvalidText,
            ))),
{
    match png.remove_chunk(chunk_type) {
        Ok(c) => c.data_as_string(),
        Err(e) => Err(e),
    }
}

} // verus!
