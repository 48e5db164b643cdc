//! The 4-byte PNG chunk type code and its bit-encoded semantics.

use vstd::prelude::*;
use vstd::string::StringSliceAdditionalSpecFns;

use crate::error::PngError;
use crate::text::{ascii_chars_of, lemma_ascii_bytes_decode, utf8_to_string};

verus! {

/// True of a byte that is ASCII alphabetic.
pub open spec fn is_alphabetic_byte(b: u8) -> bool {
    (65 <= b && b <= 90) || (97 <= b && b <= 122)
}

/// True of an ASCII uppercase letter. In a chunk type code an uppercase
/// byte is one whose property bit (bit 5) is clear.
pub open spec fn is_uppercase_byte(b: u8) -> bool {
    65 <= b && b <= 90
}

/// True of an ASCII lowercase letter: the byte's property bit (bit 5) is
/// set.
pub open spec fn is_lowercase_byte(b: u8) -> bool {
    97 <= b && b <= 122
}

/// True when a byte sequence is a well-formed chunk type code: exactly 4
/// bytes, each ASCII alphabetic.
pub open spec fn chunk_type_wf(bytes: Seq<u8>) -> bool {
    bytes.len() == 4 && (forall|i: int| 0 <= i < 4 ==> is_alphabetic_byte(#[trigger] bytes[i]))
}

/// True of an ASCII alphabetic character.
pub open spec fn is_alphabetic_char(c: char) -> bool {
    ('A' <= c && c <= 'Z') || ('a' <= c && c <= 'z')
}

/// A 4-byte PNG chunk type code. Every byte is ASCII alphabetic, and the
/// case of each byte encodes one property of the chunk: byte 0 uppercase
/// means critical, byte 1 uppercase means public, byte 2 must be uppercase
/// under the current format revision, and byte 3 lowercase means safe to
/// copy. A value is immutable once constructed.
#[derive(Debug, Clone, Copy, PartialEq, Eq, Structural)]
pub struct ChunkType {
    b0: u8,
    b1: u8,
    b2: u8,
    b3: u8,
}

impl View for ChunkType {
    type V = Seq<u8>;

    closed spec fn view(&self) -> Seq<u8> {
        seq![self.b0, self.b1, self.b2, self.b3]
    }
}

/// True when a byte is ASCII alphabetic.
fn is_alphabetic(b: u8) -> (r: bool)
    ensures
        r == is_alphabetic_byte(b),
{
    (65 <= b && b <= 90) || (97 <= b && b <= 122)
}

impl ChunkType {
    #[verifier::type_invariant]
    pub(crate) open spec fn type_inv(self) -> bool {
        chunk_type_wf(self@)
    }

    /// Validates a 4-byte code: every byte must be ASCII alphabetic.
    pub fn parse(bytes: [u8; 4]) -> (r: Result<ChunkType, PngError>)
        ensures
            chunk_type_wf(bytes@) ==> (r matches Ok(t) && t@ == bytes@),
            !chunk_type_wf(bytes@) ==> r == Err::<ChunkType, PngError>(
                PngError::NotAsciiAlphabetic,
            ),
    {
        if is_alphabetic(bytes[0]) && is_alphabetic(bytes[1]) && is_alphabetic(bytes[2])
            && is_alphabetic(bytes[3]) {
            let t = ChunkType { b0: bytes[0], b1: bytes[1], b2: bytes[2], b3: bytes[3] };
            proof {
                assert(t@ =~= bytes@);
            }
            Ok(t)
        } else {
            Err(PngError::NotAsciiAlphabetic)
        }
    }

    /// Validates a chunk type given as a string: it must be exactly 4
    /// bytes long and every byte must be ASCII alphabetic. The string is
    /// taken as given; no surrounding whitespace is stripped.
    pub fn parse_str(s: &str) -> (r: Result<ChunkType, PngError>)
        ensures
            s.spec_bytes().len() != 4 ==> r == Err::<ChunkType, PngError>(PngError::InvalidLength),
            s.spec_bytes().len() == 4 && !chunk_type_wf(s.spec_bytes()) ==> r == Err::<
                ChunkType,
                PngError,
            >(PngError::InvalidCharacters),
            chunk_type_wf(s.spec_bytes()) ==> (r matches Ok(t) && t@ == s.spec_bytes()),
    {
        let b = s.as_bytes();
        if b.len() != 4 {
            Err(PngError::InvalidLength)
        } else {
            let arr = [b[0], b[1], b[2], b[3]];
            assert(arr@ =~= s.spec_bytes());
            match Self::parse(arr) {
                Ok(t) => Ok(t),
                Err(_) => Err(PngError::InvalidCharacters),
            }
        }
    }

    /// The exact stored bytes of the chunk type code.
    pub fn bytes(&self) -> (r: [u8; 4])
        ensures
            r@ == self@,
    {
        let r = [self.b0, self.b1, self.b2, self.b3];
        proof {
            assert(r@ =~= self@);
        }
        r
    }

    /// The byte at position `idx` of the code, read as a character.
    pub fn at_byte(&self, idx: usize) -> (c: char)
        requires
            idx < 4,
        ensures
            c == (self@[idx as int] as char),
    {
        let b = if idx == 0 {
            self.b0
        } else if idx == 1 {
            self.b1
        } else if idx == 2 {
            self.b2
        } else {
            self.b3
        };
        b as char
    }

    /// The 4 bytes of the code rendered as text.
    pub fn to_string(&self) -> (r: String)
        ensures
            r@ == ascii_chars_of(self@),
    {
        proof {
            use_type_invariant(&*self);
        }
        let mut v: Vec<u8> = Vec::new();
        v.push(self.b0);
        v.push(self.b1);
        v.push(self.b2);
        v.push(self.b3);
        proof {
            assert(v@ =~= self@);
            lemma_ascii_bytes_decode(v@);
        }
        match utf8_to_string(v) {
            Some(s) => s,
            None => unreached(),
        }
    }

    /// Composite validity: the chunk is not public-flagged and the
    /// reserved bit is uppercase.
    pub fn is_valid(&self) -> (r: bool)
        ensures
            r == (!is_uppercase_byte(self@[1]) && is_uppercase_byte(self@[2])),
    {
        !self.is_public() && self.is_reserved_bit_valid()
    }

    /// The ancillary bit: byte 0 uppercase means the chunk is critical.
    pub fn is_critical(&self) -> (r: bool)
        ensures
            r == is_uppercase_byte(self@[0]),
    {
        let b = self.b0;
        65 <= b && b <= 90
    }

    /// The private bit: byte 1 uppercase means the chunk is public.
    pub fn is_public(&self) -> (r: bool)
        ensures
            r == is_uppercase_byte(self@[1]),
    {
        let b = self.b1;
        65 <= b && b <= 90
    }

    /// The reserved bit: byte 2 must be uppercase under the current
    /// format revision.
    pub fn is_reserved_bit_valid(&self) -> (r: bool)
        ensures
            r == is_uppercase_byte(self@[2]),
    {
        let b = self.b2;
        65 <= b && b <= 90
    }

    /// The safe-to-copy bit: byte 3 lowercase means editors unaware of
    /// the chunk's semantics may keep it.
    pub fn is_safe_to_copy(&self) -> (r: bool)
        ensures
            r == is_lowercase_byte(self@[3]),
    {
        let b = self.b3;
        97 <= b && b <= 122
    }
}

/// A chunk type parsed from a 4-character ASCII alphabetic string renders
/// back to exactly that string: with `chunk_type_wf(s.spec_bytes())`
/// established here, `parse_str` returns a type whose bytes are
/// `s.spec_bytes()`, and `to_string` on it gives back `s@`.
pub proof fn lemma_parse_str_to_string_round_trip(s: &str)
    requires
        s@.len() == 4,
        forall|i: int| 0 <= i < 4 ==> is_alphabetic_char(#[trigger] s@[i]),
    ensures
        s.spec_bytes().len() == 4,
        chunk_type_wf(s.spec_bytes()),
        ascii_chars_of(s.spec_bytes()) == s@,
{
    assert(vstd::utf8::is_ascii_chars(s@));
    vstd::utf8::is_ascii_chars_encode_utf8(s@);
    assert(s.spec_bytes().len() == 4);
    assert forall|i: int| 0 <= i < 4 implies is_alphabetic_byte(#[trigger] s.spec_bytes()[i]) by {
        let c = s@[i];
        assert(s.spec_bytes()[i] == c as u8);
        assert((c as u32) < 128);
        assert(c as u8 == (c as u32) as u8);
        let x = c as u32;
        assert(x < 128 ==> ((x as u8) as u32) == x) by (bit_vector);
    }
    assert forall|i: int| 0 <= i < 4 implies ascii_chars_of(s.spec_bytes())[i] == s@[i] by {
        let c = s@[i];
        assert(s.spec_bytes()[i] == c as u8);
        assert((c as u32) < 128);
        let x = c as u32;
        assert(x < 128 ==> ((x as u8) as u32) == x) by (bit_vector);
        assert(((c as u8) as char) as u32 == c as u32);
    }
    assert(ascii_chars_of(s.spec_bytes()) =~= s@);
}

} // verus!
