//! The validated 4-byte chunk type code and its bit-encoded property flags.

use crate::codec::{ascii_chars_of, lemma_ascii_bytes_decode, str_from_utf8};
use crate::error::PngError;
use vstd::prelude::*;
use vstd::utf8::encode_utf8;

verus! {

/// True of a byte that is an ASCII letter (A-Z or a-z).
pub open spec fn is_letter_byte(b: u8) -> bool {
    (65 <= b && b <= 90) || (97 <= b && b <= 122)
}

/// True of a byte sequence that forms a valid chunk type code:
/// exactly 4 bytes, each an ASCII letter.
pub open spec fn is_valid_code(s: Seq<u8>) -> bool {
    s.len() == 4 && (forall|i: int| 0 <= i < 4 ==> is_letter_byte(#[trigger] s[i]))
}

/// True when bit 5 (0x20, the ASCII lower-case bit) of `b` is clear.
pub open spec fn spec_fifth_bit_is_zero(b: u8) -> bool {
    b & 0x20 == 0
}

fn is_letter(b: u8) -> (r: bool)
    ensures
        r == is_letter_byte(b),
{
    (b >= 65 && b <= 90) || (b >= 97 && b <= 122)
}

/// A validated chunk type code: exactly 4 bytes, each an ASCII letter.
/// Its view is the sequence of those 4 bytes.
#[derive(Debug, Clone, Copy, PartialEq, Eq, Structural)]
pub struct ChunkType {
    b0: u8,
    b1: u8,
    b2: u8,
    b3: u8,
}

impl View for ChunkType {
    type V = Seq<u8>;

    closed spec fn view(&self) -> Seq<u8> {
        seq![self.b0, self.b1, self.b2, self.b3]
    }
}

impl ChunkType {
    /// Every value of this type holds a valid code: construction fails
    /// on anything else.
    #[verifier::type_invariant]
    pub open spec fn type_inv(self) -> bool {
        is_valid_code(self@)
    }

    fn code_from_slice(bytes: &[u8]) -> (r: Result<ChunkType, PngError>)
        ensures
            r is Ok <==> is_valid_code(bytes@),
            r matches Ok(t) ==> t@ == bytes@,
            r matches Err(e) ==> e == PngError::InvalidTypeCode,
    {
        if bytes.len() != 4 {
            return Err(PngError::InvalidTypeCode);
        }
        let b0 = bytes[0];
        let b1 = bytes[1];
        let b2 = bytes[2];
        let b3 = bytes[3];
        if is_letter(b0) && is_letter(b1) && is_letter(b2) && is_letter(b3) {
            let t = ChunkType { b0, b1, b2, b3 };
            proof {
                assert(t@ =~= bytes@);
            }
            Ok(t)
        } else {
            Err(PngError::InvalidTypeCode)
        }
    }

    /// Constructs a code from exactly 4 raw bytes; fails unless each is an
    /// ASCII letter.
    pub fn try_from_bytes(value: [u8; 4]) -> (r: Result<ChunkType, PngError>)
        ensures
            r is Ok <==> is_valid_code(value@),
            r matches Ok(t) ==> t@ == value@,
            r matches Err(e) ==> e == PngError::InvalidTypeCode,
    {
        Self::code_from_slice(value.as_slice())
    }

    /// Constructs a code from text: fails unless the text is exactly 4
    /// bytes, each an ASCII letter. A thin adapter over the byte
    /// constructor.
    pub fn build(chunk_type: String) -> (r: Result<ChunkType, PngError>)
        ensures
            r is Ok <==> is_valid_code(encode_utf8(chunk_type@)),
            r matches Ok(t) ==> t@ == encode_utf8(chunk_type@),
            r matches Err(e) ==> e == PngError::InvalidTypeCode,
    {
        Self::code_from_slice(chunk_type.as_str().as_bytes())
    }

    /// Constructs a code from borrowed text, as `build` does.
    pub fn from_str(s: &str) -> (r: Result<ChunkType, PngError>)
        ensures
            r is Ok <==> is_valid_code(encode_utf8(s@)),
            r matches Ok(t) ==> t@ == encode_utf8(s@),
            r matches Err(e) ==> e == PngError::InvalidTypeCode,
    {
        Self::code_from_slice(s.as_bytes())
    }

    /// The 4 raw bytes of this code.
    pub fn bytes(&self) -> (r: [u8; 4])
        ensures
            r@ == self@,
    {
        let r = [self.b0, self.b1, self.b2, self.b3];
        proof {
            assert(r@ =~= self@);
        }
        r
    }

    /// True when the reserved bit is valid; the one check `is_valid`
    /// performs, the other properties being settled at construction.
    pub fn is_valid(&self) -> (r: bool)
        ensures
            r == spec_fifth_bit_is_zero(self@[2]),
    {
        self.is_reserved_bit_valid()
    }

    /// True when byte 0 has its bit 5 clear: the chunk is critical rather
    /// than ancillary.
    pub fn is_critical(&self) -> (r: bool)
        ensures
            r == spec_fifth_bit_is_zero(self@[0]),
    {
        Self::fifth_bit_is_zero(self.b0)
    }

    /// True when byte 1 has its bit 5 clear: the chunk is public rather
    /// than private.
    pub fn is_public(&self) -> (r: bool)
        ensures
            r == spec_fifth_bit_is_zero(self@[1]),
    {
        Self::fifth_bit_is_zero(self.b1)
    }

    /// True when byte 2 has its bit 5 clear, as the current format
    /// revision requires.
    pub fn is_reserved_bit_valid(&self) -> (r: bool)
        ensures
            r == spec_fifth_bit_is_zero(self@[2]),
    {
        Self::fifth_bit_is_zero(self.b2)
    }

    /// True when byte 3 has its bit 5 set: the chunk is safe to copy.
    /// The one property with inverted polarity.
    pub fn is_safe_to_copy(&self) -> (r: bool)
        ensures
            r == !spec_fifth_bit_is_zero(self@[3]),
    {
        !Self::fifth_bit_is_zero(self.b3)
    }

    /// True when bit 5 (0x20) of `byte` is zero.
    pub fn fifth_bit_is_zero(byte: u8) -> (r: bool)
        ensures
            r == spec_fifth_bit_is_zero(byte),
    {
        byte & 0x20 == 0
    }

    /// True exactly when the two codes hold the same 4 bytes.
    pub fn same_code(&self, other: &ChunkType) -> (r: bool)
        ensures
            r == (self@ == other@),
    {
        let r = self.b0 == other.b0 && self.b1 == other.b1 && self.b2 == other.b2 && self.b3
            == other.b3;
        proof {
            if r {
                assert(self@ =~= other@);
            } else {
                if self@ == other@ {
                    assert(self@[0] == other@[0]);
                    assert(self@[1] == other@[1]);
                    assert(self@[2] == other@[2]);
                    assert(self@[3] == other@[3]);
                }
            }
        }
        r
    }

    /// The 4 bytes rendered as text, exactly as stored.
    pub fn as_text(&self) -> (r: String)
        ensures
            r@ == ascii_chars_of(self@),
    {
        let mut v: Vec<u8> = Vec::new();
        v.push(self.b0);
        v.push(self.b1);
        v.push(self.b2);
        v.push(self.b3);
        proof {
            use_type_invariant(&*self);
            assert(v@ =~= self@);
            lemma_ascii_bytes_decode(v@);
        }
        match str_from_utf8(v.as_slice()) {
            Some(s) => s.to_owned(),
            None => {
                proof {
                    assert(false);
                }
                String::new()
            },
        }
    }
}

} // verus!
