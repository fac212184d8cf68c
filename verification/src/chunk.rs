//! The length-prefixed, CRC-protected chunk record: a validated type code,
//! an opaque payload, and the checksum that binds them.

use crate::chunk_type::{is_valid_code, ChunkType};
use crate::codec::{
    ascii_chars_of, crc32, crc32_of, lemma_u32_be_round_trip, push_all, read_u32_be, spec_decimal,
    str_from_utf8, u32_from_be, u32_to_be, u32_to_be_bytes, u32_to_decimal,
};
use crate::error::PngError;
use vstd::prelude::*;
use vstd::slice::{slice_subrange, slice_to_vec};
use vstd::string::StringExecFns;
use vstd::utf8::{decode_utf8, valid_utf8};

verus! {

/// One line of text describing a record: its type text, stored checksum
/// and length, in that order.
pub open spec fn spec_render_chunk(m: ChunkModel) -> Seq<char> {
    "Chunk (Type: "@ + ascii_chars_of(m.type_code) + "; CRC: "@ + spec_decimal(m.crc as nat)
        + "; Length: "@ + spec_decimal(m.length as nat) + ")"@
}

/// The mathematical content of a record: exactly what its wire form stores.
#[verifier::ext_equal]
pub ghost struct ChunkModel {
    /// The payload byte count, a 32-bit field on the wire.
    pub length: u32,
    /// The 4 bytes of the type code.
    pub type_code: Seq<u8>,
    /// The payload bytes.
    pub data: Seq<u8>,
    /// The stored checksum.
    pub crc: u32,
}

/// A well-formed record: a valid type code, a length that equals the
/// payload byte count, and a checksum computed over type code ++ payload.
pub open spec fn chunk_wf(m: ChunkModel) -> bool {
    &&& is_valid_code(m.type_code)
    &&& m.length == m.data.len()
    &&& m.crc == crc32_of(m.type_code + m.data)
}

/// The wire form of a record: big-endian length, type code, payload,
/// big-endian checksum.
pub open spec fn spec_serialize_chunk(m: ChunkModel) -> Seq<u8> {
    u32_to_be(m.length) + m.type_code + m.data + u32_to_be(m.crc)
}

/// What parsing a record from the front of `bytes` yields: the record read
/// from the leading fields, or the first failure met reading them in order.
/// Trailing bytes beyond the record are ignored.
pub open spec fn chunk_parse_result(bytes: Seq<u8>) -> Result<ChunkModel, PngError> {
    if bytes.len() < 8 {
        Err(PngError::Truncated)
    } else {
        let length = u32_from_be(bytes.subrange(0, 4));
        let type_code = bytes.subrange(4, 8);
        if !is_valid_code(type_code) {
            Err(PngError::InvalidTypeCode)
        } else if bytes.len() < 12 + length {
            Err(PngError::Truncated)
        } else {
            let data = bytes.subrange(8, 8 + length as int);
            let crc = u32_from_be(bytes.subrange(8 + length as int, 12 + length as int));
            if crc != crc32_of(type_code + data) {
                Err(PngError::ChecksumMismatch)
            } else {
                Ok(ChunkModel { length, type_code, data, crc })
            }
        }
    }
}

/// A validated record. Every value holds a valid type code, a length equal
/// to its payload byte count, and the checksum of type code ++ payload.
#[derive(Debug)]
pub struct Chunk {
    length: u32,
    chunk_type: ChunkType,
    data: Vec<u8>,
    crc: u32,
}

impl View for Chunk {
    type V = ChunkModel;

    closed spec fn view(&self) -> ChunkModel {
        ChunkModel {
            length: self.length,
            type_code: self.chunk_type@,
            data: self.data@,
            crc: self.crc,
        }
    }
}

impl Chunk {
    /// Every value of this type is well-formed: construction recomputes
    /// the checksum, and parsing cross-checks it.
    #[verifier::type_invariant]
    pub open spec fn type_inv(self) -> bool {
        chunk_wf(self@)
    }

    /// Builds a record of type `chunk_type` holding `data`; the length is
    /// the payload byte count and the checksum is computed fresh.
    pub fn new(chunk_type: ChunkType, data: Vec<u8>) -> (r: Chunk)
        requires
            data@.len() <= u32::MAX,
        ensures
            r@ =~= (ChunkModel {
                length: data@.len() as u32,
                type_code: chunk_type@,
                data: data@,
                crc: crc32_of(chunk_type@ + data@),
            }),
    {
        let mut chained: Vec<u8> = Vec::new();
        let type_bytes = chunk_type.bytes();
        push_all(&mut chained, type_bytes.as_slice());
        push_all(&mut chained, data.as_slice());
        proof {
            assert(chained@ =~= chunk_type@ + data@);
        }
        let crc = crc32(chained.as_slice());
        let length = data.len() as u32;
        proof {
            use_type_invariant(&chunk_type);
        }
        Chunk { length, chunk_type, data, crc }
    }

    /// The length field: the payload byte count.
    pub fn length(&self) -> (r: u32)
        ensures
            r == self@.length,
    {
        self.length
    }

    /// The type code of this record.
    pub fn chunk_type(&self) -> (r: &ChunkType)
        ensures
            r@ == self@.type_code,
    {
        &self.chunk_type
    }

    /// The payload bytes of this record.
    pub fn data(&self) -> (r: &[u8])
        ensures
            r@ == self@.data,
    {
        self.data.as_slice()
    }

    /// The stored checksum of this record.
    pub fn crc(&self) -> (r: u32)
        ensures
            r == self@.crc,
    {
        self.crc
    }

    /// The payload decoded as text; fails exactly when the payload is not
    /// valid UTF-8.
    pub fn data_as_string(&self) -> (r: Result<String, PngError>)
        ensures
            r is Ok <==> valid_utf8(self@.data),
            r matches Ok(s) ==> s@ == decode_utf8(self@.data),
            r matches Err(e) ==> e == PngError::EncodingError,
    {
        match str_from_utf8(self.data.as_slice()) {
            Some(s) => Ok(s.to_owned()),
            None => Err(PngError::EncodingError),
        }
    }

    /// The wire form of this record: length, type code, payload, checksum.
    pub fn as_bytes(&self) -> (r: Vec<u8>)
        ensures
            r@ == spec_serialize_chunk(self@),
    {
        let mut out: Vec<u8> = Vec::new();
        let length_bytes = u32_to_be_bytes(self.length);
        push_all(&mut out, length_bytes.as_slice());
        let type_bytes = self.chunk_type.bytes();
        push_all(&mut out, type_bytes.as_slice());
        push_all(&mut out, self.data.as_slice());
        let crc_bytes = u32_to_be_bytes(self.crc);
        push_all(&mut out, crc_bytes.as_slice());
        proof {
            assert(out@ =~= spec_serialize_chunk(self@));
        }
        out
    }

    /// Renders this record as one line of text: its type text, checksum
    /// and length.
    pub fn render(&self) -> (r: String)
        ensures
            r@ == spec_render_chunk(self@),
    {
        let mut s = "Chunk (Type: ".to_owned();
        let type_text = self.chunk_type.as_text();
        s.append(type_text.as_str());
        s.append("; CRC: ");
        let crc_text = u32_to_decimal(self.crc);
        s.append(crc_text.as_str());
        s.append("; Length: ");
        let len_text = u32_to_decimal(self.length);
        s.append(len_text.as_str());
        s.append(")");
        proof {
            assert(s@ =~= spec_render_chunk(self@));
        }
        s
    }

    /// Parses a record from the front of `bytes`: a 4-byte big-endian
    /// length, a 4-byte type code, `length` payload bytes, and a 4-byte
    /// big-endian checksum, which must match the one recomputed from the
    /// type code and payload. Trailing bytes are ignored.
    pub fn parse(bytes: &[u8]) -> (r: Result<Chunk, PngError>)
        ensures
            r matches Ok(c) ==> chunk_parse_result(bytes@) == Ok::<ChunkModel, PngError>(c@),
            r matches Err(e) ==> chunk_parse_result(bytes@) == Err::<ChunkModel, PngError>(e),
    {
        if bytes.len() < 8 {
            return Err(PngError::Truncated);
        }
        let length = read_u32_be(bytes, 0);
        let type_array = [bytes[4], bytes[5], bytes[6], bytes[7]];
        proof {
            assert(type_array@ =~= bytes@.subrange(4, 8));
        }
        let chunk_type = match ChunkType::try_from_bytes(type_array) {
            Ok(t) => t,
            Err(e) => {
                return Err(e);
            },
        };
        if bytes.len() < 12 || bytes.len() - 12 < length as usize {
            return Err(PngError::Truncated);
        }
        let data_slice = slice_subrange(bytes, 8, 8 + length as usize);
        let data = slice_to_vec(data_slice);
        let stored = read_u32_be(bytes, 8 + length as usize);
        let chunk = Chunk::new(chunk_type, data);
        if chunk.crc() != stored {
            return Err(PngError::ChecksumMismatch);
        }
        proof {
            let m = chunk_parse_result(bytes@)->Ok_0;
            assert(chunk@ =~= m);
        }
        Ok(chunk)
    }
}

/// The wire form of a well-formed record is its 12 bytes of fields plus
/// its payload.
pub proof fn lemma_serialize_chunk_len(m: ChunkModel)
    requires
        chunk_wf(m),
    ensures
        spec_serialize_chunk(m).len() == 12 + m.data.len(),
{
}

/// Parsing tolerates trailing input: a well-formed record followed by any
/// further bytes parses back to exactly that record.
pub proof fn lemma_chunk_parse_serialized(m: ChunkModel, rest: Seq<u8>)
    requires
        chunk_wf(m),
    ensures
        chunk_parse_result(spec_serialize_chunk(m) + rest) == Ok::<ChunkModel, PngError>(m),
{
    let b = spec_serialize_chunk(m) + rest;
    lemma_u32_be_round_trip(m.length);
    lemma_u32_be_round_trip(m.crc);
    assert(b.subrange(0, 4) =~= u32_to_be(m.length));
    assert(b.subrange(4, 8) =~= m.type_code);
    let length = m.length as int;
    assert(b.subrange(8, 8 + length) =~= m.data);
    assert(b.subrange(8 + length, 12 + length) =~= u32_to_be(m.crc));
    assert(chunk_parse_result(b) == Ok::<ChunkModel, PngError>(m)) by {
        let parsed = chunk_parse_result(b)->Ok_0;
        assert(parsed =~= m);
    }
}

/// Round trip: a well-formed record serialized and parsed back is itself,
/// length, type code, payload and checksum all equal.
pub proof fn lemma_chunk_round_trip(m: ChunkModel)
    requires
        chunk_wf(m),
    ensures
        chunk_parse_result(spec_serialize_chunk(m)) == Ok::<ChunkModel, PngError>(m),
{
    assert(spec_serialize_chunk(m) + Seq::<u8>::empty() =~= spec_serialize_chunk(m));
    lemma_chunk_parse_serialized(m, Seq::<u8>::empty());
}

} // verus!
