//! A verified library for the chunk-based container format of PNG files:
//! validated 4-byte type codes, CRC-protected records, and a whole-file
//! container with append, lookup and removal, for hiding and retrieving
//! an auxiliary data chunk inside an otherwise-valid image file.

pub mod chunk;
pub mod chunk_type;
pub mod codec;
pub mod error;
pub mod png;

use crate::chunk::{Chunk, ChunkModel};
use crate::chunk_type::{is_valid_code, ChunkType};
use crate::codec::crc32_of;
use crate::error::PngError;
use crate::png::{png_parse_result, spec_find, spec_serialize_png, Png};
use vstd::prelude::*;
use vstd::string::StrSliceExecFns;
use vstd::utf8::{decode_utf8, encode_utf8, valid_utf8};

verus! {

/// Parses `bytes` as a container, appends a record of type `chunk_type`
/// holding `message`, and serializes the result. Fails with the parse
/// failure of `bytes`, or with the type-code failure of `chunk_type`.
pub fn encode(bytes: &[u8], chunk_type: &str, message: &str) -> (r: Result<Vec<u8>, PngError>)
    requires
        encode_utf8(message@).len() <= u32::MAX,
    ensures
        ({
            let target = encode_utf8(chunk_type@);
            let data = encode_utf8(message@);
            match png_parse_result(bytes@) {
                Err(e) => r == Err::<Vec<u8>, PngError>(e),
                Ok(ms) => {
                    if !is_valid_code(target) {
                        r == Err::<Vec<u8>, PngError>(PngError::InvalidTypeCode)
                    } else {
                        r matches Ok(out) && out@ == spec_serialize_png(
                            ms.push(
                                ChunkModel {
                                    length: data.len() as u32,
                                    type_code: target,
                                    data: data,
                                    crc: crc32_of(target + data),
                                },
                            ),
                        )
                    }
                },
            }
        }),
{
    let mut png = match Png::parse(bytes) {
        Ok(p) => p,
        Err(e) => {
            return Err(e);
        },
    };
    let code = match ChunkType::from_str(chunk_type) {
        Ok(t) => t,
        Err(e) => {
            return Err(e);
        },
    };
    let data = message.as_bytes_vec();
    let chunk = Chunk::new(code, data);
    png.append_chunk(chunk);
    Ok(png.as_bytes())
}

/// Parses `bytes` as a container and returns the payload text of the
/// first record of type `chunk_type`. Fails with the parse failure of
/// `bytes`; with absence when no record matches or `chunk_type` is not a
/// valid type code; and with an encoding failure when the payload is not
/// valid UTF-8.
pub fn decode(bytes: &[u8], chunk_type: &str) -> (r: Result<String, PngError>)
    ensures
        ({
            let target = encode_utf8(chunk_type@);
            match png_parse_result(bytes@) {
                Err(e) => r == Err::<String, PngError>(e),
                Ok(ms) => {
                    if !is_valid_code(target) {
                        r == Err::<String, PngError>(PngError::NotFound)
                    } else {
                        match spec_find(ms, target) {
                            None => r == Err::<String, PngError>(PngError::NotFound),
                            Some(i) => {
                                if valid_utf8(ms[i].data) {
                                    r matches Ok(s) && s@ == decode_utf8(ms[i].data)
                                } else {
                                    r == Err::<String, PngError>(PngError::EncodingError)
                                }
                            },
                        }
                    }
                },
            }
        }),
{
    let png = match Png::parse(bytes) {
        Ok(p) => p,
        Err(e) => {
            return Err(e);
        },
    };
    let chunk = match png.chunk_by_type(chunk_type) {
        Some(c) => c,
        None => {
            return Err(PngError::NotFound);
        },
    };
    chunk.data_as_string()
}

/// Parses `bytes` as a container, removes the first record of type
/// `chunk_type`, and serializes the result. Fails with the parse failure
/// of `bytes`, or with absence when no record matches or `chunk_type` is
/// not a valid type code.
pub fn remove(bytes: &[u8], chunk_type: &str) -> (r: Result<Vec<u8>, PngError>)
    ensures
        ({
            let target = encode_utf8(chunk_type@);
            match png_parse_result(bytes@) {
                Err(e) => r == Err::<Vec<u8>, PngError>(e),
                Ok(ms) => {
                    if !is_valid_code(target) {
                        r == Err::<Vec<u8>, PngError>(PngError::NotFound)
                    } else {
                        match spec_find(ms, target) {
                            None => r == Err::<Vec<u8>, PngError>(PngError::NotFound),
                            Some(i) => r matches Ok(out) && out@ == spec_serialize_png(
                                ms.remove(i),
                            ),
                        }
                    }
                },
            }
        }),
{
    let mut png = match Png::parse(bytes) {
        Ok(p) => p,
        Err(e) => {
            return Err(e);
        },
    };
    match png.remove_chunk(chunk_type) {
        Ok(()) => Ok(png.as_bytes()),
        Err(e) => Err(e),
    }
}

} // verus!
