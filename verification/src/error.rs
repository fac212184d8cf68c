use vstd::prelude::*;

verus! {

/// The closed set of failures that parsing, construction and editing can
/// report. Callers branch on the variant rather than inspecting text.
#[derive(Debug, Clone, Copy, PartialEq, Eq, Structural)]
pub enum PngError {
    /// A 4-byte type code contains a byte that is not an ASCII letter,
    /// or the input is not exactly 4 bytes long.
    InvalidTypeCode,
    /// A buffer ends before a required field is fully present.
    Truncated,
    /// The leading 8 bytes of a buffer do not match the file signature.
    BadSignature,
    /// A parsed record's stored checksum disagrees with the checksum
    /// recomputed from its type code and payload.
    ChecksumMismatch,
    /// A record's payload was requested as text but is not valid UTF-8.
    EncodingError,
    /// A lookup or removal by type text matched no record.
    NotFound,
}

} // verus!
