//! PNG files at the chunk level: parse a byte stream into chunks, check each
//! chunk's CRC-32 integrity, insert or remove chunks carrying arbitrary
//! payloads, and serialize the chunk sequence back into a valid PNG stream.

use vstd::prelude::*;

pub mod args;
pub mod chunk;
pub mod chunk_type;
pub mod png;

verus! {

/// The ways a chunk-level operation can fail.
#[derive(Debug, Clone, Copy, PartialEq, Eq, Structural)]
pub enum PngError {
    /// Chunk-type bytes or text fail the ASCII-letter rule.
    InvalidTag,
    /// A byte buffer is shorter than a declared field length requires.
    TruncatedInput,
    /// A decoded chunk's stored crc differs from the recomputed crc.
    ChecksumMismatch,
    /// The leading eight bytes of a buffer are not the PNG signature.
    InvalidSignature,
    /// A removal names a tag with no matching chunk.
    ChunkNotFound,
    /// A payload requested as text is not valid UTF-8.
    InvalidUtf8,
}

/// Relies on `String::from_utf8`: returns the decoded text exactly when the
/// bytes are a valid UTF-8 encoding, and fails otherwise.
#[verifier::external_body]
pub(crate) fn utf8_to_text(v: Vec<u8>) -> (r: Result<String, PngError>)
    ensures
        match r {
            Ok(s) => vstd::utf8::valid_utf8(v@) && s@ == vstd::utf8::decode_utf8(v@),
            Err(e) => !vstd::utf8::valid_utf8(v@) && e == PngError::InvalidUtf8,
        },
{
    match String::from_utf8(v) {
        Ok(s) => Ok(s),
        Err(_) => Err(PngError::InvalidUtf8),
    }
}

} // verus!
