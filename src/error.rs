use vstd::prelude::*;

verus! {

/// The ways in which building, reading or editing chunks can fail.
#[derive(Clone, Copy, Debug, PartialEq, Eq, Structural)]
pub enum PngError {
    /// A type code holds a byte that is not an ASCII letter, or is not four bytes long.
    InvalidTypeCode,
    /// The input ends before a length field says it should.
    Truncated,
    /// The stored CRC does not match the one computed over type and data.
    ChecksumMismatch,
    /// Chunk data requested as text is not valid UTF-8.
    InvalidEncoding,
    /// The buffer does not start with the PNG signature.
    BadSignature,
    /// No chunk has the requested type code.
    NotFound,
}

impl PngError {
    /// A short human-readable description of the error.
    pub fn message(&self) -> (r: &'static str) {
        match self {
            PngError::InvalidTypeCode => "invalid chunk type code",
            PngError::Truncated => "input ends inside a chunk",
            PngError::ChecksumMismatch => "chunk CRC mismatch",
            PngError::InvalidEncoding => "chunk data is not valid UTF-8",
            PngError::BadSignature => "missing PNG signature",
            PngError::NotFound => "chunk not found",
        }
    }
}

} // verus!
