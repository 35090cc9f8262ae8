use vstd::prelude::*;

verus! {

/// The ways in which building, decoding or reading a chunk can fail.
#[derive(Debug, Clone, Copy, PartialEq, Eq, Structural)]
pub enum ChunkError {
    /// A type-tag byte is not an ASCII letter.
    InvalidTagByte,
    /// A textual type tag does not hold exactly four bytes.
    WrongTagLength,
    /// The buffer ends before the layout does.
    TruncatedBuffer,
    /// The stored checksum differs from the one computed over tag and payload.
    ChecksumMismatch,
    /// The payload is not valid UTF-8 text.
    InvalidUtf8,
}

} // verus!
