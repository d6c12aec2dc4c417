//! The closed set of error kinds that the codec reports.

use vstd::prelude::*;

verus! {

/// Everything that can go wrong while building or decoding chunk types,
/// chunks and whole containers.
#[derive(Debug, Clone, Copy, PartialEq, Eq, Structural)]
pub enum PngError {
    /// A 4-byte type code contains a byte outside `A`-`Z` / `a`-`z`, or text
    /// meant as a type code is not exactly 4 ASCII letters.
    InvalidBytes,
    /// A buffer ends before all declared or required fields could be read.
    TooShort,
    /// A parsed chunk's trailing checksum does not match the CRC-32
    /// recomputed over its type and payload.
    CrcMismatch,
    /// Payload bytes requested as text are not valid UTF-8.
    NotUtf8,
    /// A removal or required lookup found no chunk of the requested type.
    ChunkNotFound,
    /// The first 8 bytes of a container buffer are not the fixed signature.
    BadSignature,
}

} // verus!
