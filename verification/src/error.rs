//! The ways in which a buffer can fail to decode.

use vstd::prelude::*;

verus! {

/// Why a decoder rejected its input.
///
/// A decoder reports the first defect it meets and returns nothing else:
/// there are no partial results.
#[derive(Clone, Copy, Debug, PartialEq, Eq, Structural)]
pub enum DecodeError {
    /// The four-byte signature of a layer is not the expected one.
    BadMagic,
    /// The container header declares a length other than the fixed one.
    BadHeaderLength,
    /// Fewer bytes remain than a fixed-width field needs.
    TruncatedInput,
    /// A fixed-width text field does not hold valid UTF-8.
    InvalidText,
    /// A boot or firmware region of the container ends past the buffer.
    OffsetOutOfBounds,
    /// A declared size is larger than the bytes that are there.
    DeclaredSizeExceedsBuffer,
    /// A partition's data region ends past the archive buffer.
    PartitionOutOfBounds,
    /// The archive header holds a negative partition count.
    NegativePartitionCount,
}

} // verus!
