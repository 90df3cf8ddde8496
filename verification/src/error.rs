//! Errors reported while decoding arrays or checking their shape.
use vstd::prelude::*;

verus! {

/// What can go wrong with data that does not have the expected shape.
///
/// None of these is ever retried: each one ends the decoding of the field
/// that met it, and no partly filled array is handed out.
#[derive(Debug, Clone, Copy, PartialEq, Eq, Structural)]
pub enum Error {
    /// A field was expected but the queue of field nodes is empty.
    MissingFieldNode,
    /// A validity or values buffer was expected but the queue of buffers is empty.
    MissingBuffer,
    /// A field node declares a length that is negative or not addressable.
    InvalidLength,
    /// The declared length times the byte width does not fit the address space.
    LengthOverflow,
    /// A buffer record is negative, points outside the byte source, or holds
    /// fewer bytes than the field needs.
    InvalidBuffer,
    /// A bit-packed buffer holds fewer bits than the length asked of it.
    InvalidBitmap,
    /// The compression codec could not decode a buffer.
    Decompression,
    /// The parts handed to an array constructor do not fit together.
    ArrayConstructionInvariantViolation,
}

} // verus!
