//! The framed binary format: a message lists, in the order of the schema
//! and depth first, one node per field and the buffers of each field, and
//! is followed by the bytes that the buffers point into.
pub mod read;

use vstd::prelude::*;

verus! {

/// What a message says of one field: how many slots it has, and how many
/// of them are null.
#[derive(Debug, Clone, Copy, PartialEq, Eq, Structural)]
pub struct Node {
    pub length: i64,
    pub null_count: i64,
}

/// Where the bytes of one buffer lie: `length` bytes from `offset` on,
/// counted from the start of the block that the message belongs to.
#[derive(Debug, Clone, Copy, PartialEq, Eq, Structural)]
pub struct IpcBuffer {
    pub offset: i64,
    pub length: i64,
}

/// A compression codec. The format compresses each buffer as a whole, and
/// this crate does not look inside a codec: it hands over the bytes of a
/// buffer as they lie in the source and takes back the bytes that they
/// stand for, or `None` where the codec cannot decode them.
pub trait Compression {
    fn decompress(&self, compressed: &[u8]) -> Option<Vec<u8>>;
}

} // verus!
