//! Decoding of arrays. All fields of a message share one queue of nodes
//! and one queue of buffers; each field, decoded or skipped, takes its own
//! entries from their fronts, so that the next field finds its own.
pub mod array;
pub mod laws;
pub mod read_basic;

pub use array::fixed_size_binary::{read_fixed_size_binary, skip_fixed_size_binary};
