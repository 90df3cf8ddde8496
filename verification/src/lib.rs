//! Columnar arrays with bit-packed null masks: builders that assemble an
//! array out of ranges of other arrays, and decoding of arrays from a
//! framed binary format.
//!
//! Every function of this crate is verified against its contract. The
//! contracts speak of values through their views: a validity mask is the
//! sequence of its bits, an array is an [`array::ArrayView`], and a queue
//! is the sequence of its entries. Types that keep an invariant have a
//! predicate `wf`, which their constructors establish, which every
//! function that changes a value keeps, and which is asked of arguments.
//!
//! What holds of a builder however it is driven is proved in
//! [`array::growable::laws`], and what holds of decoding and skipping
//! whatever the message in [`io::ipc::read::laws`].
pub mod array;
pub mod bitmap;
pub mod datatypes;
pub mod error;
pub mod io;
