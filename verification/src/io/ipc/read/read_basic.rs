//! Decoding of one buffer: raw bytes, or a validity mask.
use crate::bitmap::{unpacked, validity_view, Bitmap};
use crate::error::Error;
use crate::io::ipc::{Compression, IpcBuffer, Node};
use std::collections::VecDeque;
use vstd::prelude::*;
use vstd::slice::{slice_subrange, slice_to_vec};

verus! {

/// The bytes of the source that `buffer` points at, if it points inside
/// the source.
pub open spec fn region(source: Seq<u8>, block_offset: u64, buffer: IpcBuffer) -> Option<Seq<u8>> {
    if buffer.offset < 0 || buffer.length < 0 || block_offset + buffer.offset + buffer.length
        > source.len() {
        None
    } else {
        Some(
            source.subrange(
                block_offset + buffer.offset,
                block_offset + buffer.offset + buffer.length,
            ),
        )
    }
}

/// The number of slots that `node` declares, if it is not negative and
/// can be addressed.
pub open spec fn declared_length(node: Node) -> Option<nat> {
    if 0 <= node.length <= usize::MAX {
        Some(node.length as nat)
    } else {
        None
    }
}

/// What a buffer holds: the bytes that it points at, or the reason why
/// there are none.
pub open spec fn plain(region: Option<Seq<u8>>) -> Result<Seq<u8>, Error> {
    match region {
        Some(bytes) => Ok(bytes),
        None => Err(Error::InvalidBuffer),
    }
}

/// What a compressed buffer holds, where `decoded` is what the codec made
/// of the bytes that the buffer points at.
pub open spec fn coded(region: Option<Seq<u8>>, decoded: Option<Seq<u8>>) -> Result<
    Seq<u8>,
    Error,
> {
    match region {
        Some(_) => match decoded {
            Some(bytes) => Ok(bytes),
            None => Err(Error::Decompression),
        },
        None => Err(Error::InvalidBuffer),
    }
}

/// The first `required` bytes of what a buffer holds.
pub open spec fn values_of(contents: Result<Seq<u8>, Error>, required: nat) -> Result<
    Seq<u8>,
    Error,
> {
    match contents {
        Ok(bytes) => if required > bytes.len() {
            Err(Error::InvalidBuffer)
        } else {
            Ok(bytes.subrange(0, required as int))
        },
        Err(e) => Err(e),
    }
}

/// The first `length` bits of what a buffer holds.
pub open spec fn bits_of(contents: Result<Seq<u8>, Error>, length: nat) -> Result<
    Seq<bool>,
    Error,
> {
    match contents {
        Ok(bytes) => if length > bytes.len() * 8 {
            Err(Error::InvalidBitmap)
        } else {
            Ok(unpacked(bytes, length))
        },
        Err(e) => Err(e),
    }
}

/// The contents of a result that holds bytes.
pub open spec fn bytes_view(r: Result<Vec<u8>, Error>) -> Result<Seq<u8>, Error> {
    match r {
        Ok(v) => Ok(v@),
        Err(e) => Err(e),
    }
}

/// The contents of a result that holds a mask.
pub open spec fn mask_view(r: Result<Bitmap, Error>) -> Result<Seq<bool>, Error> {
    match r {
        Ok(b) => Ok(b@),
        Err(e) => Err(e),
    }
}

/// The contents of what a codec hands back.
pub open spec fn decoded_view(decoded: Option<Vec<u8>>) -> Option<Seq<u8>> {
    match decoded {
        Some(v) => Some(v@),
        None => None,
    }
}

/// What the scratch space holds after a buffer has been read: with a
/// codec, a copy of the bytes that the buffer points at, if it points
/// inside the source; else what it held before.
pub open spec fn scratch_after(before: Seq<u8>, compressed: bool, region: Option<Seq<u8>>) -> Seq<
    u8,
> {
    match region {
        Some(bytes) => if compressed {
            bytes
        } else {
            before
        },
        None => before,
    }
}

/// The number of slots that `node` declares.
pub fn node_length(node: Node) -> (r: Result<usize, Error>)
    ensures
        match r {
            Ok(n) => declared_length(node) == Some(n as nat),
            Err(e) => e == Error::InvalidLength && declared_length(node) is None,
        },
{
    if node.length < 0 {
        Err(Error::InvalidLength)
    } else if node.length as u64 > usize::MAX as u64 {
        Err(Error::InvalidLength)
    } else {
        Ok(node.length as usize)
    }
}

/// The part of the source that `buffer` points at.
fn locate<'s>(source: &'s [u8], block_offset: u64, buffer: IpcBuffer) -> (r: Option<&'s [u8]>)
    ensures
        match r {
            Some(bytes) => region(source@, block_offset, buffer) == Some(bytes@),
            None => region(source@, block_offset, buffer) is None,
        },
{
    if buffer.offset < 0 || buffer.length < 0 {
        return None;
    }
    let start: u128 = block_offset as u128 + buffer.offset as u128;
    let end: u128 = start + buffer.length as u128;
    if end > source.len() as u128 {
        return None;
    }
    Some(slice_subrange(source, start as usize, end as usize))
}

/// Puts a copy of `bytes` in `scratch`, in place of what it held.
fn fill_scratch(scratch: &mut Vec<u8>, bytes: &[u8])
    ensures
        final(scratch)@ == bytes@,
{
    scratch.clear();
    let mut i: usize = 0;
    while i < bytes.len()
        invariant
            i <= bytes@.len(),
            scratch@ == bytes@.subrange(0, i as int),
        decreases bytes@.len() - i,
    {
        scratch.push(bytes[i]);
        i = i + 1;
        proof {
            assert(scratch@ =~= bytes@.subrange(0, i as int));
        }
    }
    proof {
        assert(scratch@ =~= bytes@);
    }
}

/// The first `required` bytes of `contents`, which are all the bytes of a
/// buffer; fails if there are fewer.
pub fn take_values(contents: &[u8], required: usize) -> (r: Result<Vec<u8>, Error>)
    ensures
        bytes_view(r) == values_of(Ok(contents@), required as nat),
{
    if required > contents.len() {
        Err(Error::InvalidBuffer)
    } else {
        Ok(slice_to_vec(slice_subrange(contents, 0, required)))
    }
}

/// The values that a compressed buffer stands for, given what the codec
/// made of it: its first `required` bytes. Fails if the codec failed, or
/// if there are fewer bytes.
pub fn decoded_values(decoded: Option<Vec<u8>>, required: usize) -> (r: Result<Vec<u8>, Error>)
    ensures
        bytes_view(r) == match decoded {
            Some(bytes) => values_of(Ok(bytes@), required as nat),
            None => Err(Error::Decompression),
        },
{
    match decoded {
        Some(bytes) => take_values(bytes.as_slice(), required),
        None => Err(Error::Decompression),
    }
}

/// The mask that a compressed buffer stands for, given what the codec
/// made of it: its first `length` bits. Fails if the codec failed, or if
/// there are fewer bits.
pub fn decoded_bitmap(decoded: Option<Vec<u8>>, length: usize) -> (r: Result<Bitmap, Error>)
    ensures
        mask_view(r) == match decoded {
            Some(bytes) => bits_of(Ok(bytes@), length as nat),
            None => Err(Error::Decompression),
        },
        r matches Ok(b) ==> b.wf(),
{
    match decoded {
        Some(bytes) => Bitmap::try_new(bytes, length),
        None => Err(Error::Decompression),
    }
}

/// Takes the next buffer from the queue and decodes `length` bytes of
/// values from it.
///
/// Without a codec the result is fixed by the source: the first `length`
/// bytes that the buffer points at. With one, the bytes that the buffer
/// points at are put in `scratch` and handed to the codec, and the result
/// is what [`decoded_values`] makes of the codec's answer.
pub fn read_buffer(
    buffers: &mut VecDeque<IpcBuffer>,
    length: usize,
    source: &[u8],
    block_offset: u64,
    _is_little_endian: bool,
    compression: Option<&dyn Compression>,
    scratch: &mut Vec<u8>,
) -> (r: Result<Vec<u8>, Error>)
    ensures
        old(buffers)@.len() == 0 ==> {
            &&& r == Err::<Vec<u8>, Error>(Error::MissingBuffer)
            &&& final(buffers)@ == old(buffers)@
            &&& final(scratch)@ == old(scratch)@
        },
        old(buffers)@.len() > 0 ==> {
            &&& final(buffers)@ == old(buffers)@.skip(1)
            &&& final(scratch)@ == scratch_after(
                old(scratch)@,
                compression is Some,
                region(source@, block_offset, old(buffers)@[0]),
            )
        },
        old(buffers)@.len() > 0 && compression is None ==> bytes_view(r) == values_of(
            plain(region(source@, block_offset, old(buffers)@[0])),
            length as nat,
        ),
        old(buffers)@.len() > 0 && compression is Some ==> exists|decoded: Option<Seq<u8>>|
            bytes_view(r) == values_of(
                coded(region(source@, block_offset, old(buffers)@[0]), decoded),
                length as nat,
            ),
{
    let buffer = match buffers.pop_front() {
        Some(buffer) => buffer,
        None => {
            return Err(Error::MissingBuffer);
        },
    };
    let bytes = match locate(source, block_offset, buffer) {
        Some(bytes) => bytes,
        None => {
            proof {
                let none: Option<Seq<u8>> = None;
                assert(values_of(coded(None, none), length as nat) == Err::<Seq<u8>, Error>(
                    Error::InvalidBuffer,
                ));
            }
            return Err(Error::InvalidBuffer);
        },
    };
    match compression {
        None => take_values(bytes, length),
        Some(codec) => {
            fill_scratch(scratch, bytes);
            let decoded = codec.decompress(scratch.as_slice());
            let ghost answer = decoded_view(decoded);
            let r = decoded_values(decoded, length);
            proof {
                assert(bytes_view(r) == values_of(coded(Some(bytes@), answer), length as nat));
            }
            r
        },
    }
}

/// Takes the next buffer from the queue and decodes a mask of `length`
/// bits from it.
///
/// Without a codec the result is fixed by the source: the first `length`
/// bits that the buffer points at. With one, the bytes that the buffer
/// points at are put in `scratch` and handed to the codec, and the result
/// is what [`decoded_bitmap`] makes of the codec's answer.
pub fn read_bitmap(
    buffers: &mut VecDeque<IpcBuffer>,
    length: usize,
    source: &[u8],
    block_offset: u64,
    _is_little_endian: bool,
    compression: Option<&dyn Compression>,
    scratch: &mut Vec<u8>,
) -> (r: Result<Bitmap, Error>)
    ensures
        r matches Ok(b) ==> b.wf(),
        old(buffers)@.len() == 0 ==> {
            &&& mask_view(r) == Err::<Seq<bool>, Error>(Error::MissingBuffer)
            &&& final(buffers)@ == old(buffers)@
            &&& final(scratch)@ == old(scratch)@
        },
        old(buffers)@.len() > 0 ==> {
            &&& final(buffers)@ == old(buffers)@.skip(1)
            &&& final(scratch)@ == scratch_after(
                old(scratch)@,
                compression is Some,
                region(source@, block_offset, old(buffers)@[0]),
            )
        },
        old(buffers)@.len() > 0 && compression is None ==> mask_view(r) == bits_of(
            plain(region(source@, block_offset, old(buffers)@[0])),
            length as nat,
        ),
        old(buffers)@.len() > 0 && compression is Some ==> exists|decoded: Option<Seq<u8>>|
            mask_view(r) == bits_of(
                coded(region(source@, block_offset, old(buffers)@[0]), decoded),
                length as nat,
            ),
{
    let buffer = match buffers.pop_front() {
        Some(buffer) => buffer,
        None => {
            return Err(Error::MissingBuffer);
        },
    };
    let bytes = match locate(source, block_offset, buffer) {
        Some(bytes) => bytes,
        None => {
            proof {
                let none: Option<Seq<u8>> = None;
                assert(bits_of(coded(None, none), length as nat) == Err::<Seq<bool>, Error>(
                    Error::InvalidBuffer,
                ));
            }
            return Err(Error::InvalidBuffer);
        },
    };
    match compression {
        None => Bitmap::try_new(slice_to_vec(bytes), length),
        Some(codec) => {
            fill_scratch(scratch, bytes);
            let decoded = codec.decompress(scratch.as_slice());
            let ghost answer = decoded_view(decoded);
            let r = decoded_bitmap(decoded, length);
            proof {
                assert(mask_view(r) == bits_of(coded(Some(bytes@), answer), length as nat));
            }
            r
        },
    }
}

/// The mask of a field, if it has one, or the reason why it cannot be had.
/// `contents` is what the validity buffer of the field holds; `queued` is
/// the number of buffers that are left for the field.
pub open spec fn validity_of(node: Node, queued: nat, contents: Result<Seq<u8>, Error>) -> Result<
    Option<Seq<bool>>,
    Error,
> {
    match declared_length(node) {
        None => Err(Error::InvalidLength),
        Some(length) => if queued == 0 {
            Err(Error::MissingBuffer)
        } else if node.null_count > 0 {
            match bits_of(contents, length) {
                Ok(bits) => Ok(Some(bits)),
                Err(e) => Err(e),
            }
        } else {
            Ok(None)
        },
    }
}

/// The contents of a result that holds a mask that may be absent.
pub open spec fn validity_result_view(r: Result<Option<Bitmap>, Error>) -> Result<
    Option<Seq<bool>>,
    Error,
> {
    match r {
        Ok(validity) => Ok(validity_view(validity)),
        Err(e) => Err(e),
    }
}

/// Decodes the validity of a field from the next buffer of the queue.
///
/// A field whose node counts no nulls has no mask; its validity buffer is
/// taken from the queue all the same. A field with nulls has a mask of
/// exactly as many bits as the node declares slots.
pub fn read_validity(
    buffers: &mut VecDeque<IpcBuffer>,
    field_node: Node,
    source: &[u8],
    block_offset: u64,
    is_little_endian: bool,
    compression: Option<&dyn Compression>,
    scratch: &mut Vec<u8>,
) -> (r: Result<Option<Bitmap>, Error>)
    ensures
        r matches Ok(Some(b)) ==> b.wf(),
        final(buffers)@ == if declared_length(field_node) is Some && old(buffers)@.len() > 0 {
            old(buffers)@.skip(1)
        } else {
            old(buffers)@
        },
        final(scratch)@ == if declared_length(field_node) is Some && old(buffers)@.len() > 0
            && field_node.null_count > 0 {
            scratch_after(
                old(scratch)@,
                compression is Some,
                region(source@, block_offset, old(buffers)@[0]),
            )
        } else {
            old(scratch)@
        },
        compression is None ==> validity_result_view(r) == validity_of(
            field_node,
            old(buffers)@.len(),
            plain(region(source@, block_offset, old(buffers)@[0])),
        ),
        compression is Some ==> exists|decoded: Option<Seq<u8>>|
            validity_result_view(r) == validity_of(
                field_node,
                old(buffers)@.len(),
                coded(region(source@, block_offset, old(buffers)@[0]), decoded),
            ),
{
    let length = match node_length(field_node) {
        Ok(length) => length,
        Err(e) => {
            proof {
                let none: Option<Seq<u8>> = None;
                assert(validity_of(
                    field_node,
                    old(buffers)@.len(),
                    coded(region(source@, block_offset, old(buffers)@[0]), none),
                ) == Err::<Option<Seq<bool>>, Error>(Error::InvalidLength));
            }
            return Err(e);
        },
    };
    if field_node.null_count > 0 {
        let ghost queued = buffers@.len();
        let ghost first = region(source@, block_offset, buffers@[0]);
        let mask = read_bitmap(
            buffers,
            length,
            source,
            block_offset,
            is_little_endian,
            compression,
            scratch,
        );
        proof {
            if compression is Some {
                if queued == 0 {
                    let none: Option<Seq<u8>> = None;
                    assert(validity_of(field_node, queued, coded(first, none)) == Err::<
                        Option<Seq<bool>>,
                        Error,
                    >(Error::MissingBuffer));
                } else {
                    let decoded = choose|decoded: Option<Seq<u8>>|
                        mask_view(mask) == bits_of(coded(first, decoded), length as nat);
                    assert(validity_result_view(
                        match mask {
                            Ok(b) => Ok(Some(b)),
                            Err(e) => Err(e),
                        },
                    ) == validity_of(field_node, queued, coded(first, decoded)));
                }
            }
        }
        match mask {
            Ok(b) => Ok(Some(b)),
            Err(e) => Err(e),
        }
    } else {
        proof {
            let none: Option<Seq<u8>> = None;
            assert(validity_of(
                field_node,
                old(buffers)@.len(),
                coded(region(source@, block_offset, old(buffers)@[0]), none),
            ) == if old(buffers)@.len() == 0 {
                Err::<Option<Seq<bool>>, Error>(Error::MissingBuffer)
            } else {
                Ok(None)
            });
        }
        match buffers.pop_front() {
            Some(_) => Ok(None),
            None => Err(Error::MissingBuffer),
        }
    }
}

} // verus!
