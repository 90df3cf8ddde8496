//! Decoding, and skipping, of one fixed-size binary field.
//!
//! Such a field owns one node and two buffers: its validity, then its
//! values.
use crate::array::{ArrayView, FixedSizeBinaryArray};
use crate::datatypes::DataType;
use crate::error::Error;
use crate::io::ipc::read::array::{effective_length, try_get_array_length, try_get_field_node};
use crate::io::ipc::read::read_basic::{
    bytes_view, coded, declared_length, plain, read_buffer, read_validity, region, validity_of,
    validity_result_view, values_of,
};
use crate::io::ipc::{Compression, IpcBuffer, Node};
use std::collections::VecDeque;
use vstd::prelude::*;

verus! {

/// The product of the two numbers where it fits a `usize`, and the
/// largest `usize` where it does not.
pub open spec fn saturating_product(a: nat, b: nat) -> nat {
    if a * b > usize::MAX {
        usize::MAX as nat
    } else {
        a * b
    }
}

/// Multiplies without wrapping around: a product that does not fit is
/// clamped to the largest `usize`. Says also whether the product fitted.
pub fn saturating_mul(a: usize, b: usize) -> (r: (usize, bool))
    ensures
        r.0 == saturating_product(a as nat, b as nat),
        r.1 == (a * b <= usize::MAX),
{
    match a.checked_mul(b) {
        Some(product) => (product, true),
        None => (usize::MAX, false),
    }
}

/// The array that a fixed-size binary field decodes to, or the reason why
/// it does not decode.
///
/// `nodes` and `buffers` are the queues as the field finds them, and
/// `validity_contents` and `values_contents` are what its two buffers
/// hold. The checks are made in this order, and the first that fails
/// gives the error:
/// the field has a node; the node declares a length that can be
/// addressed; the field has a validity buffer; if the node counts nulls,
/// the validity buffer holds one bit for each declared slot;
/// `data_type` is a fixed-size binary type of positive width; the field
/// has a values buffer; the number of slots to decode times the width can
/// be addressed; the values buffer holds that many bytes; the mask, if
/// there is one, has one bit for each slot to decode.
pub open spec fn decoded(
    nodes: Seq<Node>,
    data_type: DataType,
    buffers: Seq<IpcBuffer>,
    limit: Option<usize>,
    validity_contents: Result<Seq<u8>, Error>,
    values_contents: Result<Seq<u8>, Error>,
) -> Result<ArrayView, Error> {
    if nodes.len() == 0 {
        Err(Error::MissingFieldNode)
    } else {
        match validity_of(nodes[0], buffers.len(), validity_contents) {
            Err(e) => Err(e),
            Ok(validity) => {
                let length = effective_length(nodes[0], limit).unwrap();
                if !(data_type matches DataType::FixedSizeBinary(width) && width > 0) {
                    Err(Error::ArrayConstructionInvariantViolation)
                } else if buffers.len() < 2 {
                    Err(Error::MissingBuffer)
                } else if length * data_type.size() > usize::MAX {
                    Err(Error::LengthOverflow)
                } else {
                    match values_of(values_contents, length * data_type.size()) {
                        Err(e) => Err(e),
                        Ok(values) => {
                            let array = FixedSizeBinaryArray::candidate(
                                data_type,
                                values,
                                validity,
                            );
                            if array.wf() {
                                Ok(array)
                            } else {
                                Err(Error::ArrayConstructionInvariantViolation)
                            }
                        },
                    }
                }
            },
        }
    }
}

/// The array that a fixed-size binary field of an uncompressed message
/// decodes to, or the reason why it does not decode: its buffers hold
/// the bytes of the source that they point at.
pub open spec fn decoded_plain(
    nodes: Seq<Node>,
    data_type: DataType,
    buffers: Seq<IpcBuffer>,
    source: Seq<u8>,
    block_offset: u64,
    limit: Option<usize>,
) -> Result<ArrayView, Error> {
    decoded(
        nodes,
        data_type,
        buffers,
        limit,
        plain(region(source, block_offset, buffers[0])),
        plain(region(source, block_offset, buffers[1])),
    )
}

/// The number of buffers that decoding a fixed-size binary field takes
/// from the queue, whether it succeeds or not: none where the field has
/// no node, no length that can be addressed or no buffer at all; else
/// its validity buffer, and its values buffer too once the mask has been
/// decoded, the type has been accepted and a second buffer is there.
pub open spec fn buffers_taken(
    nodes: Seq<Node>,
    data_type: DataType,
    buffers: Seq<IpcBuffer>,
    validity_contents: Result<Seq<u8>, Error>,
) -> int {
    if nodes.len() == 0 || declared_length(nodes[0]) is None || buffers.len() == 0 {
        0
    } else if validity_of(nodes[0], buffers.len(), validity_contents) is Err || !(
    data_type matches DataType::FixedSizeBinary(width) && width > 0) || buffers.len() < 2 {
        1
    } else {
        2
    }
}

/// A queue of nodes after one field has taken its node from it, if there
/// was one.
pub open spec fn nodes_after_field(nodes: Seq<Node>) -> Seq<Node> {
    if nodes.len() == 0 {
        nodes
    } else {
        nodes.skip(1)
    }
}

/// The content of a result that holds an array.
pub open spec fn array_view(r: Result<FixedSizeBinaryArray, Error>) -> Result<ArrayView, Error> {
    match r {
        Ok(a) => Ok(a@),
        Err(e) => Err(e),
    }
}

/// Decodes the next field of a message as a fixed-size binary array of
/// type `data_type`.
///
/// `source` holds the bytes that the buffers point into, counted from
/// `block_offset`. With a `limit`, no more slots than that are decoded.
/// The number of bytes asked of the values buffer is the number of slots
/// to decode times the byte width, clamped to the largest `usize`: a
/// length that cannot be honoured is reported, and never wraps around
/// into a smaller one. The validity mask has as many bits as the node
/// declares slots, so a limit below the declared length of a field with
/// nulls makes the array be refused.
///
/// The node and the two buffers are taken from the fronts of the queues.
/// After a failure the queues stand where the failure left them.
///
/// Without a codec the outcome is [`decoded_plain`]. With one, each buffer
/// that is read is put in `scratch` and handed to the codec, and the
/// outcome is [`decoded`] on what the codec answered.
pub fn read_fixed_size_binary(
    field_nodes: &mut VecDeque<Node>,
    data_type: DataType,
    buffers: &mut VecDeque<IpcBuffer>,
    source: &[u8],
    block_offset: u64,
    is_little_endian: bool,
    compression: Option<&dyn Compression>,
    limit: Option<usize>,
    scratch: &mut Vec<u8>,
) -> (r: Result<FixedSizeBinaryArray, Error>)
    ensures
        r matches Ok(a) ==> a.wf(),
        compression is None ==> {
            &&& array_view(r) == decoded_plain(
                old(field_nodes)@,
                data_type,
                old(buffers)@,
                source@,
                block_offset,
                limit,
            )
            &&& final(buffers)@ == old(buffers)@.skip(
                buffers_taken(
                    old(field_nodes)@,
                    data_type,
                    old(buffers)@,
                    plain(region(source@, block_offset, old(buffers)@[0])),
                ),
            )
            &&& final(scratch)@ == old(scratch)@
        },
        compression is Some ==> exists|first: Option<Seq<u8>>, second: Option<Seq<u8>>|
            {
                &&& array_view(r) == decoded(
                    old(field_nodes)@,
                    data_type,
                    old(buffers)@,
                    limit,
                    coded(region(source@, block_offset, old(buffers)@[0]), first),
                    coded(region(source@, block_offset, old(buffers)@[1]), second),
                )
                &&& final(buffers)@ == old(buffers)@.skip(
                    buffers_taken(
                        old(field_nodes)@,
                        data_type,
                        old(buffers)@,
                        coded(region(source@, block_offset, old(buffers)@[0]), first),
                    ),
                )
            },
        compression is Some ==> final(scratch)@ == old(scratch)@ || (exists|k: int|
            0 <= k < 2 && k < old(buffers)@.len() && Some(final(scratch)@) == region(
                source@,
                block_offset,
                #[trigger] old(buffers)@[k],
            )),
        final(field_nodes)@ == nodes_after_field(old(field_nodes)@),
        r is Ok ==> {
            &&& final(field_nodes)@ == old(field_nodes)@.skip(1)
            &&& final(buffers)@ == old(buffers)@.skip(2)
        },
{
    let ghost nodes = field_nodes@;
    let ghost queue = buffers@;
    let ghost first_region = region(source@, block_offset, queue[0]);
    let ghost second_region = region(source@, block_offset, queue[1]);
    let ghost unanswered: Option<Seq<u8>> = None;
    proof {
        assert(nodes.skip(0) =~= nodes);
        assert(queue.skip(0) =~= queue);
    }
    let field_node = match try_get_field_node(field_nodes) {
        Ok(node) => node,
        Err(e) => {
            proof {
                assert(decoded(
                    nodes,
                    data_type,
                    queue,
                    limit,
                    coded(first_region, unanswered),
                    coded(second_region, unanswered),
                ) == Err::<ArrayView, Error>(e));
                assert(buffers_taken(nodes, data_type, queue, coded(first_region, unanswered))
                    == 0);
            }
            return Err(e);
        },
    };

    let outcome = read_validity(
        buffers,
        field_node,
        source,
        block_offset,
        is_little_endian,
        compression,
        scratch,
    );
    let ghost first: Option<Seq<u8>> = if compression is Some {
        choose|answer: Option<Seq<u8>>|
            validity_result_view(outcome) == validity_of(
                field_node,
                queue.len(),
                coded(first_region, answer),
            )
    } else {
        unanswered
    };
    let ghost first_contents = if compression is Some {
        coded(first_region, first)
    } else {
        plain(first_region)
    };
    let validity = match outcome {
        Ok(validity) => validity,
        Err(e) => {
            proof {
                assert(decoded(
                    nodes,
                    data_type,
                    queue,
                    limit,
                    first_contents,
                    coded(second_region, unanswered),
                ) == Err::<ArrayView, Error>(e));
                assert(buffers@ == queue.skip(
                    buffers_taken(nodes, data_type, queue, first_contents),
                ));
            }
            return Err(e);
        },
    };
    proof {
        assert(queue.len() > 0);
        assert(buffers@ == queue.skip(1));
    }

    let length = match try_get_array_length(field_node, limit) {
        Ok(length) => length,
        Err(e) => {
            return Err(e);
        },
    };

    let size = match FixedSizeBinaryArray::maybe_get_size(&data_type) {
        Ok(size) => size,
        Err(e) => {
            proof {
                assert(decoded(
                    nodes,
                    data_type,
                    queue,
                    limit,
                    first_contents,
                    coded(second_region, unanswered),
                ) == Err::<ArrayView, Error>(e));
            }
            return Err(e);
        },
    };
    let (required, exact) = saturating_mul(length, size);
    let fetched = read_buffer(
        buffers,
        required,
        source,
        block_offset,
        is_little_endian,
        compression,
        scratch,
    );
    let ghost second: Option<Seq<u8>> = if compression is Some && queue.len() >= 2 {
        choose|answer: Option<Seq<u8>>|
            bytes_view(fetched) == values_of(coded(second_region, answer), required as nat)
    } else {
        unanswered
    };
    let ghost second_contents = if compression is Some {
        coded(second_region, second)
    } else {
        plain(second_region)
    };
    proof {
        if queue.len() >= 2 {
            assert(queue.skip(1).skip(1) =~= queue.skip(2));
            assert(queue.skip(1)[0] == queue[1]);
            assert(bytes_view(fetched) == values_of(second_contents, required as nat));
        } else {
            assert(queue.skip(1) =~= queue.skip(queue.len() as int));
        }
    }
    let values = match fetched {
        Ok(values) => values,
        Err(e) => {
            let reported = match e {
                Error::MissingBuffer => Error::MissingBuffer,
                _ => if exact {
                    e
                } else {
                    Error::LengthOverflow
                },
            };
            proof {
                assert(decoded(nodes, data_type, queue, limit, first_contents, second_contents)
                    == Err::<ArrayView, Error>(reported));
            }
            return Err(reported);
        },
    };
    if !exact {
        proof {
            assert(decoded(nodes, data_type, queue, limit, first_contents, second_contents)
                == Err::<ArrayView, Error>(Error::LengthOverflow));
        }
        return Err(Error::LengthOverflow);
    }
    let r = FixedSizeBinaryArray::try_new(data_type, values, validity);
    proof {
        assert(array_view(r) == decoded(
            nodes,
            data_type,
            queue,
            limit,
            first_contents,
            second_contents,
        ));
    }
    r
}

/// Passes over the next field of a message, which is a fixed-size binary
/// field that the caller does not want: takes its node and its two
/// buffers from the fronts of the queues, as decoding it would have done,
/// and looks at none of them.
pub fn skip_fixed_size_binary(
    field_nodes: &mut VecDeque<Node>,
    buffers: &mut VecDeque<IpcBuffer>,
) -> (r: Result<(), Error>)
    ensures
        r == skipped(old(field_nodes)@, old(buffers)@),
        final(field_nodes)@ == nodes_after_field(old(field_nodes)@),
        final(buffers)@ == buffers_after_skip(old(field_nodes)@, old(buffers)@),
{
    let ghost queue = buffers@;
    proof {
        assert(field_nodes@.skip(0) =~= field_nodes@);
        assert(queue.skip(0) =~= queue);
        if queue.len() >= 2 {
            assert(queue.skip(1).skip(1) =~= queue.skip(2));
        }
    }
    match field_nodes.pop_front() {
        Some(_) => {},
        None => {
            return Err(Error::MissingFieldNode);
        },
    }
    match buffers.pop_front() {
        Some(_) => {},
        None => {
            return Err(Error::MissingBuffer);
        },
    }
    match buffers.pop_front() {
        Some(_) => {},
        None => {
            proof {
                assert(queue.skip(1) =~= Seq::<IpcBuffer>::empty());
            }
            return Err(Error::MissingBuffer);
        },
    }
    Ok(())
}

/// The queue of buffers after a fixed-size binary field was passed over:
/// untouched where the field had no node, else without its first two
/// buffers, or empty where it held fewer.
pub open spec fn buffers_after_skip(nodes: Seq<Node>, buffers: Seq<IpcBuffer>) -> Seq<IpcBuffer> {
    if nodes.len() == 0 {
        buffers
    } else if buffers.len() < 2 {
        Seq::empty()
    } else {
        buffers.skip(2)
    }
}

/// Whether a fixed-size binary field can be passed over: it needs a node
/// and two buffers.
pub open spec fn skipped(nodes: Seq<Node>, buffers: Seq<IpcBuffer>) -> Result<(), Error> {
    if nodes.len() == 0 {
        Err(Error::MissingFieldNode)
    } else if buffers.len() < 2 {
        Err(Error::MissingBuffer)
    } else {
        Ok(())
    }
}

} // verus!
