//! What holds of decoding and skipping, whatever the message.
use crate::array::{lemma_raw_len, ArrayView, Payload};
use crate::bitmap::unpacked;
use crate::datatypes::DataType;
use crate::error::Error;
use crate::io::ipc::read::array::fixed_size_binary::{
    buffers_after_skip, buffers_taken, decoded, decoded_plain, nodes_after_field, skipped,
};
use crate::io::ipc::read::read_basic::region;
use crate::io::ipc::{IpcBuffer, Node};
use vstd::prelude::*;

verus! {

/// A fixed-size binary field that decodes can be skipped instead, and
/// skipping it leaves both queues exactly where decoding it leaves them:
/// one node and two buffers further on. The field that follows is
/// therefore decoded from the same entries, whether the field before it
/// was decoded or skipped: to the same outcome where its buffers hold the
/// same, as they do without a codec, and with a codec that answers alike.
pub proof fn law_skip_keeps_alignment(
    nodes: Seq<Node>,
    data_type: DataType,
    buffers: Seq<IpcBuffer>,
    limit: Option<usize>,
    validity_contents: Result<Seq<u8>, Error>,
    values_contents: Result<Seq<u8>, Error>,
    next_type: DataType,
    next_limit: Option<usize>,
    next_validity_contents: Result<Seq<u8>, Error>,
    next_values_contents: Result<Seq<u8>, Error>,
    source: Seq<u8>,
    block_offset: u64,
)
    requires
        decoded(nodes, data_type, buffers, limit, validity_contents, values_contents) is Ok,
    ensures
        skipped(nodes, buffers) is Ok,
        nodes_after_field(nodes) == nodes.skip(1),
        buffers_after_skip(nodes, buffers) == buffers.skip(
            buffers_taken(nodes, data_type, buffers, validity_contents),
        ),
        buffers_after_skip(nodes, buffers) == buffers.skip(2),
        decoded(
            nodes_after_field(nodes),
            next_type,
            buffers_after_skip(nodes, buffers),
            next_limit,
            next_validity_contents,
            next_values_contents,
        ) == decoded(
            nodes_after_field(nodes),
            next_type,
            buffers.skip(buffers_taken(nodes, data_type, buffers, validity_contents)),
            next_limit,
            next_validity_contents,
            next_values_contents,
        ),
        decoded_plain(
            nodes_after_field(nodes),
            next_type,
            buffers_after_skip(nodes, buffers),
            source,
            block_offset,
            next_limit,
        ) == decoded_plain(
            nodes_after_field(nodes),
            next_type,
            buffers.skip(buffers_taken(nodes, data_type, buffers, validity_contents)),
            source,
            block_offset,
            next_limit,
        ),
        buffers_taken(
            nodes_after_field(nodes),
            next_type,
            buffers_after_skip(nodes, buffers),
            next_validity_contents,
        ) == buffers_taken(
            nodes_after_field(nodes),
            next_type,
            buffers.skip(buffers_taken(nodes, data_type, buffers, validity_contents)),
            next_validity_contents,
        ),
{
}

/// The entries of an uncompressed message encode `array`: the node
/// declares its length and its number of nulls, the values buffer points
/// at bytes that begin with its raw bytes, and, where the array has a
/// mask, the validity buffer points at bytes whose first bits are the
/// mask.
pub open spec fn encodes(
    array: ArrayView,
    node: Node,
    validity: IpcBuffer,
    values: IpcBuffer,
    source: Seq<u8>,
    block_offset: u64,
) -> bool {
    &&& node.length == array.len()
    &&& node.null_count == array.null_count()
    &&& region(source, block_offset, values) matches Some(bytes) && array.bytes().len()
        <= bytes.len() && bytes.subrange(0, array.bytes().len() as int) == array.bytes()
    &&& array.validity matches Some(bits) ==> (region(source, block_offset, validity) matches Some(
        packed,
    ) && bits.len() <= packed.len() * 8 && unpacked(packed, bits.len()) == bits)
}

/// Decoding what encodes an array gives the array back: the same raw
/// bytes and the same validity mask.
///
/// The array is a well-formed fixed-size binary array whose bytes can be
/// addressed and whose mask, if it has one, marks a null: for a field
/// without nulls the format carries no mask, and none is decoded. A
/// limit, if there is one, is no less than the length of the array.
pub proof fn law_round_trip(
    array: ArrayView,
    nodes: Seq<Node>,
    buffers: Seq<IpcBuffer>,
    source: Seq<u8>,
    block_offset: u64,
    limit: Option<usize>,
)
    requires
        array.wf(),
        array.data_type is FixedSizeBinary,
        array.bytes().len() <= usize::MAX,
        array.validity is Some ==> array.null_count() > 0,
        limit matches Some(most) ==> most >= array.len(),
        nodes.len() > 0,
        buffers.len() >= 2,
        encodes(array, nodes[0], buffers[0], buffers[1], source, block_offset),
    ensures
        decoded_plain(nodes, array.data_type, buffers, source, block_offset, limit) == Ok::<
            ArrayView,
            Error,
        >(array),
{
    let width = array.size();
    let length = array.len();
    lemma_raw_len(array);
    assert(length <= length * width) by (nonlinear_arith)
        requires
            width >= 1,
    ;
    let bytes = region(source, block_offset, buffers[1])->0;
    assert(bytes.subrange(0, (length * width) as int) == array.bytes());
    assert(array.payload == Payload::Bytes(array.bytes()));
    if array.validity is None {
        assert(array.null_count() == 0);
    }
}

} // verus!
