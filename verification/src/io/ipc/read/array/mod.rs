//! Decoding of whole fields, one encoding per file, and what they share.
pub mod fixed_size_binary;

use crate::error::Error;
use crate::io::ipc::read::read_basic::{declared_length, node_length};
use crate::io::ipc::Node;
use std::collections::VecDeque;
use vstd::prelude::*;

verus! {

/// The number of slots to decode of a field: what its node declares, but
/// no more than `limit`, where there is one.
pub open spec fn effective_length(node: Node, limit: Option<usize>) -> Option<nat> {
    match declared_length(node) {
        Some(length) => Some(
            match limit {
                Some(most) => if most < length {
                    most as nat
                } else {
                    length
                },
                None => length,
            },
        ),
        None => None,
    }
}

/// Takes the node of the next field from the queue.
pub fn try_get_field_node(field_nodes: &mut VecDeque<Node>) -> (r: Result<Node, Error>)
    ensures
        match r {
            Ok(node) => {
                &&& old(field_nodes)@.len() > 0
                &&& node == old(field_nodes)@[0]
                &&& final(field_nodes)@ == old(field_nodes)@.skip(1)
            },
            Err(e) => {
                &&& e == Error::MissingFieldNode
                &&& old(field_nodes)@.len() == 0
                &&& final(field_nodes)@ == old(field_nodes)@
            },
        },
{
    match field_nodes.pop_front() {
        Some(node) => Ok(node),
        None => Err(Error::MissingFieldNode),
    }
}

/// The number of slots to decode of a field; fails if the node declares
/// a length that is negative or cannot be addressed.
pub fn try_get_array_length(field_node: Node, limit: Option<usize>) -> (r: Result<usize, Error>)
    ensures
        match r {
            Ok(length) => effective_length(field_node, limit) == Some(length as nat),
            Err(e) => e == Error::InvalidLength && effective_length(field_node, limit) is None,
        },
{
    let length = match node_length(field_node) {
        Ok(length) => length,
        Err(e) => {
            return Err(e);
        },
    };
    match limit {
        Some(most) => if most < length {
            Ok(most)
        } else {
            Ok(length)
        },
        None => Ok(length),
    }
}

} // verus!
