//! Decoding of the host's flat numeric buffers: seven values per node,
//! nine values per edge, already converted to fixed-point sub-units. A
//! trailing partial record is ignored, as the strides demand.

use vstd::prelude::*;

verus! {

use vstd::arithmetic::div_mod::lemma_fundamental_div_mod;
use vstd::arithmetic::mul::lemma_mul_inequality;
use crate::model::{EdgeData, NodeData};

/// Values per node record: x, y, red, green, blue, alpha, size.
pub const NODE_STRIDE: usize = 7;

/// Values per edge record: x1, y1, x2, y2, red, green, blue, alpha, width.
pub const EDGE_STRIDE: usize = 9;

/// The node record starting at value `base` of a flat buffer.
pub open spec fn spec_node_record(buf: Seq<i64>, base: int) -> NodeData {
    NodeData {
        x: buf[base],
        y: buf[base + 1],
        red: buf[base + 2],
        green: buf[base + 3],
        blue: buf[base + 4],
        alpha: buf[base + 5],
        size: buf[base + 6],
    }
}

/// The edge record starting at value `base` of a flat buffer.
pub open spec fn spec_edge_record(buf: Seq<i64>, base: int) -> EdgeData {
    EdgeData {
        x1: buf[base],
        y1: buf[base + 1],
        x2: buf[base + 2],
        y2: buf[base + 3],
        red: buf[base + 4],
        green: buf[base + 5],
        blue: buf[base + 6],
        alpha: buf[base + 7],
        width: buf[base + 8],
    }
}

/// A record that starts inside the first `count` strides ends inside the
/// buffer.
proof fn lemma_stride_in_range(len: int, stride: int, i: int)
    requires
        stride >= 1,
        len >= 0,
        0 <= i < len / stride,
    ensures
        i * stride + stride <= len,
{
    lemma_fundamental_div_mod(len, stride);
    vstd::arithmetic::div_mod::lemma_mod_bound(len, stride);
    lemma_mul_inequality(i + 1, len / stride, stride);
    assert((i + 1) * stride == i * stride + stride) by (nonlinear_arith);
    assert((len / stride) * stride == stride * (len / stride)) by (nonlinear_arith);
}

/// Decode a flat node buffer: one record per full stride of seven values.
pub fn decode_node_buffer(buf: &Vec<i64>) -> (r: Vec<NodeData>)
    ensures
        r@.len() == buf@.len() as int / NODE_STRIDE as int,
        forall|i: int|
            0 <= i < r@.len() ==> #[trigger] r@[i] == spec_node_record(
                buf@,
                i * NODE_STRIDE as int,
            ),
{
    let count: usize = buf.len() / NODE_STRIDE;
    let mut out: Vec<NodeData> = Vec::new();
    let mut i: usize = 0;
    while i < count
        invariant
            i <= count,
            buf@.len() <= usize::MAX,
            count == buf@.len() as int / NODE_STRIDE as int,
            out@.len() == i,
            forall|k: int|
                0 <= k < i ==> #[trigger] out@[k] == spec_node_record(
                    buf@,
                    k * NODE_STRIDE as int,
                ),
        decreases count - i,
    {
        proof {
            lemma_stride_in_range(buf@.len() as int, NODE_STRIDE as int, i as int);
        }
        let base: usize = i * NODE_STRIDE;
        out.push(
            NodeData {
                x: buf[base],
                y: buf[base + 1],
                red: buf[base + 2],
                green: buf[base + 3],
                blue: buf[base + 4],
                alpha: buf[base + 5],
                size: buf[base + 6],
            },
        );
        i = i + 1;
    }
    out
}

/// Decode a flat edge buffer: one record per full stride of nine values.
pub fn decode_edge_buffer(buf: &Vec<i64>) -> (r: Vec<EdgeData>)
    ensures
        r@.len() == buf@.len() as int / EDGE_STRIDE as int,
        forall|i: int|
            0 <= i < r@.len() ==> #[trigger] r@[i] == spec_edge_record(
                buf@,
                i * EDGE_STRIDE as int,
            ),
{
    let count: usize = buf.len() / EDGE_STRIDE;
    let mut out: Vec<EdgeData> = Vec::new();
    let mut i: usize = 0;
    while i < count
        invariant
            i <= count,
            buf@.len() <= usize::MAX,
            count == buf@.len() as int / EDGE_STRIDE as int,
            out@.len() == i,
            forall|k: int|
                0 <= k < i ==> #[trigger] out@[k] == spec_edge_record(
                    buf@,
                    k * EDGE_STRIDE as int,
                ),
        decreases count - i,
    {
        proof {
            lemma_stride_in_range(buf@.len() as int, EDGE_STRIDE as int, i as int);
        }
        let base: usize = i * EDGE_STRIDE;
        out.push(
            EdgeData {
                x1: buf[base],
                y1: buf[base + 1],
                x2: buf[base + 2],
                y2: buf[base + 3],
                red: buf[base + 4],
                green: buf[base + 5],
                blue: buf[base + 6],
                alpha: buf[base + 7],
                width: buf[base + 8],
            },
        );
        i = i + 1;
    }
    out
}

} // verus!
