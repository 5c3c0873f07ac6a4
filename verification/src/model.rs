//! Data model of the physics core: nodes, edges, decoded input records and
//! the per-step parameter block. All coordinates, velocities, forces and
//! tunables are fixed-point values (`FP_ONE` sub-units per world unit).

use vstd::prelude::*;

verus! {

use crate::math::abs_i;
use crate::{PARAM_LIMIT, POS_LIMIT};

/// One simulated node. Position, velocity and the force accumulator drive
/// the physics; mass, color and size are payload carried through untouched.
#[derive(Clone, Copy, PartialEq, Eq, Structural, Debug)]
pub struct Node {
    pub x: i64,
    pub y: i64,
    pub vx: i64,
    pub vy: i64,
    pub fx: i64,
    pub fy: i64,
    pub mass: i64,
    pub red: i64,
    pub green: i64,
    pub blue: i64,
    pub alpha: i64,
    pub size: i64,
}

/// One edge: the indices of its endpoints in the node array (positional,
/// valid only for the current step), plus visual payload.
#[derive(Clone, Copy, PartialEq, Eq, Structural, Debug)]
pub struct Edge {
    pub a: usize,
    pub b: usize,
    pub red: i64,
    pub green: i64,
    pub blue: i64,
    pub alpha: i64,
    pub width: i64,
}

/// One node record as handed in by the host: seven values with the layout
/// x, y, red, green, blue, alpha, size.
#[derive(Clone, Copy, PartialEq, Eq, Structural, Debug)]
pub struct NodeData {
    pub x: i64,
    pub y: i64,
    pub red: i64,
    pub green: i64,
    pub blue: i64,
    pub alpha: i64,
    pub size: i64,
}

/// One edge record as handed in by the host for rendering: nine values with
/// the layout x1, y1, x2, y2, red, green, blue, alpha, width.
#[derive(Clone, Copy, PartialEq, Eq, Structural, Debug)]
pub struct EdgeData {
    pub x1: i64,
    pub y1: i64,
    pub x2: i64,
    pub y2: i64,
    pub red: i64,
    pub green: i64,
    pub blue: i64,
    pub alpha: i64,
    pub width: i64,
}

/// Per-step immutable tunables. The counts say how many of the stored nodes
/// and edges take part in the step; counts beyond the stored or maximum
/// lengths are truncated, never rejected.
#[derive(Clone, Copy, PartialEq, Eq, Structural, Debug)]
pub struct PhysicsParams {
    pub delta_time: i64,
    pub damping_factor: i64,
    pub spring_constant: i64,
    pub rest_length: i64,
    pub repulsion_strength: i64,
    pub repulsion_radius: i64,
    pub node_count: usize,
    pub edge_count: usize,
}

/// The tunables are small enough that every intermediate product of a step
/// fits in 128-bit arithmetic.
pub open spec fn params_ok(p: PhysicsParams) -> bool {
    &&& abs_i(p.delta_time as int) <= PARAM_LIMIT as int
    &&& abs_i(p.damping_factor as int) <= PARAM_LIMIT as int
    &&& abs_i(p.spring_constant as int) <= PARAM_LIMIT as int
    &&& abs_i(p.rest_length as int) <= PARAM_LIMIT as int
    &&& abs_i(p.repulsion_strength as int) <= PARAM_LIMIT as int
    &&& abs_i(p.repulsion_radius as int) <= PARAM_LIMIT as int
}

/// The node's position is inside the coordinate bound accepted by a step.
pub open spec fn node_pos_ok(n: Node) -> bool {
    &&& abs_i(n.x as int) <= POS_LIMIT as int
    &&& abs_i(n.y as int) <= POS_LIMIT as int
}

/// Every node among the first `count` has an in-bound position.
pub open spec fn nodes_pos_ok(nodes: Seq<Node>, count: int) -> bool {
    forall|i: int| 0 <= i < count ==> node_pos_ok(#[trigger] nodes[i])
}

/// Turn a decoded input record into a simulated node: velocity and the
/// force accumulator start at zero and the mass is uniform.
pub open spec fn spec_node_of_data(d: NodeData) -> Node {
    Node {
        x: d.x,
        y: d.y,
        vx: 0,
        vy: 0,
        fx: 0,
        fy: 0,
        mass: crate::FP_ONE,
        red: d.red,
        green: d.green,
        blue: d.blue,
        alpha: d.alpha,
        size: d.size,
    }
}

/// Executable counterpart of `spec_node_of_data`.
pub fn node_of_data(d: &NodeData) -> (n: Node)
    ensures
        n == spec_node_of_data(*d),
{
    Node {
        x: d.x,
        y: d.y,
        vx: 0,
        vy: 0,
        fx: 0,
        fy: 0,
        mass: crate::FP_ONE,
        red: d.red,
        green: d.green,
        blue: d.blue,
        alpha: d.alpha,
        size: d.size,
    }
}

} // verus!
