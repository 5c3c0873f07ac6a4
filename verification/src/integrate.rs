//! Semi-implicit (symplectic) Euler integration, per node: fold the step's
//! force sum into the accumulator, advance velocity, damp it, advance
//! position from the new velocity, then clear the accumulator. Every store
//! into a node saturates to the i64 range, so a step is total: no input
//! produces an undefined coordinate.

use vstd::prelude::*;

verus! {

use crate::math::{abs_i, mul_div_trunc, sat_i64, sat_i64_of_i128, tdiv};
use crate::model::Node;
use crate::{FP_ONE, PARAM_LIMIT};

/// Magnitude bound on a per-node force sum handed to the integrator; the
/// repulsion and spring phases stay far below it.
pub const ACC_LIMIT: i128 = 2_000_000_000_000_000_000_000_000_000_000_000_000;

/// The integrated successor of node `n` under force sum `(fx, fy)`:
/// `v += f * dt; v *= damping; x += v * dt; f = 0`, each product scaled
/// back by `FP_ONE` with truncating division and each store saturated to
/// the i64 range. Payload fields ride along unchanged.
pub open spec fn spec_integrate_node(n: Node, fx: int, fy: int, dt: int, damping: int) -> Node {
    let fxt = sat_i64(n.fx + fx);
    let fyt = sat_i64(n.fy + fy);
    let vx1 = sat_i64(n.vx + tdiv(fxt * dt, FP_ONE as int));
    let vy1 = sat_i64(n.vy + tdiv(fyt * dt, FP_ONE as int));
    let vx2 = sat_i64(tdiv(vx1 * damping, FP_ONE as int));
    let vy2 = sat_i64(tdiv(vy1 * damping, FP_ONE as int));
    let x1 = sat_i64(n.x + tdiv(vx2 * dt, FP_ONE as int));
    let y1 = sat_i64(n.y + tdiv(vy2 * dt, FP_ONE as int));
    Node {
        x: x1 as i64,
        y: y1 as i64,
        vx: vx2 as i64,
        vy: vy2 as i64,
        fx: 0,
        fy: 0,
        mass: n.mass,
        red: n.red,
        green: n.green,
        blue: n.blue,
        alpha: n.alpha,
        size: n.size,
    }
}

/// One saturated integration substep: `base + tdiv(a * b, FP_ONE)`.
fn sat_mul_div_add(base: i64, a: i64, b: i64) -> (r: i64)
    requires
        abs_i(b as int) <= PARAM_LIMIT as int,
    ensures
        r as int == sat_i64(base + tdiv(a as int * b as int, FP_ONE as int)),
{
    proof {
        crate::math::lemma_abs_mul(a as int, b as int);
        vstd::arithmetic::mul::lemma_mul_upper_bound(
            abs_i(a as int),
            10_000_000_000_000_000_000int,
            abs_i(b as int),
            PARAM_LIMIT as int,
        );
        crate::math::lemma_tdiv_bounds(a as int * b as int, FP_ONE as int);
    }
    let scaled: i128 = mul_div_trunc(a as i128, b as i128, FP_ONE as i128);
    sat_i64_of_i128(base as i128 + scaled)
}

/// Integrate one node from its force sum. The force sum is the exact
/// 128-bit output of the repulsion and spring phases.
pub fn integrate_node(n: &Node, fx: i128, fy: i128, dt: i64, damping: i64) -> (r: Node)
    requires
        abs_i(fx as int) <= ACC_LIMIT as int,
        abs_i(fy as int) <= ACC_LIMIT as int,
        abs_i(dt as int) <= PARAM_LIMIT as int,
        abs_i(damping as int) <= PARAM_LIMIT as int,
    ensures
        r == spec_integrate_node(*n, fx as int, fy as int, dt as int, damping as int),
{
    let fxt: i64 = sat_i64_of_i128(n.fx as i128 + fx);
    let fyt: i64 = sat_i64_of_i128(n.fy as i128 + fy);
    let vx1: i64 = sat_mul_div_add(n.vx, fxt, dt);
    let vy1: i64 = sat_mul_div_add(n.vy, fyt, dt);
    let vx2: i64 = sat_mul_div_add(0, vx1, damping);
    let vy2: i64 = sat_mul_div_add(0, vy1, damping);
    let x1: i64 = sat_mul_div_add(n.x, vx2, dt);
    let y1: i64 = sat_mul_div_add(n.y, vy2, dt);
    Node {
        x: x1,
        y: y1,
        vx: vx2,
        vy: vy2,
        fx: 0,
        fy: 0,
        mass: n.mass,
        red: n.red,
        green: n.green,
        blue: n.blue,
        alpha: n.alpha,
        size: n.size,
    }
}

} // verus!
