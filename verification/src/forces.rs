//! The two force laws, per pair: bounded-radius repulsion and spring
//! attraction toward a rest length. Distances are Euclidean, rounded down
//! to fixed-point sub-units; each law is specified exactly over the
//! mathematical integers and computed without overflow.

use vstd::prelude::*;

verus! {

use vstd::arithmetic::div_mod::lemma_div_is_ordered_by_denominator;
use vstd::arithmetic::mul::lemma_mul_upper_bound;
use crate::math::{
    abs_i, isqrt, isqrt_u128, lemma_abs_mul, lemma_isqrt_mono, lemma_isqrt_square, lemma_tdiv_le,
    mul_div_trunc, tdiv,
};
use crate::model::{node_pos_ok, Node};
use crate::{EPS_DIST, FP_ONE, MIN_FORCE_DIST, PARAM_LIMIT, POS_LIMIT};

/// Upper bound on the fixed-point distance of two in-bound positions.
pub const DIST_BOUND: i64 = 3_000_000_000_000;

/// The fixed-point square of one world unit.
pub const FP_SQ: i128 = 1_000_000_000_000;

/// Magnitude bound on one repulsion contribution component.
pub const REP_COMP_BOUND: i128 = 20_000_000_000_000_000_000_000_000_000;

/// Magnitude bound on one spring contribution component.
pub const SPRING_COMP_BOUND: i128 = 8_000_000_000_000_000_000_000_000_000_000;

/// Squared Euclidean separation of two positions.
pub open spec fn sq_dist(ax: int, ay: int, bx: int, by: int) -> int {
    (bx - ax) * (bx - ax) + (by - ay) * (by - ay)
}

/// Fixed-point separation: the integer square root of the squared
/// separation.
pub open spec fn dist_fp(ax: int, ay: int, bx: int, by: int) -> int {
    isqrt(sq_dist(ax, ay, bx, by) as nat) as int
}

/// A squared separation is never negative.
pub proof fn lemma_sq_dist_nonneg(ax: int, ay: int, bx: int, by: int)
    by (nonlinear_arith)
    ensures
        sq_dist(ax, ay, bx, by) >= 0,
        sq_dist(ax, ay, bx, by) >= (bx - ax) * (bx - ax),
        sq_dist(ax, ay, bx, by) >= (by - ay) * (by - ay),
{
}

/// The separation dominates each coordinate difference, so two positions
/// more than `dist_fp` apart on either axis are more than `dist_fp` apart.
pub proof fn lemma_dist_ge_axis(ax: int, ay: int, bx: int, by: int)
    ensures
        dist_fp(ax, ay, bx, by) >= abs_i(bx - ax),
        dist_fp(ax, ay, bx, by) >= abs_i(by - ay),
        dist_fp(ax, ay, bx, by) >= 0,
{
    lemma_sq_dist_nonneg(ax, ay, bx, by);
    let adx = abs_i(bx - ax);
    let ady = abs_i(by - ay);
    assert((bx - ax) * (bx - ax) == adx * adx) by (nonlinear_arith)
        requires adx == bx - ax || adx == -(bx - ax);
    assert((by - ay) * (by - ay) == ady * ady) by (nonlinear_arith)
        requires ady == by - ay || ady == -(by - ay);
    lemma_isqrt_square(adx);
    lemma_isqrt_square(ady);
    lemma_isqrt_mono((adx * adx) as nat, sq_dist(ax, ay, bx, by) as nat);
    lemma_isqrt_mono((ady * ady) as nat, sq_dist(ax, ay, bx, by) as nat);
}

/// Repulsion exerted on the node at `(ax, ay)` by the node at `(bx, by)`:
/// zero outside `(EPS_DIST, radius]`, otherwise of magnitude
/// `strength / max(d, MIN_FORCE_DIST)^2` (in world units) directed from the
/// other node toward this one.
pub open spec fn repulsion_contrib(
    ax: int,
    ay: int,
    bx: int,
    by: int,
    strength: int,
    radius: int,
) -> (int, int) {
    let d = dist_fp(ax, ay, bx, by);
    if d > radius || d <= EPS_DIST as int {
        (0int, 0int)
    } else {
        let dc = if d < MIN_FORCE_DIST as int {
            MIN_FORCE_DIST as int
        } else {
            d
        };
        let mag = tdiv(strength * (FP_ONE as int) * (FP_ONE as int), dc * dc);
        (tdiv((ax - bx) * mag, d), tdiv((ay - by) * mag, d))
    }
}

/// Spring force exerted on endpoint `(ax, ay)` by an edge to `(bx, by)`:
/// magnitude `spring_constant * (d - rest_length)` (in world units) along
/// the line toward the other endpoint; coincident endpoints contribute
/// nothing.
pub open spec fn spring_contrib(
    ax: int,
    ay: int,
    bx: int,
    by: int,
    spring_constant: int,
    rest_length: int,
) -> (int, int) {
    let d = dist_fp(ax, ay, bx, by);
    if d == 0 {
        (0int, 0int)
    } else {
        let mag = tdiv(spring_constant * (d - rest_length), FP_ONE as int);
        (tdiv((bx - ax) * mag, d), tdiv((by - ay) * mag, d))
    }
}

/// For in-bound positions the fixed-point distance stays under
/// `DIST_BOUND`.
pub proof fn lemma_dist_bound(ax: int, ay: int, bx: int, by: int)
    requires
        abs_i(ax) <= POS_LIMIT as int,
        abs_i(ay) <= POS_LIMIT as int,
        abs_i(bx) <= POS_LIMIT as int,
        abs_i(by) <= POS_LIMIT as int,
    ensures
        0 <= dist_fp(ax, ay, bx, by) <= DIST_BOUND as int,
{
    lemma_sq_dist_nonneg(ax, ay, bx, by);
    let sq = sq_dist(ax, ay, bx, by);
    assert(sq <= 8_000_000_000_000_000_000_000_000int) by (nonlinear_arith)
        requires
            abs_i(bx - ax) <= 2_000_000_000_000int,
            abs_i(by - ay) <= 2_000_000_000_000int,
            sq == (bx - ax) * (bx - ax) + (by - ay) * (by - ay);
    crate::math::lemma_isqrt_fundamental(sq as nat);
    let d = isqrt(sq as nat) as int;
    if d > DIST_BOUND as int {
        assert(d * d > 9_000_000_000_000_000_000_000_000int) by (nonlinear_arith)
            requires d > 3_000_000_000_000int;
    }
}

/// One repulsion contribution component never exceeds `REP_COMP_BOUND` in
/// magnitude when the positions and the strength are in bounds.
pub proof fn lemma_repulsion_contrib_bound(
    ax: int,
    ay: int,
    bx: int,
    by: int,
    strength: int,
    radius: int,
)
    requires
        abs_i(ax) <= POS_LIMIT as int,
        abs_i(ay) <= POS_LIMIT as int,
        abs_i(bx) <= POS_LIMIT as int,
        abs_i(by) <= POS_LIMIT as int,
        abs_i(strength) <= PARAM_LIMIT as int,
    ensures
        abs_i(repulsion_contrib(ax, ay, bx, by, strength, radius).0) <= REP_COMP_BOUND as int,
        abs_i(repulsion_contrib(ax, ay, bx, by, strength, radius).1) <= REP_COMP_BOUND as int,
{
    lemma_dist_bound(ax, ay, bx, by);
    let d = dist_fp(ax, ay, bx, by);
    if !(d > radius || d <= EPS_DIST as int) {
        let dc = if d < MIN_FORCE_DIST as int {
            MIN_FORCE_DIST as int
        } else {
            d
        };
        assert(100_000_000int <= dc * dc) by (nonlinear_arith)
            requires 10_000 <= dc;
        lemma_abs_mul(strength, FP_SQ as int);
        let mag = tdiv(strength * (FP_ONE as int) * (FP_ONE as int), dc * dc);
        assert(strength * (FP_ONE as int) * (FP_ONE as int) == strength * FP_SQ as int);
        lemma_tdiv_le(strength * FP_SQ as int, PARAM_LIMIT as int * FP_SQ as int, dc * dc);
        lemma_div_is_ordered_by_denominator(
            PARAM_LIMIT as int * FP_SQ as int,
            100_000_000int,
            dc * dc,
        );
        assert(abs_i(mag) <= 10_000_000_000_000_000int);
        lemma_abs_mul(ax - bx, mag);
        lemma_abs_mul(ay - by, mag);
        lemma_mul_upper_bound(abs_i(ax - bx), 2_000_000_000_000int, abs_i(mag), 10_000_000_000_000_000int);
        lemma_mul_upper_bound(abs_i(ay - by), 2_000_000_000_000int, abs_i(mag), 10_000_000_000_000_000int);
        lemma_tdiv_le((ax - bx) * mag, REP_COMP_BOUND as int, d);
        lemma_tdiv_le((ay - by) * mag, REP_COMP_BOUND as int, d);
    }
}

/// Fixed-point distance between two in-bound positions.
pub fn dist_between(ax: i64, ay: i64, bx: i64, by: i64) -> (d: i64)
    requires
        abs_i(ax as int) <= POS_LIMIT as int,
        abs_i(ay as int) <= POS_LIMIT as int,
        abs_i(bx as int) <= POS_LIMIT as int,
        abs_i(by as int) <= POS_LIMIT as int,
    ensures
        d as int == dist_fp(ax as int, ay as int, bx as int, by as int),
        0 <= d <= DIST_BOUND,
{
    let dx: i128 = bx as i128 - ax as i128;
    let dy: i128 = by as i128 - ay as i128;
    assert(dx * dx <= 4_000_000_000_000_000_000_000_000i128 && dx * dx >= 0) by (nonlinear_arith)
        requires abs_i(dx as int) <= 2_000_000_000_000int;
    assert(dy * dy <= 4_000_000_000_000_000_000_000_000i128 && dy * dy >= 0) by (nonlinear_arith)
        requires abs_i(dy as int) <= 2_000_000_000_000int;
    let sq: i128 = dx * dx + dy * dy;
    let r: u64 = isqrt_u128(sq as u128);
    proof {
        assert(sq as u128 as nat == sq_dist(ax as int, ay as int, bx as int, by as int));
        if r as int > DIST_BOUND as int {
            assert(r as int * r as int > 9_000_000_000_000_000_000_000_000int) by (nonlinear_arith)
                requires r as int > 3_000_000_000_000int;
        }
    }
    r as i64
}

/// Repulsion exerted on node `a` by node `b`, as an exact pair of
/// 128-bit components.
pub fn repulsion_force(a: &Node, b: &Node, strength: i64, radius: i64) -> (r: (i128, i128))
    requires
        node_pos_ok(*a),
        node_pos_ok(*b),
        abs_i(strength as int) <= PARAM_LIMIT as int,
    ensures
        r.0 as int == repulsion_contrib(
            a.x as int,
            a.y as int,
            b.x as int,
            b.y as int,
            strength as int,
            radius as int,
        ).0,
        r.1 as int == repulsion_contrib(
            a.x as int,
            a.y as int,
            b.x as int,
            b.y as int,
            strength as int,
            radius as int,
        ).1,
        abs_i(r.0 as int) <= REP_COMP_BOUND as int,
        abs_i(r.1 as int) <= REP_COMP_BOUND as int,
{
    let d: i64 = dist_between(a.x, a.y, b.x, b.y);
    if d > radius || d <= EPS_DIST {
        (0, 0)
    } else {
        let dc: i64 = if d < MIN_FORCE_DIST {
            MIN_FORCE_DIST
        } else {
            d
        };
        assert(dc as i128 * dc as i128 >= 100_000_000i128 && dc as i128 * dc as i128
            <= 9_000_000_000_000_000_000_000_000i128) by (nonlinear_arith)
            requires 10_000 <= dc <= 3_000_000_000_000i64;
        let d2: i128 = (dc as i128) * (dc as i128);
        proof {
            lemma_abs_mul(strength as int, FP_SQ as int);
        }
        let mag: i128 = mul_div_trunc(strength as i128, FP_SQ, d2);
        proof {
            lemma_tdiv_le(strength as int * FP_SQ as int, PARAM_LIMIT as int * FP_SQ as int, d2 as int);
            lemma_div_is_ordered_by_denominator(
                PARAM_LIMIT as int * FP_SQ as int,
                100_000_000int,
                d2 as int,
            );
            assert(abs_i(mag as int) <= 10_000_000_000_000_000int);
            lemma_abs_mul(a.x - b.x, mag as int);
            lemma_abs_mul(a.y - b.y, mag as int);
            lemma_mul_upper_bound(
                abs_i(a.x - b.x),
                2_000_000_000_000int,
                abs_i(mag as int),
                10_000_000_000_000_000int,
            );
            lemma_mul_upper_bound(
                abs_i(a.y - b.y),
                2_000_000_000_000int,
                abs_i(mag as int),
                10_000_000_000_000_000int,
            );
        }
        let cx: i128 = mul_div_trunc(a.x as i128 - b.x as i128, mag, d as i128);
        let cy: i128 = mul_div_trunc(a.y as i128 - b.y as i128, mag, d as i128);
        proof {
            assert(strength as int * FP_SQ as int == strength as int * (FP_ONE as int) * (
            FP_ONE as int));
        }
        (cx, cy)
    }
}

/// Spring force exerted on node `a` by an edge joining it to node `b`, as
/// an exact pair of 128-bit components.
pub fn spring_force(a: &Node, b: &Node, spring_constant: i64, rest_length: i64) -> (r: (
    i128,
    i128,
))
    requires
        node_pos_ok(*a),
        node_pos_ok(*b),
        abs_i(spring_constant as int) <= PARAM_LIMIT as int,
        abs_i(rest_length as int) <= PARAM_LIMIT as int,
    ensures
        r.0 as int == spring_contrib(
            a.x as int,
            a.y as int,
            b.x as int,
            b.y as int,
            spring_constant as int,
            rest_length as int,
        ).0,
        r.1 as int == spring_contrib(
            a.x as int,
            a.y as int,
            b.x as int,
            b.y as int,
            spring_constant as int,
            rest_length as int,
        ).1,
        abs_i(r.0 as int) <= SPRING_COMP_BOUND as int,
        abs_i(r.1 as int) <= SPRING_COMP_BOUND as int,
{
    let d: i64 = dist_between(a.x, a.y, b.x, b.y);
    if d == 0 {
        (0, 0)
    } else {
        let stretch: i128 = d as i128 - rest_length as i128;
        proof {
            lemma_abs_mul(spring_constant as int, stretch as int);
            lemma_mul_upper_bound(
                abs_i(spring_constant as int),
                PARAM_LIMIT as int,
                abs_i(stretch as int),
                4_000_000_000_000int,
            );
        }
        let mag: i128 = mul_div_trunc(spring_constant as i128, stretch, FP_ONE as i128);
        proof {
            lemma_tdiv_le(
                spring_constant as int * stretch as int,
                4_000_000_000_000_000_000_000_000int,
                FP_ONE as int,
            );
            assert(abs_i(mag as int) <= 4_000_000_000_000_000_000int);
            lemma_abs_mul(b.x - a.x, mag as int);
            lemma_abs_mul(b.y - a.y, mag as int);
            lemma_mul_upper_bound(
                abs_i(b.x - a.x),
                2_000_000_000_000int,
                abs_i(mag as int),
                4_000_000_000_000_000_000int,
            );
            lemma_mul_upper_bound(
                abs_i(b.y - a.y),
                2_000_000_000_000int,
                abs_i(mag as int),
                4_000_000_000_000_000_000int,
            );
        }
        let cx: i128 = mul_div_trunc(b.x as i128 - a.x as i128, mag, d as i128);
        let cy: i128 = mul_div_trunc(b.y as i128 - a.y as i128, mag, d as i128);
        (cx, cy)
    }
}

} // verus!
