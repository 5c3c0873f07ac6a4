//! Laws of the physics core, proved from the specifications the executable
//! functions are verified against.

use vstd::prelude::*;

verus! {

use vstd::arithmetic::div_mod::lemma_div_of0;
use crate::engine::{spec_step, spec_step_node, step_edge_count, step_node_count};
use crate::forces::{dist_fp, repulsion_contrib, spring_contrib, sq_dist};
use crate::grid::{
    cell_count, lemma_cell_at_decompose, lemma_cell_coord_apart, lemma_cell_count_mono, node_cell,
};
use crate::integrate::spec_integrate_node;
use crate::math::{abs_i, lemma_tdiv_mul_cancel, sat_i64, tdiv};
use crate::model::{Edge, Node, PhysicsParams};
use crate::repulsion::{
    brute_repulsion, cells_adjacent, grid_repulsion, recorded, rep_term, rep_term_grid,
};
use crate::spring::spring_term;
use crate::sums::{lemma_sum_pair_equal, lemma_sum_pair_zero};
use crate::{CELL_WIDTH, EPS_DIST, FP_ONE, GRID_CELLS, MIN_FORCE_DIST, PARAM_LIMIT};

/// Fixed-point distance between nodes `i` and `j` of an array.
pub open spec fn node_dist(nodes: Seq<Node>, i: int, j: int) -> int {
    dist_fp(nodes[i].x as int, nodes[i].y as int, nodes[j].x as int, nodes[j].y as int)
}

/// Separations beyond the repulsion radius contribute exactly zero force.
pub proof fn lemma_repulsion_zero_beyond_radius(
    ax: int,
    ay: int,
    bx: int,
    by: int,
    strength: int,
    radius: int,
)
    requires
        dist_fp(ax, ay, bx, by) > radius,
    ensures
        repulsion_contrib(ax, ay, bx, by, strength, radius) == (0int, 0int),
{
}

/// When every other node is farther from node `i` than the repulsion
/// radius, both the grid-accelerated and the brute-force evaluator assign
/// node `i` exactly zero repulsion.
pub proof fn lemma_repulsion_zero_for_isolated_node(
    nodes: Seq<Node>,
    count: int,
    i: int,
    cap: int,
    strength: int,
    radius: int,
)
    requires
        0 <= i < count,
        count <= nodes.len(),
        forall|j: int| 0 <= j < count && j != i ==> #[trigger] node_dist(nodes, i, j) > radius,
    ensures
        brute_repulsion(nodes, count, i, strength, radius) == (0int, 0int),
        grid_repulsion(nodes, count, i, cap, strength, radius) == (0int, 0int),
{
    let f = rep_term(nodes, i, strength, radius);
    let g = rep_term_grid(nodes, i, cap, strength, radius);
    assert forall|j: int| 0 <= j < count implies #[trigger] f(j) == (0int, 0int) by {
        if j != i {
            assert(node_dist(nodes, i, j) > radius);
        }
    }
    assert forall|j: int| 0 <= j < count implies #[trigger] g(j) == (0int, 0int) by {
        if j != i {
            assert(node_dist(nodes, i, j) > radius);
        }
    }
    lemma_sum_pair_zero(count, f);
    lemma_sum_pair_zero(count, g);
}

/// Coincident nodes exert no repulsion and no spring force on each other:
/// zero separation is clamped to a zero contribution, so a degenerate
/// geometry never produces an unbounded or undefined force.
pub proof fn lemma_coincident_nodes_zero_force(
    ax: int,
    ay: int,
    strength: int,
    radius: int,
    spring_constant: int,
    rest_length: int,
)
    ensures
        repulsion_contrib(ax, ay, ax, ay, strength, radius) == (0int, 0int),
        spring_contrib(ax, ay, ax, ay, spring_constant, rest_length) == (0int, 0int),
{
    assert(sq_dist(ax, ay, ax, ay) == 0) by (nonlinear_arith);
}

/// With zero repulsion strength every repulsion contribution is zero.
pub proof fn lemma_zero_strength_no_repulsion(ax: int, ay: int, bx: int, by: int, radius: int)
    ensures
        repulsion_contrib(ax, ay, bx, by, 0, radius) == (0int, 0int),
{
    let d = dist_fp(ax, ay, bx, by);
    if !(d > radius || d <= EPS_DIST as int) {
        let dc = if d < MIN_FORCE_DIST as int {
            MIN_FORCE_DIST as int
        } else {
            d
        };
        assert(dc * dc > 0) by (nonlinear_arith)
            requires dc >= MIN_FORCE_DIST as int;
        lemma_div_of0(dc * dc);
        let mag = tdiv(0 * (FP_ONE as int) * (FP_ONE as int), dc * dc);
        assert(mag == 0);
        assert((ax - bx) * mag == 0 && (ay - by) * mag == 0) by (nonlinear_arith)
            requires mag == 0;
        lemma_div_of0(d);
        assert(repulsion_contrib(ax, ay, bx, by, 0, radius) == (0int, 0int));
    }
}

/// With a zero spring constant every spring contribution is zero.
pub proof fn lemma_zero_constant_no_spring(ax: int, ay: int, bx: int, by: int, rest_length: int)
    ensures
        spring_contrib(ax, ay, bx, by, 0, rest_length) == (0int, 0int),
{
    let d = dist_fp(ax, ay, bx, by);
    if d != 0 {
        lemma_div_of0(FP_ONE as int);
        let mag = tdiv(0 * (d - rest_length), FP_ONE as int);
        assert(0 * (d - rest_length) == 0) by (nonlinear_arith);
        assert(mag == 0);
        assert((bx - ax) * mag == 0 && (by - ay) * mag == 0) by (nonlinear_arith)
            requires mag == 0;
        lemma_div_of0(d);
    }
}

/// Pairwise forces come in equal-magnitude, opposite-direction pairs: what
/// one node receives from another, the other receives negated, under both
/// the repulsion and the spring law.
pub proof fn lemma_pairwise_forces_opposite(
    ax: int,
    ay: int,
    bx: int,
    by: int,
    strength: int,
    radius: int,
    spring_constant: int,
    rest_length: int,
)
    ensures
        repulsion_contrib(ax, ay, bx, by, strength, radius).0 == -repulsion_contrib(
            bx,
            by,
            ax,
            ay,
            strength,
            radius,
        ).0,
        repulsion_contrib(ax, ay, bx, by, strength, radius).1 == -repulsion_contrib(
            bx,
            by,
            ax,
            ay,
            strength,
            radius,
        ).1,
        spring_contrib(ax, ay, bx, by, spring_constant, rest_length).0 == -spring_contrib(
            bx,
            by,
            ax,
            ay,
            spring_constant,
            rest_length,
        ).0,
        spring_contrib(ax, ay, bx, by, spring_constant, rest_length).1 == -spring_contrib(
            bx,
            by,
            ax,
            ay,
            spring_constant,
            rest_length,
        ).1,
{
    assert(sq_dist(ax, ay, bx, by) == sq_dist(bx, by, ax, ay)) by (nonlinear_arith);
    let d = dist_fp(ax, ay, bx, by);
    if !(d > radius || d <= EPS_DIST as int) {
        let dc = if d < MIN_FORCE_DIST as int {
            MIN_FORCE_DIST as int
        } else {
            d
        };
        let mag = tdiv(strength * (FP_ONE as int) * (FP_ONE as int), dc * dc);
        assert((bx - ax) * mag == -((ax - bx) * mag) && (by - ay) * mag == -((ay - by) * mag))
            by (nonlinear_arith);
        assert(dc * dc >= 1) by (nonlinear_arith)
            requires dc >= MIN_FORCE_DIST as int;
        crate::math::lemma_tdiv_neg((ax - bx) * mag, d);
        crate::math::lemma_tdiv_neg((ay - by) * mag, d);
    }
    if d != 0 {
        let smag = tdiv(spring_constant * (d - rest_length), FP_ONE as int);
        assert((ax - bx) * smag == -((bx - ax) * smag) && (ay - by) * smag == -((by - ay) * smag))
            by (nonlinear_arith);
        crate::math::lemma_tdiv_neg((bx - ax) * smag, d);
        crate::math::lemma_tdiv_neg((by - ay) * smag, d);
    }
}

/// Cross-validation of the two repulsion paths: when the repulsion radius
/// fits inside one grid cell and no cell overflows its capacity, the
/// grid-accelerated evaluator computes exactly the brute-force sum for
/// every node. (In general the grid path may drop pairs recorded past a
/// full cell's capacity or separated by more than a cell width.)
pub proof fn lemma_grid_matches_brute(
    nodes: Seq<Node>,
    count: int,
    i: int,
    cap: int,
    strength: int,
    radius: int,
)
    requires
        0 <= i < count,
        count <= nodes.len(),
        cap >= 1,
        radius <= CELL_WIDTH as int,
        forall|c: int| 0 <= c < GRID_CELLS ==> cell_count(nodes, count, c) <= cap,
    ensures
        grid_repulsion(nodes, count, i, cap, strength, radius) == brute_repulsion(
            nodes,
            count,
            i,
            strength,
            radius,
        ),
{
    let f = rep_term(nodes, i, strength, radius);
    let g = rep_term_grid(nodes, i, cap, strength, radius);
    let gsz = crate::GRID_SIZE as int;
    assert forall|j: int| 0 <= j < count implies #[trigger] g(j) == f(j) by {
        if j != i {
            let ci = node_cell(nodes[i]);
            let cj = node_cell(nodes[j]);
            lemma_cell_at_decompose(nodes[i].x as int, nodes[i].y as int);
            lemma_cell_at_decompose(nodes[j].x as int, nodes[j].y as int);
            // No cell overflowed, so every node is recorded by its cell.
            assert(cell_count(nodes, j + 1, cj) == cell_count(nodes, j, cj) + 1);
            lemma_cell_count_mono(nodes, j + 1, count, cj);
            assert(recorded(nodes, j, cap));
            if !cells_adjacent(ci, cj) {
                // The cells are two apart on some axis, so the nodes are
                // more than a cell width apart on that axis, hence farther
                // apart than the radius: the contribution is zero anyway.
                if abs_i(ci / gsz - cj / gsz) >= 2 {
                    lemma_cell_coord_apart(nodes[i].y as int, nodes[j].y as int);
                } else {
                    lemma_cell_coord_apart(nodes[i].x as int, nodes[j].x as int);
                }
                crate::forces::lemma_dist_ge_axis(
                    nodes[i].x as int,
                    nodes[i].y as int,
                    nodes[j].x as int,
                    nodes[j].y as int,
                );
                assert(f(j) == (0int, 0int));
            }
        }
    }
    lemma_sum_pair_equal(count, f, g);
}

/// Cross-validation at step level: under the same conditions, a step on
/// the accelerated path and a step on the scalar fallback produce exactly
/// the same node array.
pub proof fn lemma_step_backend_agreement(
    nodes: Seq<Node>,
    edges: Seq<Edge>,
    cap: int,
    p: PhysicsParams,
)
    requires
        cap >= 1,
        p.repulsion_radius <= CELL_WIDTH,
        forall|c: int|
            0 <= c < GRID_CELLS ==> cell_count(nodes, step_node_count(nodes, p), c) <= cap,
    ensures
        spec_step(nodes, edges, cap, true, p) == spec_step(nodes, edges, cap, false, p),
{
    let ncount = step_node_count(nodes, p);
    assert forall|i: int| 0 <= i < nodes.len() implies spec_step(nodes, edges, cap, true, p)[i]
        == spec_step(nodes, edges, cap, false, p)[i] by {
        if i < ncount {
            lemma_grid_matches_brute(
                nodes,
                ncount,
                i,
                cap,
                p.repulsion_strength as int,
                p.repulsion_radius as int,
            );
        }
    }
    assert(spec_step(nodes, edges, cap, true, p) =~= spec_step(nodes, edges, cap, false, p));
}

/// Determinism: a step is a function of the node array, the edge array and
/// the parameters alone, so identical inputs give identical outputs. Every
/// engine's `step` is verified to return exactly this function of its
/// inputs.
pub proof fn lemma_step_deterministic(
    nodes1: Seq<Node>,
    edges1: Seq<Edge>,
    p1: PhysicsParams,
    nodes2: Seq<Node>,
    edges2: Seq<Edge>,
    p2: PhysicsParams,
    cap: int,
    accelerated: bool,
)
    requires
        nodes1 == nodes2,
        edges1 == edges2,
        p1 == p2,
    ensures
        spec_step(nodes1, edges1, cap, accelerated, p1) == spec_step(
            nodes2,
            edges2,
            cap,
            accelerated,
            p2,
        ),
{
}

/// Force accumulators are step-local: every node a step processes comes
/// out with a cleared accumulator, so the next repulsion pass starts from
/// zero, and nodes beyond the processed count come out untouched.
pub proof fn lemma_step_clears_accumulators(
    nodes: Seq<Node>,
    edges: Seq<Edge>,
    cap: int,
    accelerated: bool,
    p: PhysicsParams,
)
    ensures
        forall|i: int|
            0 <= i < step_node_count(nodes, p) ==> (#[trigger] spec_step(
                nodes,
                edges,
                cap,
                accelerated,
                p,
            )[i]).fx == 0 && spec_step(nodes, edges, cap, accelerated, p)[i].fy == 0,
        forall|i: int|
            step_node_count(nodes, p) <= i < nodes.len() ==> #[trigger] spec_step(
                nodes,
                edges,
                cap,
                accelerated,
                p,
            )[i] == nodes[i],
{
}

/// Pure inertial drift: with damping one, zero repulsion strength, zero
/// spring constant and a clear force accumulator, one step leaves a node's
/// velocity unchanged and advances its position by exactly the fixed-point
/// product of velocity and delta time (when that position fits in i64).
pub proof fn lemma_step_inertial_drift(
    nodes: Seq<Node>,
    edges: Seq<Edge>,
    cap: int,
    accelerated: bool,
    p: PhysicsParams,
    i: int,
)
    requires
        0 <= i < step_node_count(nodes, p),
        p.damping_factor == FP_ONE,
        p.repulsion_strength == 0,
        p.spring_constant == 0,
        abs_i(p.delta_time as int) <= PARAM_LIMIT as int,
        nodes[i].fx == 0,
        nodes[i].fy == 0,
        i64::MIN <= nodes[i].x + tdiv(nodes[i].vx as int * p.delta_time as int, FP_ONE as int)
            <= i64::MAX,
        i64::MIN <= nodes[i].y + tdiv(nodes[i].vy as int * p.delta_time as int, FP_ONE as int)
            <= i64::MAX,
    ensures
        ({
            let r = spec_step(nodes, edges, cap, accelerated, p)[i];
            &&& r.vx == nodes[i].vx
            &&& r.vy == nodes[i].vy
            &&& r.x as int == nodes[i].x + tdiv(nodes[i].vx as int * p.delta_time as int, FP_ONE as int)
            &&& r.y as int == nodes[i].y + tdiv(nodes[i].vy as int * p.delta_time as int, FP_ONE as int)
        }),
{
    let ncount = step_node_count(nodes, p);
    let ecount = step_edge_count(edges, p);
    let frep = rep_term(nodes, i, 0, p.repulsion_radius as int);
    let fgrid = rep_term_grid(nodes, i, cap, 0, p.repulsion_radius as int);
    let fspr = spring_term(nodes, edges, ncount, i, 0, p.rest_length as int);
    assert forall|j: int| 0 <= j < ncount implies #[trigger] frep(j) == (0int, 0int) by {
        lemma_zero_strength_no_repulsion(
            nodes[i].x as int,
            nodes[i].y as int,
            nodes[j].x as int,
            nodes[j].y as int,
            p.repulsion_radius as int,
        );
    }
    assert forall|j: int| 0 <= j < ncount implies #[trigger] fgrid(j) == (0int, 0int) by {
        lemma_zero_strength_no_repulsion(
            nodes[i].x as int,
            nodes[i].y as int,
            nodes[j].x as int,
            nodes[j].y as int,
            p.repulsion_radius as int,
        );
    }
    assert forall|e: int| 0 <= e < ecount implies #[trigger] fspr(e) == (0int, 0int) by {
        let ed = edges[e];
        if (ed.a as int) < ncount && (ed.b as int) < ncount {
            if ed.a as int == i {
                lemma_zero_constant_no_spring(
                    nodes[i].x as int,
                    nodes[i].y as int,
                    nodes[ed.b as int].x as int,
                    nodes[ed.b as int].y as int,
                    p.rest_length as int,
                );
            } else if ed.b as int == i {
                lemma_zero_constant_no_spring(
                    nodes[i].x as int,
                    nodes[i].y as int,
                    nodes[ed.a as int].x as int,
                    nodes[ed.a as int].y as int,
                    p.rest_length as int,
                );
            }
        }
    }
    lemma_sum_pair_zero(ncount, frep);
    lemma_sum_pair_zero(ncount, fgrid);
    lemma_sum_pair_zero(ecount, fspr);
    let n = nodes[i];
    let r = spec_integrate_node(n, 0, 0, p.delta_time as int, FP_ONE as int);
    assert(sat_i64(n.fx + 0) == 0);
    lemma_div_of0(FP_ONE as int);
    assert(tdiv(0 * p.delta_time as int, FP_ONE as int) == 0);
    lemma_tdiv_mul_cancel(n.vx as int, FP_ONE as int);
    lemma_tdiv_mul_cancel(n.vy as int, FP_ONE as int);
    assert(r.vx == n.vx && r.vy == n.vy);
    assert(spec_step(nodes, edges, cap, accelerated, p)[i] == spec_step_node(
        nodes,
        edges,
        ncount,
        ecount,
        cap,
        accelerated,
        p,
        i,
    ));
}

} // verus!
