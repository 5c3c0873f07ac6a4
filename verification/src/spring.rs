//! The spring phase: every edge pulls its two endpoints toward the rest
//! length, adding opposite contributions to the two force accumulators.
//! Edges with an endpoint outside the step's node range contribute
//! nothing; they are skipped, not an error.

use vstd::prelude::*;

verus! {

use crate::forces::{spring_contrib, spring_force, SPRING_COMP_BOUND};
use crate::math::abs_i;
use crate::model::{nodes_pos_ok, Edge, Node};
use crate::sums::sum_pair;
use crate::{MAX_EDGES, PARAM_LIMIT};

/// Magnitude bound on the repulsion phase's output per node, which the
/// spring phase accepts as its starting accumulator values.
pub const REP_TOTAL_BOUND: i128 = 2_000_000_000_000_000_000_000_000_000_000_000;

/// Per-edge spring terms acting on node `i`: an edge contributes when one
/// of its endpoints is `i` and both endpoints lie below `ncount`.
pub open spec fn spring_term(
    nodes: Seq<Node>,
    edges: Seq<Edge>,
    ncount: int,
    i: int,
    spring_constant: int,
    rest_length: int,
) -> spec_fn(int) -> (int, int) {
    |e: int|
        {
            let ed = edges[e];
            if (ed.a as int) < ncount && (ed.b as int) < ncount {
                if ed.a as int == i {
                    spring_contrib(
                        nodes[i].x as int,
                        nodes[i].y as int,
                        nodes[ed.b as int].x as int,
                        nodes[ed.b as int].y as int,
                        spring_constant,
                        rest_length,
                    )
                } else if ed.b as int == i {
                    spring_contrib(
                        nodes[i].x as int,
                        nodes[i].y as int,
                        nodes[ed.a as int].x as int,
                        nodes[ed.a as int].y as int,
                        spring_constant,
                        rest_length,
                    )
                } else {
                    (0int, 0int)
                }
            } else {
                (0int, 0int)
            }
        }
}

/// Total spring force on node `i` over the first `ecount` edges.
pub open spec fn spring_total(
    nodes: Seq<Node>,
    edges: Seq<Edge>,
    ncount: int,
    ecount: int,
    i: int,
    spring_constant: int,
    rest_length: int,
) -> (int, int) {
    sum_pair(ecount, spring_term(nodes, edges, ncount, i, spring_constant, rest_length))
}

/// Add every edge's spring contributions into the per-node force
/// accumulators left by the repulsion phase.
pub fn accumulate_springs(
    nodes: &Vec<Node>,
    edges: &Vec<Edge>,
    ncount: usize,
    ecount: usize,
    spring_constant: i64,
    rest_length: i64,
    acc: &mut Vec<(i128, i128)>,
)
    requires
        ncount <= nodes@.len(),
        ecount <= edges@.len(),
        ecount <= MAX_EDGES,
        old(acc)@.len() == ncount,
        nodes_pos_ok(nodes@, ncount as int),
        abs_i(spring_constant as int) <= PARAM_LIMIT as int,
        abs_i(rest_length as int) <= PARAM_LIMIT as int,
        forall|i: int|
            0 <= i < ncount ==> abs_i((#[trigger] old(acc)@[i]).0 as int) <= REP_TOTAL_BOUND as int
                && abs_i(old(acc)@[i].1 as int) <= REP_TOTAL_BOUND as int,
    ensures
        final(acc)@.len() == ncount,
        forall|i: int|
            0 <= i < ncount ==> {
                let spr = spring_total(
                    nodes@,
                    edges@,
                    ncount as int,
                    ecount as int,
                    i,
                    spring_constant as int,
                    rest_length as int,
                );
                (#[trigger] final(acc)@[i]).0 as int == old(acc)@[i].0 + spr.0
                    && final(acc)@[i].1 as int == old(acc)@[i].1 + spr.1
            },
        forall|i: int|
            0 <= i < ncount ==> abs_i((#[trigger] final(acc)@[i]).0 as int) <= REP_TOTAL_BOUND as int
                + ecount as int * SPRING_COMP_BOUND as int && abs_i(final(acc)@[i].1 as int)
                <= REP_TOTAL_BOUND as int + ecount as int * SPRING_COMP_BOUND as int,
{
    let ghost acc0 = old(acc)@;
    let mut e: usize = 0;
    while e < ecount
        invariant
            e <= ecount,
            ncount <= nodes@.len(),
            ecount <= edges@.len(),
            ecount <= MAX_EDGES,
            acc@.len() == ncount,
            acc0.len() == ncount,
            nodes_pos_ok(nodes@, ncount as int),
            abs_i(spring_constant as int) <= PARAM_LIMIT as int,
            abs_i(rest_length as int) <= PARAM_LIMIT as int,
            forall|i: int|
                0 <= i < ncount ==> abs_i((#[trigger] acc0[i]).0 as int) <= REP_TOTAL_BOUND as int
                    && abs_i(acc0[i].1 as int) <= REP_TOTAL_BOUND as int,
            forall|i: int|
                0 <= i < ncount ==> {
                    let spr = sum_pair(
                        e as int,
                        spring_term(
                            nodes@,
                            edges@,
                            ncount as int,
                            i,
                            spring_constant as int,
                            rest_length as int,
                        ),
                    );
                    (#[trigger] acc@[i]).0 as int == acc0[i].0 + spr.0 && acc@[i].1 as int
                        == acc0[i].1 + spr.1
                },
            forall|i: int|
                0 <= i < ncount ==> abs_i((#[trigger] acc@[i]).0 as int) <= REP_TOTAL_BOUND as int
                    + e as int * SPRING_COMP_BOUND as int && abs_i(acc@[i].1 as int)
                    <= REP_TOTAL_BOUND as int + e as int * SPRING_COMP_BOUND as int,
        decreases ecount - e,
    {
        let ed: Edge = edges[e];
        let ghost pre = acc@;
        proof {
            assert(REP_TOTAL_BOUND as int + (e + 1) as int * SPRING_COMP_BOUND as int
                <= REP_TOTAL_BOUND as int + MAX_EDGES as int * SPRING_COMP_BOUND as int
                && (e + 1) as int * SPRING_COMP_BOUND as int == e as int * SPRING_COMP_BOUND as int
                + SPRING_COMP_BOUND as int) by (nonlinear_arith)
                requires 0 <= e < MAX_EDGES as int;
        }
        if ed.a < ncount && ed.b < ncount {
            let ca: (i128, i128) = spring_force(&nodes[ed.a], &nodes[ed.b], spring_constant, rest_length);
            let cb: (i128, i128) = spring_force(&nodes[ed.b], &nodes[ed.a], spring_constant, rest_length);
            let cur_a: (i128, i128) = acc[ed.a];
            acc[ed.a] = (cur_a.0 + ca.0, cur_a.1 + ca.1);
            let cur_b: (i128, i128) = acc[ed.b];
            acc[ed.b] = (cur_b.0 + cb.0, cur_b.1 + cb.1);
            proof {
                assert forall|i: int| 0 <= i < ncount implies {
                    let spr = sum_pair(
                        e as int + 1,
                        spring_term(
                            nodes@,
                            edges@,
                            ncount as int,
                            i,
                            spring_constant as int,
                            rest_length as int,
                        ),
                    );
                    &&& (#[trigger] acc@[i]).0 as int == acc0[i].0 + spr.0
                    &&& acc@[i].1 as int == acc0[i].1 + spr.1
                    &&& abs_i(acc@[i].0 as int) <= REP_TOTAL_BOUND as int + (e as int + 1)
                        * SPRING_COMP_BOUND as int
                    &&& abs_i(acc@[i].1 as int) <= REP_TOTAL_BOUND as int + (e as int + 1)
                        * SPRING_COMP_BOUND as int
                } by {
                    let f = spring_term(
                        nodes@,
                        edges@,
                        ncount as int,
                        i,
                        spring_constant as int,
                        rest_length as int,
                    );
                    assert(sum_pair(e as int + 1, f).0 == sum_pair(e as int, f).0 + f(e as int).0);
                    if i == ed.a as int && i == ed.b as int {
                        assert(acc@[i].0 as int == pre[i].0 + ca.0 + cb.0 && acc@[i].1 as int
                            == pre[i].1 + ca.1 + cb.1);
                        assert(f(e as int) == (0int, 0int));
                        // A self loop joins coincident endpoints, so both
                        // of its contributions are zero.
                        let sx = nodes@[i].x as int;
                        let sy = nodes@[i].y as int;
                        assert(crate::forces::sq_dist(sx, sy, sx, sy) == 0) by (nonlinear_arith);
                        assert(crate::forces::dist_fp(sx, sy, sx, sy) == 0);
                        assert(ca.0 as int == 0 && ca.1 as int == 0);
                        assert(cb.0 as int == 0 && cb.1 as int == 0);
                    } else if i == ed.a as int {
                        assert(acc@[i].0 as int == pre[i].0 + ca.0 && acc@[i].1 as int == pre[i].1
                            + ca.1);
                        assert(f(e as int) == (ca.0 as int, ca.1 as int));
                    } else if i == ed.b as int {
                        assert(acc@[i].0 as int == pre[i].0 + cb.0 && acc@[i].1 as int == pre[i].1
                            + cb.1);
                        assert(f(e as int) == (cb.0 as int, cb.1 as int));
                    } else {
                        assert(acc@[i] == pre[i]);
                        assert(f(e as int) == (0int, 0int));
                    }
                }
            }
        } else {
            proof {
                assert forall|i: int| 0 <= i < ncount implies {
                    let spr = sum_pair(
                        e as int + 1,
                        spring_term(
                            nodes@,
                            edges@,
                            ncount as int,
                            i,
                            spring_constant as int,
                            rest_length as int,
                        ),
                    );
                    &&& (#[trigger] acc@[i]).0 as int == acc0[i].0 + spr.0
                    &&& acc@[i].1 as int == acc0[i].1 + spr.1
                    &&& abs_i(acc@[i].0 as int) <= REP_TOTAL_BOUND as int + (e as int + 1)
                        * SPRING_COMP_BOUND as int
                    &&& abs_i(acc@[i].1 as int) <= REP_TOTAL_BOUND as int + (e as int + 1)
                        * SPRING_COMP_BOUND as int
                } by {
                    let f = spring_term(
                        nodes@,
                        edges@,
                        ncount as int,
                        i,
                        spring_constant as int,
                        rest_length as int,
                    );
                    assert(sum_pair(e as int + 1, f).0 == sum_pair(e as int, f).0 + f(e as int).0);
                    assert(f(e as int) == (0int, 0int));
                }
            }
        }
        e = e + 1;
    }
}

} // verus!
