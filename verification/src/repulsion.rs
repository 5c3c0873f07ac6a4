//! The two repulsion evaluators. The brute-force evaluator scans every
//! other node; the grid-accelerated evaluator scans only the nodes recorded
//! in the 3 x 3 cell neighborhood of the node's own cell. Each returns the
//! exact componentwise sum of the per-pair contributions it considers.

use vstd::prelude::*;

verus! {

use vstd::arithmetic::div_mod::lemma_fundamental_div_mod_converse;
use crate::forces::{
    lemma_repulsion_contrib_bound, repulsion_contrib, repulsion_force, REP_COMP_BOUND,
};
use crate::grid::{
    cell_count, cell_list, grid_inv, lemma_cell_count_mono, lemma_cell_count_none_between,
    lemma_cell_count_nonneg, lemma_cell_list_props, node_cell, Grid, cell_index,
};
use crate::math::abs_i;
use crate::model::{nodes_pos_ok, Node};
use crate::sums::{
    lemma_sum_pair_bound, lemma_sum_pair_equal, lemma_sum_pair_update, lemma_sum_pair_zero,
    sum_pair,
};
use crate::{GRID_SIZE, MAX_NODES, PARAM_LIMIT};

/// Per-index repulsion terms acting on node `i`: node `j` contributes its
/// pairwise repulsion, and `i` itself contributes nothing.
pub open spec fn rep_term(nodes: Seq<Node>, i: int, strength: int, radius: int) -> spec_fn(int) -> (
    int,
    int,
) {
    |j: int|
        if j != i {
            repulsion_contrib(
                nodes[i].x as int,
                nodes[i].y as int,
                nodes[j].x as int,
                nodes[j].y as int,
                strength,
                radius,
            )
        } else {
            (0int, 0int)
        }
}

/// Total repulsion on node `i` over all of the first `count` nodes: what
/// the brute-force (scalar fallback) evaluator computes.
pub open spec fn brute_repulsion(
    nodes: Seq<Node>,
    count: int,
    i: int,
    strength: int,
    radius: int,
) -> (int, int) {
    sum_pair(count, rep_term(nodes, i, strength, radius))
}

/// Node `j` was recorded by its cell: fewer than `cap` earlier nodes fell
/// in the same cell.
pub open spec fn recorded(nodes: Seq<Node>, j: int, cap: int) -> bool {
    cell_count(nodes, j, node_cell(nodes[j])) < cap
}

/// The two linear cell indices lie within one row and one column of each
/// other.
pub open spec fn cells_adjacent(ca: int, cb: int) -> bool {
    &&& abs_i(ca / (GRID_SIZE as int) - cb / (GRID_SIZE as int)) <= 1
    &&& abs_i(ca % (GRID_SIZE as int) - cb % (GRID_SIZE as int)) <= 1
}

/// Per-index terms the grid-accelerated evaluator sums for node `i`: only
/// nodes recorded in a cell adjacent to (or equal to) `i`'s cell
/// contribute.
pub open spec fn rep_term_grid(
    nodes: Seq<Node>,
    i: int,
    cap: int,
    strength: int,
    radius: int,
) -> spec_fn(int) -> (int, int) {
    |j: int|
        if j != i && recorded(nodes, j, cap) && cells_adjacent(
            node_cell(nodes[i]),
            node_cell(nodes[j]),
        ) {
            repulsion_contrib(
                nodes[i].x as int,
                nodes[i].y as int,
                nodes[j].x as int,
                nodes[j].y as int,
                strength,
                radius,
            )
        } else {
            (0int, 0int)
        }
}

/// Total repulsion the grid-accelerated evaluator accumulates for node `i`.
pub open spec fn grid_repulsion(
    nodes: Seq<Node>,
    count: int,
    i: int,
    cap: int,
    strength: int,
    radius: int,
) -> (int, int) {
    sum_pair(count, rep_term_grid(nodes, i, cap, strength, radius))
}

/// Row of the `t`-th neighborhood cell of cell `ci` (row-major over the
/// 3 x 3 block centered on `ci`, `0 <= t < 9`).
pub open spec fn nbhd_row(ci: int, t: int) -> int {
    ci / (GRID_SIZE as int) - 1 + t / 3
}

/// Column of the `t`-th neighborhood cell of cell `ci`.
pub open spec fn nbhd_col(ci: int, t: int) -> int {
    ci % (GRID_SIZE as int) - 1 + t % 3
}

/// The `t`-th neighborhood cell lies inside the grid.
pub open spec fn nbhd_valid(ci: int, t: int) -> bool {
    &&& 0 <= nbhd_row(ci, t) < GRID_SIZE as int
    &&& 0 <= nbhd_col(ci, t) < GRID_SIZE as int
}

/// Linear index of the `t`-th neighborhood cell.
pub open spec fn nbhd_cell(ci: int, t: int) -> int {
    nbhd_row(ci, t) * (GRID_SIZE as int) + nbhd_col(ci, t)
}

/// Cell `c` is one of the in-grid neighborhood cells already scanned
/// before step `t`.
pub open spec fn seen_cell(ci: int, t: int, c: int) -> bool {
    exists|s: int| 0 <= s < t && #[trigger] nbhd_valid(ci, s) && c == nbhd_cell(ci, s)
}

/// Terms accumulated by the grid scan for node `i` after `t` neighborhood
/// cells are done and, inside cell `t`, all recorded indices below `bnd`
/// are consumed.
pub open spec fn rep_term_scan(
    nodes: Seq<Node>,
    i: int,
    cap: int,
    strength: int,
    radius: int,
    t: int,
    bnd: int,
) -> spec_fn(int) -> (int, int) {
    |j: int|
        if j != i && recorded(nodes, j, cap) && {
            ||| seen_cell(node_cell(nodes[i]), t, node_cell(nodes[j]))
            ||| (nbhd_valid(node_cell(nodes[i]), t) && node_cell(nodes[j]) == nbhd_cell(
                node_cell(nodes[i]),
                t,
            ) && j < bnd)
        } {
            repulsion_contrib(
                nodes[i].x as int,
                nodes[i].y as int,
                nodes[j].x as int,
                nodes[j].y as int,
                strength,
                radius,
            )
        } else {
            (0int, 0int)
        }
}

/// Index below which cell `c`'s recorded list is consumed once its first
/// `m` entries are: the next recorded index, or `count` when none is left.
pub open spec fn scan_bound(nodes: Seq<Node>, count: int, c: int, cap: int, m: int) -> int {
    let lst = cell_list(nodes, count, c, cap);
    if m < lst.len() {
        lst[m] as int
    } else {
        count
    }
}

/// A row and column inside the grid are recovered uniquely from the linear
/// cell index.
proof fn lemma_rowcol(r: int, c: int)
    requires
        0 <= r < GRID_SIZE as int,
        0 <= c < GRID_SIZE as int,
    ensures
        (r * (GRID_SIZE as int) + c) / (GRID_SIZE as int) == r,
        (r * (GRID_SIZE as int) + c) % (GRID_SIZE as int) == c,
        0 <= r * (GRID_SIZE as int) + c < 1024,
{
    assert(0 <= r * 32 + c < 1024) by (nonlinear_arith)
        requires 0 <= r < 32 && 0 <= c < 32;
    lemma_fundamental_div_mod_converse(r * (GRID_SIZE as int) + c, GRID_SIZE as int, r, c);
}

/// Distinct steps of the neighborhood scan visit distinct cells.
proof fn lemma_nbhd_distinct(ci: int, s1: int, s2: int)
    requires
        0 <= s1 < 9,
        0 <= s2 < 9,
        s1 != s2,
        nbhd_valid(ci, s1),
        nbhd_valid(ci, s2),
    ensures
        nbhd_cell(ci, s1) != nbhd_cell(ci, s2),
{
    if nbhd_cell(ci, s1) == nbhd_cell(ci, s2) {
        lemma_rowcol(nbhd_row(ci, s1), nbhd_col(ci, s1));
        lemma_rowcol(nbhd_row(ci, s2), nbhd_col(ci, s2));
        assert(s1 / 3 == s2 / 3 && s1 % 3 == s2 % 3);
        lemma_fundamental_div_mod_converse(s1, 3, s1 / 3, s1 % 3);
        lemma_fundamental_div_mod_converse(s2, 3, s1 / 3, s1 % 3);
    }
}

/// A cell is adjacent to `ci` exactly when the 3 x 3 scan around `ci`
/// visits it; both arguments are linear indices of in-grid cells.
proof fn lemma_seen_is_adjacent(ci: int, cj: int)
    requires
        0 <= ci / (GRID_SIZE as int) < GRID_SIZE as int,
        0 <= ci % (GRID_SIZE as int) < GRID_SIZE as int,
        0 <= cj / (GRID_SIZE as int) < GRID_SIZE as int,
        0 <= cj % (GRID_SIZE as int) < GRID_SIZE as int,
    ensures
        seen_cell(ci, 9, cj) <==> cells_adjacent(ci, cj),
{
    let g = GRID_SIZE as int;
    let ri = ci / g;
    let qi = ci % g;
    let rj = cj / g;
    let qj = cj % g;
    if seen_cell(ci, 9, cj) {
        let s = choose|s: int| 0 <= s < 9 && #[trigger] nbhd_valid(ci, s) && cj == nbhd_cell(ci, s);
        lemma_rowcol(nbhd_row(ci, s), nbhd_col(ci, s));
        assert(0 <= s / 3 <= 2 && 0 <= s % 3 <= 2);
    }
    if cells_adjacent(ci, cj) {
        let s = (rj - ri + 1) * 3 + (qj - qi + 1);
        assert((rj - ri + 1) * 3 == rj * 3 - ri * 3 + 3) by (nonlinear_arith);
        lemma_fundamental_div_mod_converse(s, 3, rj - ri + 1, qj - qi + 1);
        assert(nbhd_row(ci, s) == rj && nbhd_col(ci, s) == qj);
        assert(nbhd_valid(ci, s));
        assert(cj == rj * g + qj) by {
            vstd::arithmetic::div_mod::lemma_fundamental_div_mod(cj, g);
        }
        assert(seen_cell(ci, 9, cj));
    }
}

/// Brute-force repulsion on node `i`: scan every other node among the
/// first `count` and sum the pairwise contributions.
pub fn brute_repulsion_at(
    nodes: &Vec<Node>,
    count: usize,
    i: usize,
    strength: i64,
    radius: i64,
) -> (r: (i128, i128))
    requires
        count <= nodes@.len(),
        count <= MAX_NODES,
        i < count,
        nodes_pos_ok(nodes@, count as int),
        abs_i(strength as int) <= PARAM_LIMIT as int,
    ensures
        r.0 as int == brute_repulsion(
            nodes@,
            count as int,
            i as int,
            strength as int,
            radius as int,
        ).0,
        r.1 as int == brute_repulsion(
            nodes@,
            count as int,
            i as int,
            strength as int,
            radius as int,
        ).1,
        abs_i(r.0 as int) <= count as int * REP_COMP_BOUND as int,
        abs_i(r.1 as int) <= count as int * REP_COMP_BOUND as int,
{
    let ghost f = rep_term(nodes@, i as int, strength as int, radius as int);
    let node_i: Node = nodes[i];
    let mut ax: i128 = 0;
    let mut ay: i128 = 0;
    let mut j: usize = 0;
    while j < count
        invariant
            j <= count,
            count <= nodes@.len(),
            count <= MAX_NODES,
            i < count,
            node_i == nodes@[i as int],
            nodes_pos_ok(nodes@, count as int),
            abs_i(strength as int) <= PARAM_LIMIT as int,
            f == rep_term(nodes@, i as int, strength as int, radius as int),
            ax as int == sum_pair(j as int, f).0,
            ay as int == sum_pair(j as int, f).1,
            abs_i(ax as int) <= j as int * REP_COMP_BOUND as int,
            abs_i(ay as int) <= j as int * REP_COMP_BOUND as int,
        decreases count - j,
    {
        if j != i {
            let c: (i128, i128) = repulsion_force(&node_i, &nodes[j], strength, radius);
            proof {
                assert(f(j as int) == (c.0 as int, c.1 as int));
                assert((j + 1) as int * REP_COMP_BOUND as int == j as int * REP_COMP_BOUND as int
                    + REP_COMP_BOUND as int) by (nonlinear_arith);
            }
            ax = ax + c.0;
            ay = ay + c.1;
        } else {
            proof {
                assert(f(j as int) == (0int, 0int));
                assert((j + 1) as int * REP_COMP_BOUND as int >= j as int * REP_COMP_BOUND as int)
                    by (nonlinear_arith);
            }
        }
        j = j + 1;
    }
    (ax, ay)
}

/// Grid-accelerated repulsion on node `i`: scan the recorded occupants of
/// the 3 x 3 cell neighborhood of `i`'s cell and sum their contributions.
pub fn grid_repulsion_at(
    nodes: &Vec<Node>,
    g: &Grid,
    count: usize,
    i: usize,
    strength: i64,
    radius: i64,
) -> (r: (i128, i128))
    requires
        count <= nodes@.len(),
        count <= MAX_NODES,
        i < count,
        grid_inv(*g, nodes@, count as int),
        nodes_pos_ok(nodes@, count as int),
        abs_i(strength as int) <= PARAM_LIMIT as int,
    ensures
        r.0 as int == grid_repulsion(
            nodes@,
            count as int,
            i as int,
            g.capacity as int,
            strength as int,
            radius as int,
        ).0,
        r.1 as int == grid_repulsion(
            nodes@,
            count as int,
            i as int,
            g.capacity as int,
            strength as int,
            radius as int,
        ).1,
        abs_i(r.0 as int) <= count as int * REP_COMP_BOUND as int,
        abs_i(r.1 as int) <= count as int * REP_COMP_BOUND as int,
{
    let ghost ns = nodes@;
    let ghost cnt = count as int;
    let ghost ii = i as int;
    let ghost cap = g.capacity as int;
    let ghost st = strength as int;
    let ghost ra = radius as int;
    let node_i: Node = nodes[i];
    let ci: usize = cell_index(node_i.x, node_i.y);
    proof {
        crate::grid::lemma_cell_at_decompose(node_i.x as int, node_i.y as int);
    }
    let ghost cii = ci as int;
    let row_i: usize = ci / GRID_SIZE;
    let col_i: usize = ci % GRID_SIZE;
    let mut ax: i128 = 0;
    let mut ay: i128 = 0;
    let mut t: usize = 0;
    proof {
        lemma_sum_pair_zero(cnt, rep_term_scan(ns, ii, cap, st, ra, 0, 0));
        assert forall|j: int| 0 <= j < cnt implies #[trigger] rep_term_scan(
            ns,
            ii,
            cap,
            st,
            ra,
            0,
            0,
        )(j) == (0int, 0int) by {}
    }
    while t < 9
        invariant
            t <= 9,
            count <= nodes@.len(),
            count <= MAX_NODES,
            i < count,
            ns == nodes@,
            cnt == count as int,
            ii == i as int,
            cap == g.capacity as int,
            st == strength as int,
            ra == radius as int,
            node_i == ns[ii],
            cii == node_cell(ns[ii]),
            cii == ci as int,
            row_i as int == cii / (GRID_SIZE as int),
            col_i as int == cii % (GRID_SIZE as int),
            row_i < GRID_SIZE,
            col_i < GRID_SIZE,
            grid_inv(*g, ns, cnt),
            nodes_pos_ok(ns, cnt),
            abs_i(st) <= PARAM_LIMIT as int,
            ax as int == sum_pair(cnt, rep_term_scan(ns, ii, cap, st, ra, t as int, 0)).0,
            ay as int == sum_pair(cnt, rep_term_scan(ns, ii, cap, st, ra, t as int, 0)).1,
            abs_i(ax as int) <= cnt * REP_COMP_BOUND as int,
            abs_i(ay as int) <= cnt * REP_COMP_BOUND as int,
        decreases 9 - t,
    {
        let ghost f_enter = rep_term_scan(ns, ii, cap, st, ra, t as int, 0);
        let tr: usize = t / 3;
        let tc: usize = t % 3;
        if row_i + tr >= 1 && row_i + tr <= GRID_SIZE && col_i + tc >= 1 && col_i + tc
            <= GRID_SIZE {
            let cr: usize = row_i + tr - 1;
            let cc: usize = col_i + tc - 1;
            let cidx: usize = cr * GRID_SIZE + cc;
            proof {
                assert(nbhd_valid(cii, t as int));
                lemma_rowcol(cr as int, cc as int);
                assert(cidx as int == nbhd_cell(cii, t as int));
            }
            let ghost c = cidx as int;
            let ghost lst = cell_list(ns, cnt, c, cap);
            let len: usize = g.cells[cidx].indices.len();
            proof {
                lemma_cell_list_props(ns, cnt, c, cap);
                lemma_cell_count_nonneg(ns, cnt, c);
                assert(g.cells[c].indices@ == lst);
                assert(len as int == lst.len());
                // Entering the cell: nothing of it is consumed yet, so the
                // scan term with bound scan_bound(.., 0) equals the term
                // with bound 0.
                let b0 = scan_bound(ns, cnt, c, cap, 0);
                if lst.len() > 0 {
                    assert(cell_count(ns, lst[0] as int, c) == 0);
                    lemma_cell_count_none_between(ns, 0, lst[0] as int, c);
                } else {
                    if cell_count(ns, cnt, c) > 0 {
                        assert(lst.len() == vstd::math::min(cell_count(ns, cnt, c), cap));
                        assert(false);
                    }
                    lemma_cell_count_none_between(ns, 0, cnt, c);
                }
                assert forall|j: int| 0 <= j < cnt implies #[trigger] f_enter(j) == rep_term_scan(
                    ns,
                    ii,
                    cap,
                    st,
                    ra,
                    t as int,
                    b0,
                )(j) by {
                    if node_cell(ns[j]) == c && j < b0 {
                        assert(false);
                    }
                }
                lemma_sum_pair_equal(
                    cnt,
                    f_enter,
                    rep_term_scan(ns, ii, cap, st, ra, t as int, b0),
                );
            }
            let mut m: usize = 0;
            while m < len
                invariant
                    m <= len,
                    count <= nodes@.len(),
                    count <= MAX_NODES,
                    i < count,
                    ns == nodes@,
                    cnt == count as int,
                    ii == i as int,
                    cap == g.capacity as int,
                    st == strength as int,
                    ra == radius as int,
                    node_i == ns[ii],
                    cii == node_cell(ns[ii]),
                    t < 9,
                    nbhd_valid(cii, t as int),
                    c == nbhd_cell(cii, t as int),
                    cidx as int == c,
                    cidx < crate::GRID_CELLS,
                    lst == cell_list(ns, cnt, c, cap),
                    len as int == lst.len(),
                    lst.len() <= cap,
                    grid_inv(*g, ns, cnt),
                    nodes_pos_ok(ns, cnt),
                    abs_i(st) <= PARAM_LIMIT as int,
                    ax as int == sum_pair(
                        cnt,
                        rep_term_scan(ns, ii, cap, st, ra, t as int, scan_bound(ns, cnt, c, cap, m as int)),
                    ).0,
                    ay as int == sum_pair(
                        cnt,
                        rep_term_scan(ns, ii, cap, st, ra, t as int, scan_bound(ns, cnt, c, cap, m as int)),
                    ).1,
                    abs_i(ax as int) <= cnt * REP_COMP_BOUND as int,
                    abs_i(ay as int) <= cnt * REP_COMP_BOUND as int,
                decreases len - m,
            {
                let j0: usize = g.cells[cidx].indices[m];
                proof {
                    lemma_cell_list_props(ns, cnt, c, cap);
                    assert(j0 as int == lst[m as int] as int);
                    assert((j0 as int) < cnt && node_cell(ns[j0 as int]) == c && cell_count(
                        ns,
                        j0 as int,
                        c,
                    ) == m as int);
                }
                let ghost bm = scan_bound(ns, cnt, c, cap, m as int);
                let ghost bm1 = scan_bound(ns, cnt, c, cap, m as int + 1);
                let ghost f_old = rep_term_scan(ns, ii, cap, st, ra, t as int, bm);
                let ghost f_new = rep_term_scan(ns, ii, cap, st, ra, t as int, bm1);
                proof {
                    // The old term at j0 is zero: j0 is not below its own
                    // bound, and its cell was not visited before step t.
                    assert(bm == j0 as int);
                    if seen_cell(cii, t as int, c) {
                        let s = choose|s: int|
                            0 <= s < t as int && #[trigger] nbhd_valid(cii, s) && c == nbhd_cell(
                                cii,
                                s,
                            );
                        lemma_nbhd_distinct(cii, s, t as int);
                        assert(false);
                    }
                    assert(f_old(j0 as int) == (0int, 0int));
                    // No recorded occupant of the cell lies strictly
                    // between j0 and the next bound.
                    assert(cell_count(ns, j0 as int + 1, c) == m as int + 1);
                    if m as int + 1 < lst.len() {
                        assert(bm1 == lst[m as int + 1] as int);
                        assert(cell_count(ns, bm1, c) == m as int + 1);
                        if bm1 <= j0 as int {
                            lemma_cell_count_mono(ns, bm1, j0 as int, c);
                            assert(false);
                        }
                        lemma_cell_count_none_between(ns, j0 as int + 1, bm1, c);
                    } else {
                        assert(bm1 == cnt);
                        if lst.len() < cap {
                            assert(lst.len() == cell_count(ns, cnt, c));
                            lemma_cell_count_none_between(ns, j0 as int + 1, cnt, c);
                        }
                    }
                    assert forall|j: int| 0 <= j < cnt && j != j0 as int implies #[trigger] f_old(
                        j,
                    ) == f_new(j) by {
                        if node_cell(ns[j]) == c && recorded(ns, j, cap) && j < bm1 && !(j < bm) {
                            if m as int + 1 < lst.len() || lst.len() < cap {
                                assert(node_cell(ns[j]) != c);
                            } else {
                                lemma_cell_count_mono(ns, j0 as int + 1, j, c);
                                assert(cell_count(ns, j, c) >= cap);
                                assert(!recorded(ns, j, cap));
                            }
                            assert(false);
                        }
                    }
                    lemma_sum_pair_update(cnt, f_old, f_new, j0 as int);
                    // The new term at j0 is its pairwise contribution
                    // (or zero when j0 is i itself).
                    assert((j0 as int) < bm1);
                    assert(recorded(ns, j0 as int, cap));
                }
                if j0 != i {
                    let cxy: (i128, i128) = repulsion_force(&node_i, &nodes[j0], strength, radius);
                    proof {
                        assert(f_new(j0 as int) == (cxy.0 as int, cxy.1 as int));
                        assert forall|j: int| 0 <= j < cnt implies abs_i(
                            (#[trigger] f_new(j)).0,
                        ) <= REP_COMP_BOUND as int && abs_i(f_new(j).1) <= REP_COMP_BOUND as int by {
                            lemma_repulsion_contrib_bound(
                                ns[ii].x as int,
                                ns[ii].y as int,
                                ns[j].x as int,
                                ns[j].y as int,
                                st,
                                ra,
                            );
                        }
                        lemma_sum_pair_bound(cnt, f_new, REP_COMP_BOUND as int);
                    }
                    ax = ax + cxy.0;
                    ay = ay + cxy.1;
                } else {
                    proof {
                        assert(f_new(j0 as int) == (0int, 0int));
                    }
                }
                m = m + 1;
            }
            proof {
                // Leaving the cell: its whole recorded list is consumed, so
                // the cell counts as seen from step t + 1 on.
                let f_done = rep_term_scan(ns, ii, cap, st, ra, t as int, cnt);
                let f_next = rep_term_scan(ns, ii, cap, st, ra, t as int + 1, 0);
                assert(scan_bound(ns, cnt, c, cap, len as int) == cnt);
                assert forall|j: int| 0 <= j < cnt implies #[trigger] f_done(j) == f_next(j) by {
                    let cj = node_cell(ns[j]);
                    if seen_cell(cii, t as int, cj) {
                        let s = choose|s: int|
                            0 <= s < t as int && #[trigger] nbhd_valid(cii, s) && cj == nbhd_cell(
                                cii,
                                s,
                            );
                        assert(seen_cell(cii, t as int + 1, cj));
                    }
                    if cj == c {
                        assert(seen_cell(cii, t as int + 1, cj));
                    }
                    if seen_cell(cii, t as int + 1, cj) {
                        let s = choose|s: int|
                            0 <= s < t as int + 1 && #[trigger] nbhd_valid(cii, s) && cj
                                == nbhd_cell(cii, s);
                        if s < t as int {
                            assert(seen_cell(cii, t as int, cj));
                        } else {
                            assert(cj == c);
                        }
                    }
                }
                lemma_sum_pair_equal(cnt, f_done, f_next);
            }
        } else {
            proof {
                // The step's cell lies outside the grid: no node falls in
                // it, and the scan state does not change.
                let f_next = rep_term_scan(ns, ii, cap, st, ra, t as int + 1, 0);
                assert(!nbhd_valid(cii, t as int));
                assert forall|j: int| 0 <= j < cnt implies #[trigger] f_enter(j) == f_next(j) by {
                    let cj = node_cell(ns[j]);
                    if seen_cell(cii, t as int, cj) {
                        let s = choose|s: int|
                            0 <= s < t as int && #[trigger] nbhd_valid(cii, s) && cj == nbhd_cell(
                                cii,
                                s,
                            );
                        assert(seen_cell(cii, t as int + 1, cj));
                    }
                    if seen_cell(cii, t as int + 1, cj) {
                        let s = choose|s: int|
                            0 <= s < t as int + 1 && #[trigger] nbhd_valid(cii, s) && cj
                                == nbhd_cell(cii, s);
                        assert(s < t as int);
                        assert(seen_cell(cii, t as int, cj));
                    }
                }
                lemma_sum_pair_equal(cnt, f_enter, f_next);
            }
        }
        t = t + 1;
    }
    proof {
        // After all nine steps the scanned cells are exactly the adjacent
        // ones, so the scan sum is the grid-evaluator sum.
        let f_end = rep_term_scan(ns, ii, cap, st, ra, 9, 0);
        let f_grid = rep_term_grid(ns, ii, cap, st, ra);
        assert forall|j: int| 0 <= j < cnt implies #[trigger] f_end(j) == f_grid(j) by {
            let cj = node_cell(ns[j]);
            crate::grid::lemma_cell_at_decompose(ns[j].x as int, ns[j].y as int);
            crate::grid::lemma_cell_at_decompose(ns[ii].x as int, ns[ii].y as int);
            lemma_rowcol(crate::grid::cell_coord(ns[j].y as int), crate::grid::cell_coord(ns[j].x as int));
            lemma_rowcol(crate::grid::cell_coord(ns[ii].y as int), crate::grid::cell_coord(ns[ii].x as int));
            lemma_seen_is_adjacent(cii, cj);
        }
        lemma_sum_pair_equal(cnt, f_end, f_grid);
    }
    (ax, ay)
}

} // verus!
