//! Uniform grid index over the fixed world domain, and the per-step grid
//! builder. Every position maps to exactly one of the 32 x 32 cells;
//! positions outside the domain are clamped to boundary cells. Each cell
//! records the indices of the nodes that fall in it, up to the configured
//! capacity; nodes beyond a full cell's capacity still count toward its
//! occupancy but are not recorded.

use vstd::prelude::*;

verus! {

use vstd::arithmetic::div_mod::{
    lemma_div_is_ordered,
    lemma_fundamental_div_mod,
    lemma_fundamental_div_mod_converse,
};
use vstd::arithmetic::mul::lemma_mul_inequality;
use crate::math::abs_i;
use crate::model::Node;
use crate::{CELL_WIDTH, GRID_CELLS, GRID_SIZE, WORLD_MIN};

/// Grid coordinate (row or column) of a world coordinate: normalize into
/// cell widths and clamp into the grid, so that even positions far outside
/// the domain land in a boundary cell.
pub open spec fn cell_coord(p: int) -> int {
    let q = (p - WORLD_MIN) / (CELL_WIDTH as int);
    if q < 0 {
        0
    } else if q > GRID_SIZE - 1 {
        GRID_SIZE - 1
    } else {
        q
    }
}

/// Linear cell index of a position: row (from y) times the grid width plus
/// column (from x).
pub open spec fn cell_at(x: int, y: int) -> int {
    cell_coord(y) * (GRID_SIZE as int) + cell_coord(x)
}

/// The cell a node currently falls in.
pub open spec fn node_cell(n: Node) -> int {
    cell_at(n.x as int, n.y as int)
}

/// How many of the first `k` nodes fall in cell `c`.
pub open spec fn cell_count(nodes: Seq<Node>, k: int, c: int) -> int
    decreases k,
{
    if k <= 0 {
        0
    } else {
        cell_count(nodes, k - 1, c) + if node_cell(nodes[k - 1]) == c {
            1int
        } else {
            0int
        }
    }
}

/// The node indices cell `c` records after the first `k` nodes are
/// assigned: those that fall in `c`, in ascending order, cut off once the
/// cell holds `cap` of them.
pub open spec fn cell_list(nodes: Seq<Node>, k: int, c: int, cap: int) -> Seq<usize>
    decreases k,
{
    if k <= 0 {
        Seq::empty()
    } else {
        let s = cell_list(nodes, k - 1, c, cap);
        if node_cell(nodes[k - 1]) == c && s.len() < cap {
            s.push((k - 1) as usize)
        } else {
            s
        }
    }
}

/// Cell coordinates always land inside the grid.
pub proof fn lemma_cell_coord_range(p: int)
    ensures
        0 <= cell_coord(p) < GRID_SIZE,
{
}

/// A linear cell index decomposes uniquely into its row and column.
pub proof fn lemma_cell_at_decompose(x: int, y: int)
    ensures
        0 <= cell_at(x, y) < GRID_CELLS,
        cell_at(x, y) / (GRID_SIZE as int) == cell_coord(y),
        cell_at(x, y) % (GRID_SIZE as int) == cell_coord(x),
{
    lemma_cell_coord_range(x);
    lemma_cell_coord_range(y);
    assert(0 <= cell_coord(y) * (GRID_SIZE as int) + cell_coord(x) < 1024) by (nonlinear_arith)
        requires
            0 <= cell_coord(y) < 32,
            0 <= cell_coord(x) < 32;
    lemma_fundamental_div_mod_converse(cell_at(x, y), GRID_SIZE as int, cell_coord(y), cell_coord(x));
}

/// Two positions whose grid coordinates differ by two or more cells are
/// separated by more than one cell width.
pub proof fn lemma_cell_coord_apart(p: int, q: int)
    requires
        abs_i(cell_coord(p) - cell_coord(q)) >= 2,
    ensures
        abs_i(p - q) > CELL_WIDTH as int,
{
    let w = CELL_WIDTH as int;
    let fp = (p - WORLD_MIN) / w;
    let fq = (q - WORLD_MIN) / w;
    lemma_fundamental_div_mod(p - WORLD_MIN, w);
    lemma_fundamental_div_mod(q - WORLD_MIN, w);
    if cell_coord(p) >= cell_coord(q) + 2 {
        assert(fp >= fq + 2);
        lemma_mul_inequality(fq + 2, fp, w);
    } else {
        assert(fq >= fp + 2);
        lemma_mul_inequality(fp + 2, fq, w);
    }
}

/// A prefix holds no more nodes of a cell than the whole range, and a range
/// of `k` nodes puts at most `k` of them in one cell.
pub proof fn lemma_cell_count_mono(nodes: Seq<Node>, a: int, b: int, c: int)
    requires
        a <= b,
    ensures
        cell_count(nodes, a, c) <= cell_count(nodes, b, c),
        cell_count(nodes, b, c) - cell_count(nodes, a, c) <= b - a,
        0 <= cell_count(nodes, b, c) || b < 0,
    decreases b - a,
{
    if a < b {
        lemma_cell_count_mono(nodes, a, b - 1, c);
    } else {
        lemma_cell_count_nonneg(nodes, b, c);
    }
}

pub proof fn lemma_cell_count_nonneg(nodes: Seq<Node>, k: int, c: int)
    ensures
        k >= 0 ==> 0 <= cell_count(nodes, k, c) <= k,
    decreases k,
{
    if k > 0 {
        lemma_cell_count_nonneg(nodes, k - 1, c);
    }
}

/// If no node between positions `a` and `b` raised cell `c`'s count, none
/// of them falls in cell `c`.
pub proof fn lemma_cell_count_none_between(nodes: Seq<Node>, a: int, b: int, c: int)
    requires
        0 <= a <= b,
        cell_count(nodes, a, c) == cell_count(nodes, b, c),
    ensures
        forall|j: int| a <= j < b ==> node_cell(#[trigger] nodes[j]) != c,
    decreases b - a,
{
    if a < b {
        lemma_cell_count_mono(nodes, a, b - 1, c);
        assert(cell_count(nodes, b, c) == cell_count(nodes, b - 1, c) + if node_cell(nodes[b - 1])
            == c {
            1int
        } else {
            0int
        });
        assert(cell_count(nodes, a, c) == cell_count(nodes, b - 1, c));
        lemma_cell_count_none_between(nodes, a, b - 1, c);
        assert(node_cell(nodes[b - 1]) != c);
    }
}

/// Shape of a cell's recorded list: it holds the first `cap` of the cell's
/// occupants in ascending order, and the entry at rank `m` is preceded by
/// exactly `m` occupants of the same cell.
pub proof fn lemma_cell_list_props(nodes: Seq<Node>, k: int, c: int, cap: int)
    requires
        cap >= 1,
        k <= nodes.len(),
        k <= usize::MAX,
    ensures
        cell_list(nodes, k, c, cap).len() == vstd::math::min(cell_count(nodes, k, c), cap),
        forall|m: int|
            0 <= m < cell_list(nodes, k, c, cap).len() ==> {
                let j = #[trigger] cell_list(nodes, k, c, cap)[m] as int;
                &&& 0 <= j < k
                &&& node_cell(nodes[j]) == c
                &&& cell_count(nodes, j, c) == m
            },
    decreases k,
{
    if k > 0 {
        lemma_cell_list_props(nodes, k - 1, c, cap);
        lemma_cell_count_nonneg(nodes, k - 1, c);
        let prev = cell_list(nodes, k - 1, c, cap);
        let cur = cell_list(nodes, k, c, cap);
        if node_cell(nodes[k - 1]) == c && prev.len() < cap {
            assert(cur == prev.push((k - 1) as usize));
            assert(prev.len() == cell_count(nodes, k - 1, c));
            assert(cur[cur.len() - 1] == (k - 1) as usize);
            assert forall|m: int| 0 <= m < cur.len() implies {
                let j = #[trigger] cur[m] as int;
                &&& 0 <= j < k
                &&& node_cell(nodes[j]) == c
                &&& cell_count(nodes, j, c) == m
            } by {
                if m < prev.len() {
                    assert(cur[m] == prev[m]);
                }
            }
        } else {
            assert(cur == prev);
        }
    }
}

/// One cell of the uniform grid: the indices it recorded this step and how
/// many nodes actually fell in it (which can exceed the recorded number
/// when the cell overflowed its capacity).
pub struct GridCell {
    pub indices: Vec<usize>,
    pub occupancy: usize,
}

/// The step-local spatial index: one cell per grid position, all rebuilt
/// from scratch each step.
pub struct Grid {
    pub cells: Vec<GridCell>,
    pub capacity: usize,
}

/// The grid faithfully indexes the first `count` nodes of `nodes`.
pub open spec fn grid_inv(g: Grid, nodes: Seq<Node>, count: int) -> bool {
    &&& g.cells.len() == GRID_CELLS
    &&& g.capacity >= 1
    &&& forall|c: int|
        0 <= c < GRID_CELLS ==> {
            &&& (#[trigger] g.cells[c]).occupancy == cell_count(nodes, count, c)
            &&& g.cells[c].indices@ == cell_list(nodes, count, c, g.capacity as int)
        }
}

/// Grid coordinate of a world coordinate (row for y, column for x).
pub fn cell_coord_of(p: i64) -> (r: usize)
    ensures
        r as int == cell_coord(p as int),
        r < GRID_SIZE,
{
    let t: i128 = p as i128 - WORLD_MIN as i128;
    if t < 0 {
        proof {
            lemma_div_is_ordered(t as int, -1, CELL_WIDTH as int);
        }
        0
    } else {
        let q: u128 = (t as u128) / (CELL_WIDTH as u128);
        if q >= GRID_SIZE as u128 {
            GRID_SIZE - 1
        } else {
            q as usize
        }
    }
}

/// Linear cell index of a position.
pub fn cell_index(x: i64, y: i64) -> (c: usize)
    ensures
        c as int == cell_at(x as int, y as int),
        c < GRID_CELLS,
{
    let row: usize = cell_coord_of(y);
    let col: usize = cell_coord_of(x);
    row * GRID_SIZE + col
}

impl Grid {
    /// Build the index for the first `count` nodes: clear every cell, then
    /// assign each node to the cell its position falls in, recording its
    /// index only while the cell is below capacity. The clear phase runs to
    /// completion before any assignment.
    pub fn build(nodes: &Vec<Node>, count: usize, capacity: usize) -> (g: Grid)
        requires
            capacity >= 1,
            count <= nodes.len(),
        ensures
            grid_inv(g, nodes@, count as int),
            g.capacity == capacity,
    {
        let mut cells: Vec<GridCell> = Vec::new();
        let mut c: usize = 0;
        while c < GRID_CELLS
            invariant
                c <= GRID_CELLS,
                cells@.len() == c,
                forall|k: int|
                    0 <= k < c ==> (#[trigger] cells@[k]).occupancy == 0
                        && cells@[k].indices@ =~= Seq::<usize>::empty(),
            decreases GRID_CELLS - c,
        {
            cells.push(GridCell { indices: Vec::new(), occupancy: 0 });
            c = c + 1;
        }
        let mut g = Grid { cells, capacity };
        let mut j: usize = 0;
        while j < count
            invariant
                j <= count,
                count <= nodes@.len(),
                g.capacity == capacity,
                capacity >= 1,
                g.cells@.len() == GRID_CELLS,
                forall|ci: int|
                    0 <= ci < GRID_CELLS ==> {
                        &&& (#[trigger] g.cells@[ci]).occupancy == cell_count(nodes@, j as int, ci)
                        &&& g.cells@[ci].indices@ == cell_list(nodes@, j as int, ci, capacity as int)
                    },
            decreases count - j,
        {
            let node = nodes[j];
            let ci: usize = cell_index(node.x, node.y);
            proof {
                lemma_cell_count_nonneg(nodes@, j as int, ci as int);
            }
            if g.cells[ci].indices.len() < capacity {
                g.cells[ci].indices.push(j);
            }
            let occ: usize = g.cells[ci].occupancy;
            g.cells[ci].occupancy = occ + 1;
            j = j + 1;
        }
        g
    }
}

} // verus!
