//! Unit tests for the fixed-point arithmetic helpers and the uniform grid.

use fastgraph::grid::{cell_coord_of, cell_index, Grid};
use fastgraph::math::{isqrt_u128, mul_div_trunc, sat_i64_of_i128};
use fastgraph::model::Node;
use fastgraph::{FP_ONE, GRID_SIZE, WORLD_MAX, WORLD_MIN};

fn node_at(x: i64, y: i64) -> Node {
    Node {
        x,
        y,
        vx: 0,
        vy: 0,
        fx: 0,
        fy: 0,
        mass: FP_ONE,
        red: 0,
        green: 0,
        blue: 0,
        alpha: 0,
        size: 0,
    }
}

#[test]
fn isqrt_small_values() {
    assert_eq!(isqrt_u128(0), 0);
    assert_eq!(isqrt_u128(1), 1);
    assert_eq!(isqrt_u128(3), 1);
    assert_eq!(isqrt_u128(4), 2);
    assert_eq!(isqrt_u128(15), 3);
    assert_eq!(isqrt_u128(16), 4);
}

#[test]
fn isqrt_large_values() {
    assert_eq!(isqrt_u128(1_000_000_000_000_000_000_000_000), 1_000_000_000_000);
    assert_eq!(isqrt_u128(u128::MAX), 0xffff_ffff_ffff_ffff);
    let r = isqrt_u128(2_000_000_000_000_000_000_000_000);
    assert!(r as u128 * r as u128 <= 2_000_000_000_000_000_000_000_000);
    assert!((r as u128 + 1) * (r as u128 + 1) > 2_000_000_000_000_000_000_000_000);
}

#[test]
fn mul_div_truncates_toward_zero() {
    assert_eq!(mul_div_trunc(7, 3, 2), 10);
    assert_eq!(mul_div_trunc(-7, 3, 2), -10);
    assert_eq!(mul_div_trunc(7, -3, 2), -10);
    assert_eq!(mul_div_trunc(-7, -3, 2), 10);
    assert_eq!(mul_div_trunc(0, 12345, 9), 0);
    assert_eq!(mul_div_trunc(5, FP_ONE as i128, FP_ONE as i128), 5);
}

#[test]
fn saturation_to_i64() {
    assert_eq!(sat_i64_of_i128(0), 0);
    assert_eq!(sat_i64_of_i128(i64::MAX as i128), i64::MAX);
    assert_eq!(sat_i64_of_i128(i64::MAX as i128 + 1), i64::MAX);
    assert_eq!(sat_i64_of_i128(i64::MIN as i128), i64::MIN);
    assert_eq!(sat_i64_of_i128(i64::MIN as i128 - 1), i64::MIN);
}

#[test]
fn cell_coord_clamps_into_domain() {
    // The domain's lower edge is the first cell; the center of the domain
    // is the middle cell; positions at or past the upper edge clamp to the
    // last cell.
    assert_eq!(cell_coord_of(WORLD_MIN), 0);
    assert_eq!(cell_coord_of(0), 16);
    assert_eq!(cell_coord_of(WORLD_MAX - 1), 31);
    assert_eq!(cell_coord_of(WORLD_MAX), 31);
    assert_eq!(cell_coord_of(-5_000_000), 0);
    assert_eq!(cell_coord_of(500_000_000_000), 31);
}

#[test]
fn cell_index_is_row_major() {
    // Row comes from y, column from x.
    assert_eq!(cell_index(0, WORLD_MIN), 16);
    assert_eq!(cell_index(WORLD_MIN, 0), 16 * GRID_SIZE);
    assert_eq!(cell_index(WORLD_MIN, WORLD_MIN), 0);
    assert_eq!(cell_index(WORLD_MAX, WORLD_MAX), 1023);
}

#[test]
fn grid_build_records_up_to_capacity() {
    // Three nodes in one cell with capacity two: the occupancy counts all
    // three, the recorded list keeps the first two in arrival order.
    let nodes = vec![node_at(0, 0), node_at(100, 0), node_at(0, 100), node_at(WORLD_MIN, WORLD_MIN)];
    let g = Grid::build(&nodes, 4, 2);
    let c = cell_index(0, 0);
    assert_eq!(g.cells[c].occupancy, 3);
    assert_eq!(g.cells[c].indices, vec![0, 1]);
    assert_eq!(g.cells[0].occupancy, 1);
    assert_eq!(g.cells[0].indices, vec![3]);
    assert_eq!(g.cells[1].occupancy, 0);
    assert_eq!(g.cells[1].indices.len(), 0);
}

#[test]
fn grid_build_honors_count_argument() {
    // Only the first `count` nodes are assigned.
    let nodes = vec![node_at(0, 0), node_at(0, 0), node_at(0, 0)];
    let g = Grid::build(&nodes, 1, 32);
    let c = cell_index(0, 0);
    assert_eq!(g.cells[c].occupancy, 1);
    assert_eq!(g.cells[c].indices, vec![0]);
}
