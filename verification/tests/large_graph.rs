//! Cross-validation at scale: ten thousand pseudo-randomly placed nodes in
//! the fixed domain. The grid-accelerated pipeline completes a full step,
//! and its repulsion sums match the brute-force evaluator exactly on a
//! sampled subset of nodes, the radius being within one cell width and no
//! cell having overflowed its capacity.

use fastgraph::engine::Engine;
use fastgraph::grid::Grid;
use fastgraph::model::{Node, PhysicsParams};
use fastgraph::repulsion::{brute_repulsion_at, grid_repulsion_at};
use fastgraph::{DEFAULT_CELL_CAPACITY, FP_ONE, GRID_CELLS};

fn node_at(x: i64, y: i64) -> Node {
    Node {
        x,
        y,
        vx: 0,
        vy: 0,
        fx: 0,
        fy: 0,
        mass: FP_ONE,
        red: 0,
        green: 0,
        blue: 0,
        alpha: 0,
        size: 0,
    }
}

fn scattered_nodes(count: usize, seed: u64) -> Vec<Node> {
    // A fixed linear congruential generator keeps the placement
    // reproducible across runs.
    let mut state: u64 = seed;
    let mut next = move || {
        state = state
            .wrapping_mul(6364136223846793005)
            .wrapping_add(1442695040888963407);
        state >> 11
    };
    let mut nodes = Vec::with_capacity(count);
    for _ in 0..count {
        let x = (next() % 2_000_000) as i64 - 1_000_000;
        let y = (next() % 2_000_000) as i64 - 1_000_000;
        nodes.push(node_at(x, y));
    }
    nodes
}

#[test]
fn grid_matches_brute_force_on_sampled_nodes() {
    let count: usize = 10_000;
    let nodes = scattered_nodes(count, 0x5eed);
    let strength: i64 = 10_000;
    let radius: i64 = 50_000;

    let grid = Grid::build(&nodes, count, DEFAULT_CELL_CAPACITY);
    // The agreement between the two paths is exact only while no cell
    // overflows its capacity; confirm the placement stayed below it.
    for c in 0..GRID_CELLS {
        assert!(grid.cells[c].occupancy <= DEFAULT_CELL_CAPACITY);
    }

    let mut sample: usize = 1;
    while sample < count {
        let by_grid = grid_repulsion_at(&nodes, &grid, count, sample, strength, radius);
        let by_scan = brute_repulsion_at(&nodes, count, sample, strength, radius);
        assert_eq!(by_grid, by_scan);
        sample += 613;
    }
}

#[test]
fn grid_step_completes_on_ten_thousand_nodes() {
    let count: usize = 10_000;
    let mut engine = Engine::new(true);
    engine.nodes = scattered_nodes(count, 0xfeed);
    engine.step(PhysicsParams {
        delta_time: FP_ONE / 60,
        damping_factor: 950_000,
        spring_constant: 0,
        rest_length: 0,
        repulsion_strength: 10_000,
        repulsion_radius: 50_000,
        node_count: count,
        edge_count: 0,
    });
    assert_eq!(engine.nodes().len(), count);
    // Force accumulators are cleared by the integration phase.
    for n in engine.nodes() {
        assert_eq!((n.fx, n.fy), (0, 0));
    }
}
