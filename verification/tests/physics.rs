//! Scenario tests for the physics pipeline: force laws, both repulsion
//! paths, the integrator and the orchestrator.

use fastgraph::engine::Engine;
use fastgraph::forces::{repulsion_force, spring_force};
use fastgraph::grid::Grid;
use fastgraph::model::{Edge, Node, NodeData, PhysicsParams};
use fastgraph::repulsion::{brute_repulsion_at, grid_repulsion_at};
use fastgraph::{CELL_WIDTH, FP_ONE, MAX_NODES};

fn node_at(x: i64, y: i64) -> Node {
    Node {
        x,
        y,
        vx: 0,
        vy: 0,
        fx: 0,
        fy: 0,
        mass: FP_ONE,
        red: 0,
        green: 0,
        blue: 0,
        alpha: 0,
        size: 0,
    }
}

fn moving_node(x: i64, y: i64, vx: i64, vy: i64) -> Node {
    Node { vx, vy, ..node_at(x, y) }
}

fn data_at(x: i64, y: i64) -> NodeData {
    NodeData { x, y, red: 0, green: 0, blue: 0, alpha: FP_ONE, size: FP_ONE }
}

fn plain_edge(a: usize, b: usize) -> Edge {
    Edge { a, b, red: 0, green: 0, blue: 0, alpha: FP_ONE, width: FP_ONE }
}

fn params(
    delta_time: i64,
    damping_factor: i64,
    spring_constant: i64,
    rest_length: i64,
    repulsion_strength: i64,
    repulsion_radius: i64,
    node_count: usize,
    edge_count: usize,
) -> PhysicsParams {
    PhysicsParams {
        delta_time,
        damping_factor,
        spring_constant,
        rest_length,
        repulsion_strength,
        repulsion_radius,
        node_count,
        edge_count,
    }
}

/// One node drifting inertially: damping one and no forces leave the
/// velocity unchanged and advance the position by v * dt.
#[test]
fn single_node_inertial_drift() {
    for accelerated in [false, true] {
        let mut engine = Engine::new(accelerated);
        engine.nodes = vec![moving_node(0, 0, FP_ONE, 0)];
        engine.step(params(FP_ONE, FP_ONE, 0, 0, 0, 0, 1, 0));
        let n = &engine.nodes()[0];
        assert_eq!((n.x, n.y), (FP_ONE, 0));
        assert_eq!((n.vx, n.vy), (FP_ONE, 0));
        assert_eq!((n.fx, n.fy), (0, 0));
    }
}

/// Inertial drift over several nodes with a doubled time step.
#[test]
fn inertial_drift_scales_with_delta_time() {
    for accelerated in [false, true] {
        let mut engine = Engine::new(accelerated);
        engine.nodes = vec![
            moving_node(0, 0, 250_000, -125_000),
            moving_node(FP_ONE, -FP_ONE, -1_000, 2_000),
        ];
        engine.step(params(2 * FP_ONE, FP_ONE, 0, 0, 0, 0, 2, 0));
        assert_eq!((engine.nodes()[0].x, engine.nodes()[0].y), (500_000, -250_000));
        assert_eq!((engine.nodes()[0].vx, engine.nodes()[0].vy), (250_000, -125_000));
        assert_eq!((engine.nodes()[1].x, engine.nodes()[1].y), (FP_ONE - 2_000, -FP_ONE + 4_000));
    }
}

/// Two nodes one world unit apart with unit repulsion strength receive
/// equal-magnitude, opposite forces along the x axis.
#[test]
fn two_nodes_equal_opposite_repulsion() {
    let a = node_at(0, 0);
    let b = node_at(FP_ONE, 0);
    let on_a = repulsion_force(&a, &b, FP_ONE, 2 * FP_ONE);
    let on_b = repulsion_force(&b, &a, FP_ONE, 2 * FP_ONE);
    assert_eq!(on_a, (-(FP_ONE as i128), 0));
    assert_eq!(on_b, (FP_ONE as i128, 0));

    // The scalar path applies those forces in full.
    let mut engine = Engine::new(false);
    engine.nodes = vec![node_at(0, 0), node_at(FP_ONE, 0)];
    engine.step(params(FP_ONE, FP_ONE, 0, 0, FP_ONE, 2 * FP_ONE, 2, 0));
    let v0 = (engine.nodes()[0].vx, engine.nodes()[0].vy);
    let v1 = (engine.nodes()[1].vx, engine.nodes()[1].vy);
    assert_eq!(v0, (-FP_ONE, 0));
    assert_eq!(v1, (FP_ONE, 0));
    assert_eq!((engine.nodes()[0].x, engine.nodes()[1].x), (-FP_ONE, 2 * FP_ONE));

    // On the accelerated path this pair spans cells well beyond the 3 x 3
    // neighborhood (the radius exceeds one cell width), so the grid sees no
    // repulsion for it; the increments stay equal and opposite regardless.
    let mut fast = Engine::new(true);
    fast.nodes = vec![node_at(0, 0), node_at(FP_ONE, 0)];
    fast.step(params(FP_ONE, FP_ONE, 0, 0, FP_ONE, 2 * FP_ONE, 2, 0));
    let f0 = (fast.nodes()[0].vx, fast.nodes()[0].vy);
    let f1 = (fast.nodes()[1].vx, fast.nodes()[1].vy);
    assert_eq!(f0.0, -f1.0);
    assert_eq!((f0.1, f1.1), (0, 0));
}

/// Pairs farther apart than the repulsion radius contribute exactly zero
/// on both evaluation paths.
#[test]
fn repulsion_is_zero_beyond_radius() {
    let a = node_at(0, 0);
    let b = node_at(FP_ONE, 0);
    assert_eq!(repulsion_force(&a, &b, FP_ONE, 500_000), (0, 0));

    let nodes = vec![node_at(0, 0), node_at(FP_ONE, 0)];
    let grid = Grid::build(&nodes, 2, 32);
    assert_eq!(brute_repulsion_at(&nodes, 2, 0, FP_ONE, 500_000), (0, 0));
    assert_eq!(grid_repulsion_at(&nodes, &grid, 2, 0, FP_ONE, 500_000), (0, 0));
}

/// Coincident nodes: zero separation clamps every force to zero, so the
/// step is well defined and changes nothing.
#[test]
fn coincident_nodes_produce_no_force() {
    let a = node_at(123, 456);
    let b = node_at(123, 456);
    assert_eq!(repulsion_force(&a, &b, 1_000_000_000_000, FP_ONE), (0, 0));
    assert_eq!(spring_force(&a, &b, 1_000_000_000_000, FP_ONE), (0, 0));

    for accelerated in [false, true] {
        let mut engine = Engine::new(accelerated);
        engine.nodes = vec![node_at(123, 456), node_at(123, 456)];
        engine.edges = vec![plain_edge(0, 1)];
        engine.step(params(FP_ONE, FP_ONE, FP_ONE, FP_ONE, FP_ONE, 2 * FP_ONE, 2, 1));
        assert_eq!((engine.nodes()[0].x, engine.nodes()[0].y), (123, 456));
        assert_eq!((engine.nodes()[1].x, engine.nodes()[1].y), (123, 456));
        assert_eq!((engine.nodes()[0].vx, engine.nodes()[0].vy), (0, 0));
    }
}

/// A stretched spring pulls both endpoints together by the spring law.
#[test]
fn spring_pulls_toward_rest_length() {
    let a = node_at(0, 0);
    let b = node_at(2 * FP_ONE, 0);
    // magnitude = k * (d - rest) = 1.0 * 1.0; direction from a toward b.
    assert_eq!(spring_force(&a, &b, FP_ONE, FP_ONE), (FP_ONE as i128, 0));
    assert_eq!(spring_force(&b, &a, FP_ONE, FP_ONE), (-(FP_ONE as i128), 0));

    for accelerated in [false, true] {
        let mut engine = Engine::new(accelerated);
        engine.nodes = vec![node_at(0, 0), node_at(2 * FP_ONE, 0)];
        engine.edges = vec![plain_edge(0, 1)];
        engine.step(params(FP_ONE, FP_ONE, FP_ONE, FP_ONE, 0, 0, 2, 1));
        assert_eq!(engine.nodes()[0].x, FP_ONE);
        assert_eq!(engine.nodes()[1].x, FP_ONE);
        assert_eq!(engine.nodes()[0].vx, FP_ONE);
        assert_eq!(engine.nodes()[1].vx, -FP_ONE);
    }
}

/// A compressed spring pushes its endpoints apart.
#[test]
fn spring_pushes_when_compressed() {
    let a = node_at(0, 0);
    let b = node_at(FP_ONE, 0);
    // d = 1.0 but rest = 2.0: magnitude is negative, so the force on each
    // endpoint points away from the other.
    assert_eq!(spring_force(&a, &b, FP_ONE, 2 * FP_ONE), (-(FP_ONE as i128), 0));
    assert_eq!(spring_force(&b, &a, FP_ONE, 2 * FP_ONE), (FP_ONE as i128, 0));
}

/// Edges with an endpoint outside the processed range are skipped.
#[test]
fn invalid_edge_endpoints_are_skipped() {
    for accelerated in [false, true] {
        let mut engine = Engine::new(accelerated);
        engine.nodes = vec![node_at(0, 0), node_at(2 * FP_ONE, 0)];
        engine.edges = vec![plain_edge(0, 5)];
        engine.step(params(FP_ONE, FP_ONE, FP_ONE, FP_ONE, 0, 0, 2, 1));
        assert_eq!(engine.nodes()[0].x, 0);
        assert_eq!(engine.nodes()[1].x, 2 * FP_ONE);
    }
}

/// Damping scales the velocity after the force update.
#[test]
fn damping_scales_velocity() {
    for accelerated in [false, true] {
        let mut engine = Engine::new(accelerated);
        engine.nodes = vec![moving_node(0, 0, FP_ONE, -FP_ONE)];
        engine.step(params(FP_ONE, FP_ONE / 2, 0, 0, 0, 0, 1, 0));
        assert_eq!((engine.nodes()[0].vx, engine.nodes()[0].vy), (FP_ONE / 2, -FP_ONE / 2));
        assert_eq!((engine.nodes()[0].x, engine.nodes()[0].y), (FP_ONE / 2, -FP_ONE / 2));
    }
}

/// Identical inputs give identical outputs, on either path.
#[test]
fn step_is_deterministic() {
    for accelerated in [false, true] {
        let build = || {
            let mut engine = Engine::new(accelerated);
            engine.nodes = vec![
                node_at(0, 0),
                node_at(300_000, 40_000),
                moving_node(-500_000, 250_000, 9_000, -2_500),
            ];
            engine.edges = vec![plain_edge(0, 1), plain_edge(1, 2)];
            engine
        };
        let p = params(FP_ONE / 60, 900_000, 50_000, FP_ONE / 2, 10_000, CELL_WIDTH, 3, 2);
        let mut first = build();
        let mut second = build();
        first.step(p);
        second.step(p);
        assert_eq!(first.nodes(), second.nodes());
        // A second frame from the same state is also reproducible.
        second.step(p);
        let mut third = build();
        third.step(p);
        third.step(p);
        assert_eq!(second.nodes(), third.nodes());
    }
}

/// Submitting one node more than the maximum processes exactly the
/// maximum, reports the truncation once, and does not fail.
#[test]
fn node_overflow_truncates_to_maximum() {
    let mut engine = Engine::new(true);
    let mut data: Vec<NodeData> = Vec::with_capacity(MAX_NODES + 1);
    for i in 0..(MAX_NODES + 1) {
        data.push(data_at((i % 1000) as i64, (i / 1000) as i64));
    }
    let truncated = engine.set_nodes(&data);
    assert!(truncated);
    assert_eq!(engine.get_current_node_count(), MAX_NODES as u32);
    // A count beyond the stored length is cut silently too.
    engine.step(params(FP_ONE / 60, FP_ONE, 0, 0, 0, 0, MAX_NODES + 5, 0));
    assert_eq!(engine.get_current_node_count(), MAX_NODES as u32);

    let exact = engine.set_nodes(&data[..MAX_NODES].to_vec());
    assert!(!exact);
    assert_eq!(engine.get_current_node_count(), MAX_NODES as u32);
}

/// The engine's limits and counters match the configured maximums.
#[test]
fn count_queries_report_limits_and_contents() {
    let mut engine = Engine::new(false);
    assert_eq!(engine.get_max_nodes(), 100_000);
    assert_eq!(engine.get_max_edges(), 200_000);
    assert_eq!(engine.get_current_node_count(), 0);
    assert_eq!(engine.get_current_edge_count(), 0);
    engine.set_nodes(&vec![data_at(0, 0), data_at(1, 1)]);
    engine.set_edges(&vec![plain_edge(0, 1)]);
    assert_eq!(engine.get_current_node_count(), 2);
    assert_eq!(engine.get_current_edge_count(), 1);
}

/// Nodes handed in through `set_nodes` start with zero velocity and a
/// clear force accumulator, and keep their payload.
#[test]
fn set_nodes_initializes_state() {
    let mut engine = Engine::new(true);
    engine.set_nodes(&vec![NodeData {
        x: 7,
        y: -9,
        red: 1,
        green: 2,
        blue: 3,
        alpha: 4,
        size: 5,
    }]);
    let n = &engine.nodes()[0];
    assert_eq!((n.x, n.y, n.vx, n.vy, n.fx, n.fy), (7, -9, 0, 0, 0, 0));
    assert_eq!((n.red, n.green, n.blue, n.alpha, n.size), (1, 2, 3, 4, 5));
    assert_eq!(n.mass, FP_ONE);
}

/// A cell past its capacity stops recording nodes: unrecorded occupants
/// still feel their neighbors, but are invisible to them — the documented
/// accuracy degradation of an overflowing cell. The brute-force path keeps
/// the full pair.
#[test]
fn cell_capacity_bounds_recorded_neighbors() {
    // Two nodes 0.03 world units apart in one cell, capacity one: only the
    // first is recorded. magnitude = strength / max(d, 0.01)^2.
    let expect: i64 = 1_111_111_111;
    let mut tight = Engine::with_cell_capacity(true, 1);
    tight.nodes = vec![node_at(0, 0), node_at(30_000, 0)];
    tight.step(params(FP_ONE, FP_ONE, 0, 0, FP_ONE, CELL_WIDTH, 2, 0));
    assert_eq!(tight.nodes()[0].vx, 0);
    assert_eq!(tight.nodes()[1].vx, expect);

    // With room for both, the same step pushes them apart symmetrically,
    // exactly as the brute-force path does.
    for engine in [Engine::with_cell_capacity(true, 2), Engine::new(false)].iter_mut() {
        engine.nodes = vec![node_at(0, 0), node_at(30_000, 0)];
        engine.step(params(FP_ONE, FP_ONE, 0, 0, FP_ONE, CELL_WIDTH, 2, 0));
        assert_eq!(engine.nodes()[0].vx, -expect);
        assert_eq!(engine.nodes()[1].vx, expect);
    }
}
