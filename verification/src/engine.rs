//! The physics orchestrator. An engine owns the caller-supplied node and
//! edge arrays, a capability flag fixed at construction (grid-accelerated
//! or brute-force repulsion), and the grid-cell capacity. One `step` runs
//! the fixed phase pipeline — clear grid, assign to grid, repulsion,
//! spring, integrate — each phase completing before the next starts, with
//! the grid and the force sums local to the step.

use vstd::prelude::*;

verus! {

use crate::grid::Grid;
use crate::integrate::{integrate_node, spec_integrate_node, ACC_LIMIT};
use crate::math::abs_i;
use crate::model::{
    node_of_data, nodes_pos_ok, params_ok, spec_node_of_data, Edge, Node, NodeData, PhysicsParams,
};
use crate::repulsion::{
    brute_repulsion, brute_repulsion_at, grid_repulsion, grid_repulsion_at,
};
use crate::forces::REP_COMP_BOUND;
use crate::spring::{accumulate_springs, spring_total, REP_TOTAL_BOUND};
use crate::{DEFAULT_CELL_CAPACITY, MAX_EDGES, MAX_NODES};

/// The physics engine: the current node and edge arrays, the repulsion
/// strategy chosen once at construction, and the grid-cell capacity.
pub struct Engine {
    pub accelerated: bool,
    pub cell_capacity: usize,
    pub nodes: Vec<Node>,
    pub edges: Vec<Edge>,
}

/// The engine's arrays respect the hard limits and the cell capacity is
/// usable.
pub open spec fn engine_wf(e: Engine) -> bool {
    &&& e.nodes.len() <= MAX_NODES
    &&& e.edges.len() <= MAX_EDGES
    &&& e.cell_capacity >= 1
}

/// How many stored nodes one step processes: the parameter count, cut to
/// what is stored.
pub open spec fn step_node_count(nodes: Seq<Node>, p: PhysicsParams) -> int {
    vstd::math::min(p.node_count as int, nodes.len() as int)
}

/// How many stored edges one step processes.
pub open spec fn step_edge_count(edges: Seq<Edge>, p: PhysicsParams) -> int {
    vstd::math::min(p.edge_count as int, edges.len() as int)
}

/// The repulsion sum a step uses for node `i`: the grid-accelerated sum on
/// the accelerated path, the brute-force sum on the scalar fallback.
pub open spec fn step_repulsion(
    nodes: Seq<Node>,
    ncount: int,
    i: int,
    cap: int,
    accelerated: bool,
    p: PhysicsParams,
) -> (int, int) {
    if accelerated {
        grid_repulsion(nodes, ncount, i, cap, p.repulsion_strength as int, p.repulsion_radius as int)
    } else {
        brute_repulsion(nodes, ncount, i, p.repulsion_strength as int, p.repulsion_radius as int)
    }
}

/// The successor of node `i` after one step: its repulsion and spring sums
/// (both over the positions at the start of the step) integrated into its
/// velocity and position.
pub open spec fn spec_step_node(
    nodes: Seq<Node>,
    edges: Seq<Edge>,
    ncount: int,
    ecount: int,
    cap: int,
    accelerated: bool,
    p: PhysicsParams,
    i: int,
) -> Node {
    let rep = step_repulsion(nodes, ncount, i, cap, accelerated, p);
    let spr = spring_total(
        nodes,
        edges,
        ncount,
        ecount,
        i,
        p.spring_constant as int,
        p.rest_length as int,
    );
    spec_integrate_node(
        nodes[i],
        rep.0 + spr.0,
        rep.1 + spr.1,
        p.delta_time as int,
        p.damping_factor as int,
    )
}

/// The node array after one step: the processed prefix advances, nodes
/// beyond the processed count are untouched.
pub open spec fn spec_step(
    nodes: Seq<Node>,
    edges: Seq<Edge>,
    cap: int,
    accelerated: bool,
    p: PhysicsParams,
) -> Seq<Node> {
    let ncount = step_node_count(nodes, p);
    let ecount = step_edge_count(edges, p);
    Seq::new(
        nodes.len(),
        |i: int|
            if i < ncount {
                spec_step_node(nodes, edges, ncount, ecount, cap, accelerated, p, i)
            } else {
                nodes[i]
            },
    )
}

impl Engine {
    /// A fresh engine with no nodes or edges. The capability flag is
    /// decided once, here: `accelerated` engines use the uniform grid for
    /// repulsion, others the brute-force scalar fallback. Both honor the
    /// same force laws.
    pub fn new(accelerated: bool) -> (e: Engine)
        ensures
            engine_wf(e),
            e.accelerated == accelerated,
            e.cell_capacity == DEFAULT_CELL_CAPACITY,
            e.nodes@.len() == 0,
            e.edges@.len() == 0,
    {
        Engine {
            accelerated,
            cell_capacity: DEFAULT_CELL_CAPACITY,
            nodes: Vec::new(),
            edges: Vec::new(),
        }
    }

    /// A fresh engine with a chosen grid-cell capacity. A larger capacity
    /// loses fewer repulsion pairs in crowded cells; a smaller one bounds
    /// the per-cell scan more tightly.
    pub fn with_cell_capacity(accelerated: bool, cell_capacity: usize) -> (e: Engine)
        requires
            cell_capacity >= 1,
        ensures
            engine_wf(e),
            e.accelerated == accelerated,
            e.cell_capacity == cell_capacity,
            e.nodes@.len() == 0,
            e.edges@.len() == 0,
    {
        Engine { accelerated, cell_capacity, nodes: Vec::new(), edges: Vec::new() }
    }

    /// Replace the node array from decoded host records. Velocities and
    /// force accumulators start at zero. At most `MAX_NODES` records are
    /// taken; the result says whether any were dropped, so the caller can
    /// log the truncation.
    pub fn set_nodes(&mut self, data: &Vec<NodeData>) -> (truncated: bool)
        requires
            engine_wf(*old(self)),
        ensures
            engine_wf(*final(self)),
            final(self).nodes@.len() == vstd::math::min(data@.len() as int, MAX_NODES as int),
            forall|i: int|
                0 <= i < final(self).nodes@.len() ==> #[trigger] final(self).nodes@[i]
                    == spec_node_of_data(data@[i]),
            truncated == (data@.len() > MAX_NODES),
            final(self).edges == old(self).edges,
            final(self).accelerated == old(self).accelerated,
            final(self).cell_capacity == old(self).cell_capacity,
    {
        let take: usize = if data.len() > MAX_NODES {
            MAX_NODES
        } else {
            data.len()
        };
        let mut fresh: Vec<Node> = Vec::new();
        let mut i: usize = 0;
        while i < take
            invariant
                i <= take,
                take <= data@.len(),
                fresh@.len() == i,
                forall|k: int|
                    0 <= k < i ==> #[trigger] fresh@[k] == spec_node_of_data(data@[k]),
            decreases take - i,
        {
            fresh.push(node_of_data(&data[i]));
            i = i + 1;
        }
        self.nodes = fresh;
        data.len() > MAX_NODES
    }

    /// Replace the edge array. At most `MAX_EDGES` edges are taken; the
    /// result says whether any were dropped.
    pub fn set_edges(&mut self, data: &Vec<Edge>) -> (truncated: bool)
        requires
            engine_wf(*old(self)),
        ensures
            engine_wf(*final(self)),
            final(self).edges@.len() == vstd::math::min(data@.len() as int, MAX_EDGES as int),
            forall|i: int|
                0 <= i < final(self).edges@.len() ==> #[trigger] final(self).edges@[i] == data@[i],
            truncated == (data@.len() > MAX_EDGES),
            final(self).nodes == old(self).nodes,
            final(self).accelerated == old(self).accelerated,
            final(self).cell_capacity == old(self).cell_capacity,
    {
        let take: usize = if data.len() > MAX_EDGES {
            MAX_EDGES
        } else {
            data.len()
        };
        let mut fresh: Vec<Edge> = Vec::new();
        let mut i: usize = 0;
        while i < take
            invariant
                i <= take,
                take <= data@.len(),
                fresh@.len() == i,
                forall|k: int| 0 <= k < i ==> #[trigger] fresh@[k] == data@[k],
            decreases take - i,
        {
            fresh.push(data[i]);
            i = i + 1;
        }
        self.edges = fresh;
        data.len() > MAX_EDGES
    }

    /// The stored nodes: after a step, the authoritative positions for the
    /// next frame.
    pub fn nodes(&self) -> (r: &Vec<Node>)
        ensures
            r == &self.nodes,
    {
        &self.nodes
    }

    /// Hard limit on the processed node count.
    pub fn get_max_nodes(&self) -> (r: u32)
        ensures
            r == MAX_NODES as u32,
    {
        MAX_NODES as u32
    }

    /// Hard limit on the processed edge count.
    pub fn get_max_edges(&self) -> (r: u32)
        ensures
            r == MAX_EDGES as u32,
    {
        MAX_EDGES as u32
    }

    /// How many nodes are currently stored.
    pub fn get_current_node_count(&self) -> (r: u32)
        requires
            engine_wf(*self),
        ensures
            r == self.nodes@.len(),
    {
        self.nodes.len() as u32
    }

    /// How many edges are currently stored.
    pub fn get_current_edge_count(&self) -> (r: u32)
        requires
            engine_wf(*self),
        ensures
            r == self.edges@.len(),
    {
        self.edges.len() as u32
    }

    /// Advance the simulation one frame under the given tunables. The
    /// phases run in fixed order — grid rebuild (on the accelerated path),
    /// repulsion, spring, integration — each complete before the next
    /// starts; force sums and the grid live only inside this call. Counts
    /// beyond the stored arrays are cut, never rejected.
    pub fn step(&mut self, p: PhysicsParams)
        requires
            engine_wf(*old(self)),
            params_ok(p),
            nodes_pos_ok(old(self).nodes@, step_node_count(old(self).nodes@, p)),
        ensures
            engine_wf(*final(self)),
            final(self).nodes@ == spec_step(
                old(self).nodes@,
                old(self).edges@,
                old(self).cell_capacity as int,
                old(self).accelerated,
                p,
            ),
            final(self).edges@ == old(self).edges@,
            final(self).accelerated == old(self).accelerated,
            final(self).cell_capacity == old(self).cell_capacity,
    {
        let ghost nodes0 = self.nodes@;
        let ghost edges0 = self.edges@;
        let ghost cap = self.cell_capacity as int;
        let ghost acc_on = self.accelerated;
        let ncount: usize = if p.node_count > self.nodes.len() {
            self.nodes.len()
        } else {
            p.node_count
        };
        let ecount: usize = if p.edge_count > self.edges.len() {
            self.edges.len()
        } else {
            p.edge_count
        };
        // Force accumulators are step-local and start at zero.
        let mut acc: Vec<(i128, i128)> = Vec::new();
        let mut i: usize = 0;
        while i < ncount
            invariant
                i <= ncount,
                acc@.len() == i,
                forall|k: int| 0 <= k < i ==> #[trigger] acc@[k] == (0i128, 0i128),
            decreases ncount - i,
        {
            acc.push((0i128, 0i128));
            i = i + 1;
        }
        // Repulsion phase: the accelerated path rebuilds the step-local
        // grid in full (clear, then assign) before any evaluation.
        if self.accelerated {
            let grid: Grid = Grid::build(&self.nodes, ncount, self.cell_capacity);
            let mut i: usize = 0;
            while i < ncount
                invariant
                    i <= ncount,
                    ncount <= self.nodes@.len(),
                    ncount <= MAX_NODES,
                    self.nodes@ == nodes0,
                    self.cell_capacity as int == cap,
                    crate::grid::grid_inv(grid, nodes0, ncount as int),
                    grid.capacity as int == cap,
                    nodes_pos_ok(nodes0, ncount as int),
                    abs_i(p.repulsion_strength as int) <= crate::PARAM_LIMIT as int,
                    acc@.len() == ncount,
                    forall|k: int|
                        0 <= k < i ==> {
                            let rep = grid_repulsion(
                                nodes0,
                                ncount as int,
                                k,
                                cap,
                                p.repulsion_strength as int,
                                p.repulsion_radius as int,
                            );
                            (#[trigger] acc@[k]).0 as int == rep.0 && acc@[k].1 as int == rep.1
                                && abs_i(acc@[k].0 as int) <= REP_TOTAL_BOUND as int && abs_i(
                                acc@[k].1 as int,
                            ) <= REP_TOTAL_BOUND as int
                        },
                    forall|k: int| i <= k < ncount ==> #[trigger] acc@[k] == (0i128, 0i128),
                decreases ncount - i,
            {
                let r: (i128, i128) = grid_repulsion_at(
                    &self.nodes,
                    &grid,
                    ncount,
                    i,
                    p.repulsion_strength,
                    p.repulsion_radius,
                );
                proof {
                    assert(ncount as int * REP_COMP_BOUND as int <= MAX_NODES as int
                        * REP_COMP_BOUND as int) by (nonlinear_arith)
                        requires 0 <= ncount as int <= MAX_NODES as int;
                }
                acc[i] = r;
                i = i + 1;
            }
        } else {
            let mut i: usize = 0;
            while i < ncount
                invariant
                    i <= ncount,
                    ncount <= self.nodes@.len(),
                    ncount <= MAX_NODES,
                    self.nodes@ == nodes0,
                    nodes_pos_ok(nodes0, ncount as int),
                    abs_i(p.repulsion_strength as int) <= crate::PARAM_LIMIT as int,
                    acc@.len() == ncount,
                    forall|k: int|
                        0 <= k < i ==> {
                            let rep = brute_repulsion(
                                nodes0,
                                ncount as int,
                                k,
                                p.repulsion_strength as int,
                                p.repulsion_radius as int,
                            );
                            (#[trigger] acc@[k]).0 as int == rep.0 && acc@[k].1 as int == rep.1
                                && abs_i(acc@[k].0 as int) <= REP_TOTAL_BOUND as int && abs_i(
                                acc@[k].1 as int,
                            ) <= REP_TOTAL_BOUND as int
                        },
                    forall|k: int| i <= k < ncount ==> #[trigger] acc@[k] == (0i128, 0i128),
                decreases ncount - i,
            {
                let r: (i128, i128) = brute_repulsion_at(
                    &self.nodes,
                    ncount,
                    i,
                    p.repulsion_strength,
                    p.repulsion_radius,
                );
                proof {
                    assert(ncount as int * REP_COMP_BOUND as int <= MAX_NODES as int
                        * REP_COMP_BOUND as int) by (nonlinear_arith)
                        requires 0 <= ncount as int <= MAX_NODES as int;
                }
                acc[i] = r;
                i = i + 1;
            }
        }
        // Spring phase, after repulsion has fully finished.
        accumulate_springs(
            &self.nodes,
            &self.edges,
            ncount,
            ecount,
            p.spring_constant,
            p.rest_length,
            &mut acc,
        );
        proof {
            assert(ecount as int * crate::forces::SPRING_COMP_BOUND as int <= MAX_EDGES as int
                * crate::forces::SPRING_COMP_BOUND as int) by (nonlinear_arith)
                requires 0 <= ecount as int <= MAX_EDGES as int;
        }
        // Integration phase: each node advances from its own force sum and
        // its own state alone.
        let mut i: usize = 0;
        while i < ncount
            invariant
                i <= ncount,
                ncount as int == step_node_count(nodes0, p),
                ecount as int == step_edge_count(edges0, p),
                self.nodes@.len() == nodes0.len(),
                self.edges@ == edges0,
                self.accelerated == acc_on,
                self.cell_capacity as int == cap,
                acc@.len() == ncount,
                abs_i(p.delta_time as int) <= crate::PARAM_LIMIT as int,
                abs_i(p.damping_factor as int) <= crate::PARAM_LIMIT as int,
                forall|k: int|
                    0 <= k < ncount ==> {
                        let rep = step_repulsion(nodes0, ncount as int, k, cap, acc_on, p);
                        let spr = spring_total(
                            nodes0,
                            edges0,
                            ncount as int,
                            ecount as int,
                            k,
                            p.spring_constant as int,
                            p.rest_length as int,
                        );
                        (#[trigger] acc@[k]).0 as int == rep.0 + spr.0 && acc@[k].1 as int == rep.1
                            + spr.1 && abs_i(acc@[k].0 as int) <= ACC_LIMIT as int && abs_i(
                            acc@[k].1 as int,
                        ) <= ACC_LIMIT as int
                    },
                forall|k: int| i <= k < nodes0.len() ==> #[trigger] self.nodes@[k] == nodes0[k],
                forall|k: int|
                    0 <= k < i ==> #[trigger] self.nodes@[k] == spec_step_node(
                        nodes0,
                        edges0,
                        ncount as int,
                        ecount as int,
                        cap,
                        acc_on,
                        p,
                        k,
                    ),
            decreases ncount - i,
        {
            let f: (i128, i128) = acc[i];
            let nd: Node = integrate_node(&self.nodes[i], f.0, f.1, p.delta_time, p.damping_factor);
            self.nodes[i] = nd;
            i = i + 1;
        }
        proof {
            assert(self.nodes@ =~= spec_step(nodes0, edges0, cap, acc_on, p));
        }
    }
}

} // verus!
