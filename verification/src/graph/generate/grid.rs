//! Triangular grid graphs.
use vstd::prelude::*;

use crate::graph::generate::{draws, Generate, WeightGenerator};
use crate::graph::matrix_graph::empty_matrix;
use crate::graph::MatrixGraph;

verus! {

/// The id of the grid node in row `i` and column `j` of a grid with `m` columns.
pub open spec fn grid_id(m: nat, i: nat, j: nat) -> nat {
    i * m + j
}

/// Whether the grid has a neighbor of `(i, j)` in direction `d`.
/// The directions, in the order in which edges are added: 0 right, 1 left, 2 below, 3 above,
/// 4 right below, 5 left above, where "right" increases the row and "below" the column.
pub open spec fn has_neighbor(n: nat, m: nat, i: nat, j: nat, d: nat) -> bool {
    if d == 0 {
        i + 1 < n
    } else if d == 1 {
        i > 0
    } else if d == 2 {
        j + 1 < m
    } else if d == 3 {
        j > 0
    } else if d == 4 {
        i + 1 < n && j + 1 < m
    } else if d == 5 {
        i > 0 && j > 0
    } else {
        false
    }
}

/// The direction in which `(i2, j2)` lies from `(i1, j1)`, if it is a grid neighbor.
pub open spec fn direction(i1: nat, j1: nat, i2: nat, j2: nat) -> Option<nat> {
    if i2 == i1 + 1 && j2 == j1 {
        Some(0)
    } else if i2 + 1 == i1 && j2 == j1 {
        Some(1)
    } else if i2 == i1 && j2 == j1 + 1 {
        Some(2)
    } else if i2 == i1 && j2 + 1 == j1 {
        Some(3)
    } else if i2 == i1 + 1 && j2 == j1 + 1 {
        Some(4)
    } else if i2 + 1 == i1 && j2 + 1 == j1 {
        Some(5)
    } else {
        None
    }
}

/// The grid of `n` rows and `m` columns has an edge from `(i1, j1)` to `(i2, j2)`:
/// both are in the grid and the second is a neighbor of the first.
pub open spec fn grid_adjacent(n: nat, m: nat, i1: nat, j1: nat, i2: nat, j2: nat) -> bool {
    i1 < n && j1 < m && i2 < n && j2 < m && direction(i1, j1, i2, j2) is Some
}

/// The number of the directions below `d` in which `(i, j)` has a neighbor.
pub open spec fn neighbor_count(n: nat, m: nat, i: nat, j: nat, d: nat) -> nat
    decreases d,
{
    if d == 0 {
        0
    } else {
        neighbor_count(n, m, i, j, (d - 1) as nat) + if has_neighbor(n, m, i, j, (d - 1) as nat) {
            1nat
        } else {
            0nat
        }
    }
}

/// The number of edges leaving the first `j` nodes of row `i`.
pub open spec fn row_edge_count(n: nat, m: nat, i: nat, j: nat) -> nat
    decreases j,
{
    if j == 0 {
        0
    } else {
        row_edge_count(n, m, i, (j - 1) as nat) + neighbor_count(n, m, i, (j - 1) as nat, 6)
    }
}

/// The number of edges leaving the nodes of the first `i` rows.
pub open spec fn rows_edge_count(n: nat, m: nat, i: nat) -> nat
    decreases i,
{
    if i == 0 {
        0
    } else {
        rows_edge_count(n, m, (i - 1) as nat) + row_edge_count(n, m, (i - 1) as nat, m)
    }
}

/// The number of edges of the triangular grid of `n` rows and `m` columns.
pub open spec fn grid_edge_count(n: nat, m: nat) -> nat {
    rows_edge_count(n, m, n)
}

/// The position, in the order in which the grid's edges are added, of the edge that leaves
/// `(i, j)` in direction `d`: the nodes before `(i, j)` come first, row by row, and then the
/// directions of `(i, j)` below `d`.
pub open spec fn edge_index(n: nat, m: nat, i: nat, j: nat, d: nat) -> nat {
    rows_edge_count(n, m, i) + row_edge_count(n, m, i, j) + neighbor_count(n, m, i, j, d)
}

/// The node of grid id `k` carries `node_weights[k]`, and every edge between grid nodes carries
/// the edge weight at its position in the order in which the edges are added.
pub open spec fn weights_match<Nw, Ew>(
    g: MatrixGraph<Nw, Ew>,
    n: nat,
    m: nat,
    node_weights: Seq<Nw>,
    edge_weights: Seq<Ew>,
) -> bool {
    &&& g@.nodes == node_weights.map_values(|w: Nw| Some(w))
    &&& forall|i1: nat, j1: nat, i2: nat, j2: nat|
        i1 < n && j1 < m && i2 < n && j2 < m && (#[trigger] g@.matrix[grid_id(m, i1, j1) as int][grid_id(m, i2, j2) as int]) is Some
            ==> g@.matrix[grid_id(m, i1, j1) as int][grid_id(m, i2, j2) as int] == Some(
            edge_weights[edge_index(n, m, i1, j1, direction(i1, j1, i2, j2)->0) as int],
        )
}

/// The edge from `(i1, j1)` to `(i2, j2)` has been added once the nodes before `(i, j)` and the
/// directions of `(i, j)` below `d` are done.
pub open spec fn edge_done(n: nat, m: nat, i: nat, j: nat, d: nat, i1: nat, j1: nat, i2: nat, j2: nat) -> bool {
    &&& grid_adjacent(n, m, i1, j1, i2, j2)
    &&& (i1 < i || (i1 == i && j1 < j) || (i1 == i && j1 == j && direction(i1, j1, i2, j2)->0 < d))
}

/// The cells of `matrix` between grid nodes hold an edge exactly where it has been added.
pub open spec fn cells_match<Ew>(matrix: Seq<Seq<Option<Ew>>>, n: nat, m: nat, i: nat, j: nat, d: nat) -> bool {
    forall|i1: nat, j1: nat, i2: nat, j2: nat|
        i1 < n && j1 < m && i2 < n && j2 < m ==> (
        #[trigger] matrix[grid_id(m, i1, j1) as int][grid_id(m, i2, j2) as int] is Some <==> edge_done(
            n,
            m,
            i,
            j,
            d,
            i1,
            j1,
            i2,
            j2,
        ))
}

/// Ids of grid nodes lie below `n * m`.
proof fn lemma_grid_id_bound(n: nat, m: nat, i: nat, j: nat)
    requires
        i < n,
        j < m,
    ensures
        grid_id(m, i, j) < n * m,
{
    assert(i * m + j < n * m) by (nonlinear_arith)
        requires
            i < n,
            j < m,
    ;
}

/// Different grid nodes have different ids.
proof fn lemma_grid_id_injective(m: nat, i1: nat, j1: nat, i2: nat, j2: nat)
    requires
        j1 < m,
        j2 < m,
        grid_id(m, i1, j1) == grid_id(m, i2, j2),
    ensures
        i1 == i2,
        j1 == j2,
{
    assert(i1 == i2 && j1 == j2) by (nonlinear_arith)
        requires
            j1 < m,
            j2 < m,
            i1 * m + j1 == i2 * m + j2,
    ;
}

/// A node has at most one neighbor per direction.
proof fn lemma_neighbor_count_bound(n: nat, m: nat, i: nat, j: nat, d: nat)
    ensures
        neighbor_count(n, m, i, j, d) <= d,
    decreases d,
{
    if d > 0 {
        lemma_neighbor_count_bound(n, m, i, j, (d - 1) as nat);
    }
}

/// The first `j` nodes of a row have at most six edges each.
proof fn lemma_row_count_bound(n: nat, m: nat, i: nat, j: nat)
    ensures
        row_edge_count(n, m, i, j) <= 6 * j,
    decreases j,
{
    if j > 0 {
        lemma_row_count_bound(n, m, i, (j - 1) as nat);
        lemma_neighbor_count_bound(n, m, i, (j - 1) as nat, 6);
    }
}

/// The first `i` rows have at most six edges per node.
proof fn lemma_rows_count_bound(n: nat, m: nat, i: nat)
    ensures
        rows_edge_count(n, m, i) <= 6 * i * m,
    decreases i,
{
    if i > 0 {
        lemma_rows_count_bound(n, m, (i - 1) as nat);
        lemma_row_count_bound(n, m, (i - 1) as nat, m);
        let prev = rows_edge_count(n, m, (i - 1) as nat);
        let row = row_edge_count(n, m, (i - 1) as nat, m);
        assert(prev + row <= 6 * i * m) by (nonlinear_arith)
            requires
                prev <= 6 * (i - 1) * m,
                row <= 6 * m,
                i > 0,
        ;
    }
}

/// Counting the neighbors over more directions gives no fewer.
proof fn lemma_neighbor_count_mono(n: nat, m: nat, i: nat, j: nat, a: nat, b: nat)
    requires
        a <= b,
    ensures
        neighbor_count(n, m, i, j, a) <= neighbor_count(n, m, i, j, b),
    decreases b,
{
    if a < b {
        lemma_neighbor_count_mono(n, m, i, j, a, (b - 1) as nat);
    }
}

/// Counting the edges of more nodes of a row gives no fewer.
proof fn lemma_row_edge_count_mono(n: nat, m: nat, i: nat, a: nat, b: nat)
    requires
        a <= b,
    ensures
        row_edge_count(n, m, i, a) <= row_edge_count(n, m, i, b),
    decreases b,
{
    if a < b {
        lemma_row_edge_count_mono(n, m, i, a, (b - 1) as nat);
    }
}

/// Counting the edges of more rows gives no fewer.
proof fn lemma_rows_edge_count_mono(n: nat, m: nat, a: nat, b: nat)
    requires
        a <= b,
    ensures
        rows_edge_count(n, m, a) <= rows_edge_count(n, m, b),
    decreases b,
{
    if a < b {
        lemma_rows_edge_count_mono(n, m, a, (b - 1) as nat);
    }
}

/// The edge leaving a grid node in a direction where it has a neighbor has a position below
/// the number of grid edges.
proof fn lemma_edge_index_bound(n: nat, m: nat, i: nat, j: nat, d: nat)
    requires
        i < n,
        j < m,
        d < 6,
        has_neighbor(n, m, i, j, d),
    ensures
        edge_index(n, m, i, j, d) < grid_edge_count(n, m),
{
    lemma_neighbor_count_mono(n, m, i, j, d + 1, 6);
    lemma_row_edge_count_mono(n, m, i, j + 1, m);
    lemma_rows_edge_count_mono(n, m, i + 1, n);
}

/// A triangular grid of nodes with generated weights: each node has edges to its neighbors
/// to the right, left, below and above, and to the right below and the left above.
pub struct Grid<NG, EG> {
    size: (usize, usize),
    nw_generator: NG,
    ew_generator: EG,
}


/// The graph under construction: all `n * m` nodes are in it, its edges are the grid edges
/// that have been added, and its size counts them.
pub open spec fn building<Nw, Ew>(g: MatrixGraph<Nw, Ew>, n: nat, m: nat, i: nat, j: nat, d: nat) -> bool {
    &&& g@.wf()
    &&& g@.nodes.len() == n * m
    &&& forall|k: int| 0 <= k < n * m ==> #[trigger] g@.nodes[k] is Some
    &&& g@.order == n * m
    &&& cells_match(g@.matrix, n, m, i, j, d)
    &&& g@.size == rows_edge_count(n, m, i) + row_edge_count(n, m, i, j) + neighbor_count(n, m, i, j, d)
    &&& g@.size == g@.edge_count()
}

/// Passing over a direction in which the node has no neighbor changes nothing.
proof fn lemma_skip_direction<Nw, Ew>(g: MatrixGraph<Nw, Ew>, n: nat, m: nat, i: nat, j: nat, d: nat)
    requires
        building(g, n, m, i, j, d),
        !has_neighbor(n, m, i, j, d),
        i < n,
        j < m,
    ensures
        building(g, n, m, i, j, d + 1),
{
    assert forall|i1: nat, j1: nat, i3: nat, j3: nat|
        i1 < n && j1 < m && i3 < n && j3 < m implies (
        #[trigger] g@.matrix[grid_id(m, i1, j1) as int][grid_id(m, i3, j3) as int] is Some <==> edge_done(
            n,
            m,
            i,
            j,
            d + 1,
            i1,
            j1,
            i3,
            j3,
        )) by {
        assert(g@.matrix[grid_id(m, i1, j1) as int][grid_id(m, i3, j3) as int] is Some <==> edge_done(
            n,
            m,
            i,
            j,
            d,
            i1,
            j1,
            i3,
            j3,
        ));
    }
}

/// Once all directions of a node are done, the next node in the row begins.
proof fn lemma_next_node<Nw, Ew>(g: MatrixGraph<Nw, Ew>, n: nat, m: nat, i: nat, j: nat)
    requires
        building(g, n, m, i, j, 6),
    ensures
        building(g, n, m, i, j + 1, 0),
{
    assert forall|i1: nat, j1: nat, i3: nat, j3: nat|
        i1 < n && j1 < m && i3 < n && j3 < m implies (
        #[trigger] g@.matrix[grid_id(m, i1, j1) as int][grid_id(m, i3, j3) as int] is Some <==> edge_done(
            n,
            m,
            i,
            j + 1,
            0,
            i1,
            j1,
            i3,
            j3,
        )) by {
        assert(g@.matrix[grid_id(m, i1, j1) as int][grid_id(m, i3, j3) as int] is Some <==> edge_done(
            n,
            m,
            i,
            j,
            6,
            i1,
            j1,
            i3,
            j3,
        ));
    }
}

/// Once all nodes of a row are done, the next row begins.
proof fn lemma_next_row<Nw, Ew>(g: MatrixGraph<Nw, Ew>, n: nat, m: nat, i: nat)
    requires
        building(g, n, m, i, m, 0),
    ensures
        building(g, n, m, i + 1, 0, 0),
{
    assert forall|i1: nat, j1: nat, i3: nat, j3: nat|
        i1 < n && j1 < m && i3 < n && j3 < m implies (
        #[trigger] g@.matrix[grid_id(m, i1, j1) as int][grid_id(m, i3, j3) as int] is Some <==> edge_done(
            n,
            m,
            i + 1,
            0,
            0,
            i1,
            j1,
            i3,
            j3,
        )) by {
        assert(g@.matrix[grid_id(m, i1, j1) as int][grid_id(m, i3, j3) as int] is Some <==> edge_done(
            n,
            m,
            i,
            m,
            0,
            i1,
            j1,
            i3,
            j3,
        ));
    }
}

/// Adds the edge from `(i, j)` to its neighbor `(i2, j2)` in direction `d`,
/// with the edge weight at the edge's position.
fn add_grid_edge<Nw, Ew: Copy>(
    graph: &mut MatrixGraph<Nw, Ew>,
    node_weights: Ghost<Seq<Nw>>,
    edge_weights: &[Ew],
    n: usize,
    m: usize,
    i: usize,
    j: usize,
    i2: usize,
    j2: usize,
    d: usize,
)
    requires
        building(*old(graph), n as nat, m as nat, i as nat, j as nat, d as nat),
        i < n,
        j < m,
        i2 < n,
        j2 < m,
        d < 6,
        direction(i as nat, j as nat, i2 as nat, j2 as nat) == Some(d as nat),
        has_neighbor(n as nat, m as nat, i as nat, j as nat, d as nat),
        6 * n * m <= usize::MAX,
        weights_match(*old(graph), n as nat, m as nat, node_weights@, edge_weights@),
        edge_weights@.len() == grid_edge_count(n as nat, m as nat),
    ensures
        building(*final(graph), n as nat, m as nat, i as nat, j as nat, (d + 1) as nat),
        weights_match(*final(graph), n as nat, m as nat, node_weights@, edge_weights@),
{
    let ghost before = graph@;
    let ghost (nn, mm) = (n as nat, m as nat);
    proof {
        lemma_grid_id_bound(nn, mm, i as nat, j as nat);
        lemma_grid_id_bound(nn, mm, i2 as nat, j2 as nat);
        lemma_rows_count_bound(nn, mm, i as nat);
        lemma_row_count_bound(nn, mm, i as nat, j as nat);
        lemma_neighbor_count_bound(nn, mm, i as nat, j as nat, d as nat);
        assert(6 * (i * m + j) + 6 <= 6 * n * m) by (nonlinear_arith)
            requires
                i < n,
                j < m,
        ;
        assert(6 * i * m == 6 * (i * m)) by (nonlinear_arith);
        assert(i2 * m + j2 < n * m && n * m <= 6 * n * m) by (nonlinear_arith)
            requires
                i2 < n,
                j2 < m,
        ;
        assert(before.matrix[grid_id(mm, i as nat, j as nat) as int][grid_id(mm, i2 as nat, j2 as nat) as int] is Some
            <==> edge_done(nn, mm, i as nat, j as nat, d as nat, i as nat, j as nat, i2 as nat, j2 as nat));
    }
    let from = i * m + j;
    let to = i2 * m + j2;
    proof {
        lemma_edge_index_bound(nn, mm, i as nat, j as nat, d as nat);
    }
    let position = graph.size();
    let weight = edge_weights[position];
    let res = graph.add_edge((from, to), weight);
    assert(res is Ok);
    proof {
        let after = graph@;
        assert forall|i1: nat, j1: nat, i3: nat, j3: nat|
            i1 < nn && j1 < mm && i3 < nn && j3 < mm && (#[trigger] after.matrix[grid_id(mm, i1, j1) as int][grid_id(mm, i3, j3) as int]) is Some
            implies after.matrix[grid_id(mm, i1, j1) as int][grid_id(mm, i3, j3) as int] == Some(
                edge_weights@[edge_index(nn, mm, i1, j1, direction(i1, j1, i3, j3)->0) as int],
            ) by {
            lemma_grid_id_bound(nn, mm, i1, j1);
            lemma_grid_id_bound(nn, mm, i3, j3);
            if grid_id(mm, i1, j1) == from && grid_id(mm, i3, j3) == to {
                lemma_grid_id_injective(mm, i1, j1, i as nat, j as nat);
                lemma_grid_id_injective(mm, i3, j3, i2 as nat, j2 as nat);
            } else {
                assert(before.matrix[grid_id(mm, i1, j1) as int][grid_id(mm, i3, j3) as int] is Some);
            }
        }
        assert forall|i1: nat, j1: nat, i3: nat, j3: nat|
            i1 < nn && j1 < mm && i3 < nn && j3 < mm implies (
            #[trigger] after.matrix[grid_id(mm, i1, j1) as int][grid_id(mm, i3, j3) as int] is Some
                <==> edge_done(nn, mm, i as nat, j as nat, (d + 1) as nat, i1, j1, i3, j3)) by {
            lemma_grid_id_bound(nn, mm, i1, j1);
            lemma_grid_id_bound(nn, mm, i3, j3);
            if grid_id(mm, i1, j1) == from && grid_id(mm, i3, j3) == to {
                lemma_grid_id_injective(mm, i1, j1, i as nat, j as nat);
                lemma_grid_id_injective(mm, i3, j3, i2 as nat, j2 as nat);
            } else {
                assert(before.matrix[grid_id(mm, i1, j1) as int][grid_id(mm, i3, j3) as int] is Some
                    <==> edge_done(nn, mm, i as nat, j as nat, d as nat, i1, j1, i3, j3));
                if i1 == i && j1 == j && direction(i1, j1, i3, j3) == Some(d as nat) {
                    assert(i3 == i2 && j3 == j2);
                }
            }
        }
    }
}

/// Adds the edges from `(i, j)` to each of its neighbors, in the order of the directions.
fn add_node_edges<Nw, Ew: Copy>(
    graph: &mut MatrixGraph<Nw, Ew>,
    node_weights: Ghost<Seq<Nw>>,
    edge_weights: &[Ew],
    n: usize,
    m: usize,
    i: usize,
    j: usize,
)
    requires
        building(*old(graph), n as nat, m as nat, i as nat, j as nat, 0),
        i < n,
        j < m,
        6 * n * m <= usize::MAX,
        weights_match(*old(graph), n as nat, m as nat, node_weights@, edge_weights@),
        edge_weights@.len() == grid_edge_count(n as nat, m as nat),
    ensures
        building(*final(graph), n as nat, m as nat, i as nat, (j + 1) as nat, 0),
        weights_match(*final(graph), n as nat, m as nat, node_weights@, edge_weights@),
{
    let ghost (nn, mm, ii, jj) = (n as nat, m as nat, i as nat, j as nat);
    // the neighbor to the right
    if i + 1 < n {
        add_grid_edge(graph, node_weights, edge_weights, n, m, i, j, i + 1, j, 0);
    } else {
        proof {
            lemma_skip_direction(*graph, nn, mm, ii, jj, 0);
        }
    }
    // the neighbor to the left
    if i > 0 {
        add_grid_edge(graph, node_weights, edge_weights, n, m, i, j, i - 1, j, 1);
    } else {
        proof {
            lemma_skip_direction(*graph, nn, mm, ii, jj, 1);
        }
    }
    // the neighbor below
    if j + 1 < m {
        add_grid_edge(graph, node_weights, edge_weights, n, m, i, j, i, j + 1, 2);
    } else {
        proof {
            lemma_skip_direction(*graph, nn, mm, ii, jj, 2);
        }
    }
    // the neighbor above
    if j > 0 {
        add_grid_edge(graph, node_weights, edge_weights, n, m, i, j, i, j - 1, 3);
    } else {
        proof {
            lemma_skip_direction(*graph, nn, mm, ii, jj, 3);
        }
    }
    // the neighbor to the right below
    if i + 1 < n && j + 1 < m {
        add_grid_edge(graph, node_weights, edge_weights, n, m, i, j, i + 1, j + 1, 4);
    } else {
        proof {
            lemma_skip_direction(*graph, nn, mm, ii, jj, 4);
        }
    }
    // the neighbor to the left above
    if i > 0 && j > 0 {
        add_grid_edge(graph, node_weights, edge_weights, n, m, i, j, i - 1, j - 1, 5);
    } else {
        proof {
            lemma_skip_direction(*graph, nn, mm, ii, jj, 5);
        }
    }
    proof {
        lemma_next_node(*graph, nn, mm, ii, jj);
    }
}

/// The graph is the triangular grid of `n` rows and `m` columns: the node in row `i` and column `j`
/// has the id `i * m + j`, and there is an edge exactly between grid neighbors.
pub open spec fn is_grid<Nw, Ew>(g: MatrixGraph<Nw, Ew>, n: nat, m: nat) -> bool {
    &&& g@.wf()
    &&& g@.nodes.len() == n * m
    &&& forall|k: int| 0 <= k < n * m ==> #[trigger] g@.nodes[k] is Some
    &&& g@.order == n * m
    &&& forall|i1: nat, j1: nat, i2: nat, j2: nat|
        i1 < n && j1 < m && i2 < n && j2 < m ==> (
        #[trigger] g@.matrix[grid_id(m, i1, j1) as int][grid_id(m, i2, j2) as int] is Some
            <==> grid_adjacent(n, m, i1, j1, i2, j2))
    &&& g@.size == grid_edge_count(n, m)
    &&& g@.size_is_exact()
}

impl<NG, EG> Grid<NG, EG> {
    /// The number of rows and the number of columns.
    pub closed spec fn spec_size(&self) -> (usize, usize) {
        self.size
    }

    /// The generator of the node weights.
    pub closed spec fn node_generator(&self) -> NG {
        self.nw_generator
    }

    /// The generator of the edge weights.
    pub closed spec fn edge_generator(&self) -> EG {
        self.ew_generator
    }

    /// Creates a grid of `size.0` rows and `size.1` columns whose node and edge weights
    /// come from the two generators.
    pub fn new(size: (usize, usize), nw_generator: NG, ew_generator: EG) -> (grid: Self)
        ensures
            grid.spec_size() == size,
            grid.node_generator() == nw_generator,
            grid.edge_generator() == ew_generator,
    {
        Grid { size, nw_generator, ew_generator }
    }
}

/// The number of edges of the triangular grid of `n` rows and `m` columns.
pub fn grid_edge_total(n: usize, m: usize) -> (total: usize)
    requires
        6 * n * m <= usize::MAX,
    ensures
        total == grid_edge_count(n as nat, m as nat),
{
    proof {
        law_grid_edge_count(n as nat, m as nat);
    }
    if n == 0 || m == 0 {
        0
    } else {
        assert(2 * ((n - 1) * m) + 2 * (n * (m - 1)) + 2 * ((n - 1) * (m - 1)) <= 6 * n * m) by (nonlinear_arith)
            requires
                n >= 1,
                m >= 1,
        ;
        assert(0 <= (n - 1) * m && 0 <= n * (m - 1) && 0 <= (n - 1) * (m - 1)) by (nonlinear_arith)
            requires
                n >= 1,
                m >= 1,
        ;
        let along_rows = 2 * ((n - 1) * m);
        let along_columns = 2 * (n * (m - 1));
        let along_diagonals = 2 * ((n - 1) * (m - 1));
        assert(along_rows == 2 * (n - 1) * m && along_columns == 2 * n * (m - 1) && along_diagonals == 2 * (n - 1)
            * (m - 1)) by (nonlinear_arith)
            requires
                along_rows == 2 * ((n - 1) * m),
                along_columns == 2 * (n * (m - 1)),
                along_diagonals == 2 * ((n - 1) * (m - 1)),
        ;
        along_rows + along_columns + along_diagonals
    }
}

/// The triangular grid of `n` rows and `m` columns with the given weights: the node of id `k`
/// carries `node_weights[k]`, and the edges, taken node by node in the order of the ids and, for
/// each node, in the order right, left, below, above, right below, left above, carry the edge
/// weights one after another.
pub fn generate_from_weights<Nw: Copy, Ew: Copy>(n: usize, m: usize, node_weights: &[Nw], edge_weights: &[Ew]) -> (graph:
    MatrixGraph<Nw, Ew>)
    requires
        6 * n * m <= usize::MAX,
        node_weights@.len() == n * m,
        edge_weights@.len() == grid_edge_count(n as nat, m as nat),
    ensures
        is_grid(graph, n as nat, m as nat),
        weights_match(graph, n as nat, m as nat, node_weights@, edge_weights@),
{
    let ghost (nn, mm) = (n as nat, m as nat);
    assert(n * m <= 6 * n * m) by (nonlinear_arith);
    let count = n * m;
    let mut graph: MatrixGraph<Nw, Ew> = MatrixGraph::with_size(count);
    for k in 0..count
        invariant
            count == n * m,
            node_weights@.len() == count,
            graph@.wf(),
            graph@.nodes.len() == count,
            graph@.matrix == empty_matrix::<Ew>(count as nat),
            graph@.order == k,
            graph@.size == 0,
            forall|l: int| 0 <= l < k ==> #[trigger] graph@.nodes[l] == Some(node_weights@[l]),
            forall|l: int| k <= l < count ==> #[trigger] graph@.nodes[l] is None,
    {
        let weight = node_weights[k];
        let res = graph.add_node(k, weight);
        assert(res is Ok);
    }
    let ghost nws = node_weights@;
    proof {
        assert(graph@.nodes =~= nws.map_values(|w: Nw| Some(w)));
        assert forall|i1: nat, j1: nat, i3: nat, j3: nat|
            i1 < nn && j1 < mm && i3 < nn && j3 < mm implies (
            #[trigger] graph@.matrix[grid_id(mm, i1, j1) as int][grid_id(mm, i3, j3) as int] is Some
                <==> edge_done(nn, mm, 0, 0, 0, i1, j1, i3, j3)) by {
            lemma_grid_id_bound(nn, mm, i1, j1);
            lemma_grid_id_bound(nn, mm, i3, j3);
        }
        assert forall|i1: nat, j1: nat, i3: nat, j3: nat|
            i1 < nn && j1 < mm && i3 < nn && j3 < mm && (#[trigger] graph@.matrix[grid_id(mm, i1, j1) as int][grid_id(mm, i3, j3) as int]) is Some
            implies graph@.matrix[grid_id(mm, i1, j1) as int][grid_id(mm, i3, j3) as int] == Some(
                edge_weights@[edge_index(nn, mm, i1, j1, direction(i1, j1, i3, j3)->0) as int],
            ) by {
            lemma_grid_id_bound(nn, mm, i1, j1);
            lemma_grid_id_bound(nn, mm, i3, j3);
        }
    }
    for i in 0..n
        invariant
            6 * n * m <= usize::MAX,
            nn == n,
            mm == m,
            edge_weights@.len() == grid_edge_count(nn, mm),
            building(graph, nn, mm, i as nat, 0, 0),
            weights_match(graph, nn, mm, nws, edge_weights@),
    {
        for j in 0..m
            invariant
                6 * n * m <= usize::MAX,
                nn == n,
                mm == m,
                i < n,
                edge_weights@.len() == grid_edge_count(nn, mm),
                building(graph, nn, mm, i as nat, j as nat, 0),
                weights_match(graph, nn, mm, nws, edge_weights@),
        {
            add_node_edges(&mut graph, Ghost(nws), edge_weights, n, m, i, j);
        }
        proof {
            lemma_next_row(graph, nn, mm, i as nat);
        }
    }
    proof {
        assert forall|i1: nat, j1: nat, i3: nat, j3: nat|
            i1 < nn && j1 < mm && i3 < nn && j3 < mm implies (
            #[trigger] graph@.matrix[grid_id(mm, i1, j1) as int][grid_id(mm, i3, j3) as int] is Some
                <==> grid_adjacent(nn, mm, i1, j1, i3, j3)) by {
            assert(graph@.matrix[grid_id(mm, i1, j1) as int][grid_id(mm, i3, j3) as int] is Some
                <==> edge_done(nn, mm, nn, 0, 0, i1, j1, i3, j3));
        }
    }
    graph
}

impl<NG: WeightGenerator, EG: WeightGenerator> Generate<NG::Weight, EG::Weight> for Grid<NG, EG> where
    NG::Weight: Copy,
    EG::Weight: Copy,
 {
    open spec fn can_generate(&self) -> bool {
        6 * self.spec_size().0 * self.spec_size().1 <= usize::MAX
    }

    /// Generates the grid: draws one node weight for each of the `n * m` nodes, in the order of
    /// the ids, then one edge weight for each grid edge, in the order of [`edge_index`], and
    /// builds the grid from them with [`generate_from_weights`].
    fn generate(&mut self) -> (graph: MatrixGraph<NG::Weight, EG::Weight>)
        ensures
            is_grid(graph, old(self).spec_size().0 as nat, old(self).spec_size().1 as nat),
            final(self).spec_size() == old(self).spec_size(),
            old(self).node_generator().keeps_record() && old(self).edge_generator().keeps_record() ==> draws(
                old(self).node_generator().drawn(),
                final(self).node_generator().drawn(),
                old(self).spec_size().0 as nat * old(self).spec_size().1 as nat,
            ),
            old(self).node_generator().keeps_record() && old(self).edge_generator().keeps_record() ==> draws(
                old(self).edge_generator().drawn(),
                final(self).edge_generator().drawn(),
                grid_edge_count(old(self).spec_size().0 as nat, old(self).spec_size().1 as nat),
            ),
            old(self).node_generator().keeps_record() && old(self).edge_generator().keeps_record() ==> weights_match(
                graph,
                old(self).spec_size().0 as nat,
                old(self).spec_size().1 as nat,
                final(self).node_generator().drawn().skip(old(self).node_generator().drawn().len() as int),
                final(self).edge_generator().drawn().skip(old(self).edge_generator().drawn().len() as int),
            ),
    {
        let (n, m) = self.size;
        let ghost nb = self.nw_generator.drawn();
        let ghost eb = self.ew_generator.drawn();
        let ghost nrec = self.nw_generator.keeps_record();
        let ghost erec = self.ew_generator.keeps_record();
        assert(n * m <= 6 * n * m) by (nonlinear_arith);
        let count = n * m;
        let mut node_weights: Vec<NG::Weight> = Vec::with_capacity(count);
        for k in 0..count
            invariant
                node_weights@.len() == k,
                self.size == (n, m),
                nrec ==> self.nw_generator.keeps_record() && self.nw_generator.drawn() == nb + node_weights@,
                erec == self.ew_generator.keeps_record(),
                self.ew_generator.drawn() == eb,
        {
            let ghost before = node_weights@;
            let w = self.nw_generator.next_weight();
            node_weights.push(w);
            proof {
                if nrec {
                    assert(nb + node_weights@ =~= (nb + before).push(w));
                }
            }
        }
        let total = grid_edge_total(n, m);
        let mut edge_weights: Vec<EG::Weight> = Vec::with_capacity(total);
        for k in 0..total
            invariant
                edge_weights@.len() == k,
                self.size == (n, m),
                6 * n * m <= usize::MAX,
                nrec ==> self.nw_generator.keeps_record() && self.nw_generator.drawn() == nb + node_weights@,
                erec ==> self.ew_generator.keeps_record() && self.ew_generator.drawn() == eb + edge_weights@,
        {
            let ghost before = edge_weights@;
            let w = self.ew_generator.next_weight();
            edge_weights.push(w);
            proof {
                if erec {
                    assert(eb + edge_weights@ =~= (eb + before).push(w));
                }
            }
        }
        let graph = generate_from_weights(n, m, node_weights.as_slice(), edge_weights.as_slice());
        proof {
            assert((nb + node_weights@).take(nb.len() as int) =~= nb);
            assert((nb + node_weights@).skip(nb.len() as int) =~= node_weights@);
            assert((eb + edge_weights@).take(eb.len() as int) =~= eb);
            assert((eb + edge_weights@).skip(eb.len() as int) =~= edge_weights@);
        }
        graph
    }
}

/// 1 if `c` holds, 0 otherwise.
pub open spec fn indicator(c: bool) -> nat {
    if c {
        1
    } else {
        0
    }
}

/// The first `k` nodes of row `i` have, all together, `k` times the row neighbors of the row,
/// and the column and diagonal neighbors that the columns below `k` give.
proof fn lemma_row_edge_count_closed(n: nat, m: nat, i: nat, k: nat)
    requires
        m >= 1,
        k <= m,
    ensures
        ({
            let r = indicator(i + 1 < n);
            let l = indicator(i > 0);
            let below = if k < m { k } else { (m - 1) as nat };
            let above = if k == 0 { 0 } else { (k - 1) as nat };
            row_edge_count(n, m, i, k) == k * (r + l) + (1 + r) * below + (1 + l) * above
        }),
    decreases k,
{
    reveal_with_fuel(neighbor_count, 7);
    let r = indicator(i + 1 < n);
    let l = indicator(i > 0);
    if k > 0 {
        let j = (k - 1) as nat;
        lemma_row_edge_count_closed(n, m, i, j);
        let below = if j < m { j } else { (m - 1) as nat };
        let above = if j == 0 { 0 } else { (j - 1) as nat };
        let below2 = if k < m { k } else { (m - 1) as nat };
        let above2 = if k == 0 { 0 } else { (k - 1) as nat };
        let nc = neighbor_count(n, m, i, j, 6);
        assert(nc == r + l + indicator(j + 1 < m) + indicator(j > 0) + r * indicator(j + 1 < m) + l * indicator(
            j > 0,
        )) by (nonlinear_arith)
            requires
                nc == neighbor_count(n, m, i, j, 6),
                neighbor_count(n, m, i, j, 6) == indicator(i + 1 < n) + indicator(i > 0) + indicator(j + 1 < m)
                    + indicator(j > 0) + indicator(i + 1 < n && j + 1 < m) + indicator(i > 0 && j > 0),
                r == indicator(i + 1 < n),
                l == indicator(i > 0),
        ;
        assert(below2 == below + indicator(j + 1 < m));
        assert(above2 == above + indicator(j > 0));
        assert(k * (r + l) + (1 + r) * below2 + (1 + l) * above2 == j * (r + l) + (1 + r) * below + (1 + l) * above
            + nc) by (nonlinear_arith)
            requires
                k == j + 1,
                below2 == below + indicator(j + 1 < m),
                above2 == above + indicator(j > 0),
                nc == r + l + indicator(j + 1 < m) + indicator(j > 0) + r * indicator(j + 1 < m) + l * indicator(j > 0),
        ;
    }
}

/// The first `k` rows have, all together, the row, column and diagonal neighbors that their
/// positions give.
proof fn lemma_rows_edge_count_closed(n: nat, m: nat, k: nat)
    requires
        n >= 1,
        m >= 1,
        k <= n,
    ensures
        ({
            let right = if k < n { k } else { (n - 1) as nat };
            let left = if k == 0 { 0 } else { (k - 1) as nat };
            rows_edge_count(n, m, k) == m * (right + left) + 2 * k * (m - 1) + (right + left) * (m - 1)
        }),
    decreases k,
{
    if k > 0 {
        let i = (k - 1) as nat;
        lemma_rows_edge_count_closed(n, m, i);
        lemma_row_edge_count_closed(n, m, i, m);
        let r = indicator(i + 1 < n);
        let l = indicator(i > 0);
        let right = if i < n { i } else { (n - 1) as nat };
        let left = if i == 0 { 0 } else { (i - 1) as nat };
        let right2 = if k < n { k } else { (n - 1) as nat };
        let left2 = if k == 0 { 0 } else { (k - 1) as nat };
        let row = row_edge_count(n, m, i, m);
        assert(right2 == right + r);
        assert(left2 == left + l);
        assert(m * (right2 + left2) + 2 * k * (m - 1) + (right2 + left2) * (m - 1) == m * (right + left) + 2 * i * (
        m - 1) + (right + left) * (m - 1) + row) by (nonlinear_arith)
            requires
                k == i + 1,
                m >= 1,
                right2 == right + r,
                left2 == left + l,
                row == m * (r + l) + (1 + r) * (m - 1) + (1 + l) * (m - 1),
        ;
    } else {
        assert(m * (0nat + 0nat) + 2 * k * (m - 1) + (0nat + 0nat) * (m - 1) == 0) by (nonlinear_arith)
            requires
                k == 0,
        ;
    }
}

/// The triangular grid of `n` rows and `m` columns has `2(n-1)m` edges along its rows,
/// `2n(m-1)` along its columns and `2(n-1)(m-1)` along its diagonals; without rows or columns
/// it has none.
pub proof fn law_grid_edge_count(n: nat, m: nat)
    ensures
        n >= 1 && m >= 1 ==> grid_edge_count(n, m) == 2 * (n - 1) * m + 2 * n * (m - 1) + 2 * (n - 1) * (m - 1),
        n == 0 || m == 0 ==> grid_edge_count(n, m) == 0,
{
    if n >= 1 && m >= 1 {
        lemma_rows_edge_count_closed(n, m, n);
        let t = (n - 1) as nat;
        assert(m * (t + t) + 2 * n * (m - 1) + (t + t) * (m - 1) == 2 * (n - 1) * m + 2 * n * (m - 1) + 2 * (n - 1) * (
        m - 1)) by (nonlinear_arith)
            requires
                t == n - 1,
        ;
    } else if m == 0 {
        lemma_rows_zero_columns(n, n);
    }
}

/// Rows without columns hold no edges.
proof fn lemma_rows_zero_columns(n: nat, k: nat)
    ensures
        rows_edge_count(n, 0, k) == 0,
    decreases k,
{
    if k > 0 {
        lemma_rows_zero_columns(n, (k - 1) as nat);
    }
}

} // verus!
