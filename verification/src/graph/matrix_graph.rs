//! A weighted, directed graph whose nodes are the indices of an adjacency matrix.
use vstd::prelude::*;

use crate::graph::counting::{
    count_some, edge_count, edge_list, lemma_count_some_none, lemma_edge_count_set,
    lemma_edge_list_take, lemma_some_indices_take, lemma_weighted_cells_take, lemma_weighted_row_take,
    row_edges, some_indices, weighted_cells, weighted_row,
};
use crate::graph::{Edge, GraphError};

verus! {

/// The mathematical content of a [`MatrixGraph`]: one optional weight per node slot,
/// one optional weight per cell of the adjacency matrix, and the two counters.
pub struct GraphView<Nw, Ew> {
    pub nodes: Seq<Option<Nw>>,
    pub matrix: Seq<Seq<Option<Ew>>>,
    pub order: nat,
    pub size: nat,
}

/// The matrix of n rows of n empty cells.
pub open spec fn empty_matrix<Ew>(n: nat) -> Seq<Seq<Option<Ew>>> {
    Seq::new(n, |i: int| Seq::new(n, |j: int| None::<Ew>))
}

/// The matrix `m` with the cell `(i, j)` set to `v`.
pub open spec fn set_cell<Ew>(m: Seq<Seq<Option<Ew>>>, i: int, j: int, v: Option<Ew>) -> Seq<
    Seq<Option<Ew>>,
> {
    m.update(i, m[i].update(j, v))
}

/// The matrix that results from writing the weighted edges `es` into `m` one after another:
/// where a pair occurs more than once the last weight stays.
pub open spec fn apply_edges<Ew>(m: Seq<Seq<Option<Ew>>>, es: Seq<(usize, usize, Ew)>) -> Seq<
    Seq<Option<Ew>>,
>
    decreases es.len(),
{
    if es.len() == 0 {
        m
    } else {
        let e = es.last();
        set_cell(apply_edges(m, es.drop_last()), e.0 as int, e.1 as int, Some(e.2))
    }
}

/// Both end points of every edge in `es` are below `n`.
pub open spec fn edges_in_range<Ew>(es: Seq<(usize, usize, Ew)>, n: nat) -> bool {
    forall|k: int| 0 <= k < es.len() ==> #[trigger] es[k].0 < n && es[k].1 < n
}

/// The node that the first edge of `es` with an end point of `n` or more is missing:
/// its start point if that is out of range, its end point otherwise.
pub open spec fn first_missing_node<Ew>(es: Seq<(usize, usize, Ew)>, n: nat) -> usize
    decreases es.len(),
{
    if es.len() == 0 {
        0
    } else if es[0].0 >= n {
        es[0].0
    } else if es[0].1 >= n {
        es[0].1
    } else {
        first_missing_node(es.drop_first(), n)
    }
}

/// The pairs of `es` are pairwise distinct.
pub open spec fn distinct_pairs<Ew>(es: Seq<(usize, usize, Ew)>) -> bool {
    forall|a: int, b: int|
        0 <= a < b < es.len() ==> (#[trigger] es[a].0 != #[trigger] es[b].0 || es[a].1 != es[b].1)
}

impl<Nw, Ew> GraphView<Nw, Ew> {
    /// The shape that every graph keeps: a square matrix with one row per node slot,
    /// `order` counting the occupied node slots, `size` counting the occupied cells,
    /// and every occupied cell joining two nodes.
    pub open spec fn wf(self) -> bool {
        &&& self.matrix.len() == self.nodes.len()
        &&& forall|i: int| 0 <= i < self.matrix.len() ==> #[trigger] self.matrix[i].len() == self.nodes.len()
        &&& self.order == count_some(self.nodes)
        &&& self.size == edge_count(self.matrix)
        &&& self.edges_join_nodes()
    }

    /// Every occupied cell of the matrix lies in the row and the column of a node.
    pub open spec fn edges_join_nodes(self) -> bool {
        forall|i: int, j: int|
            0 <= i < self.nodes.len() && 0 <= j < self.nodes.len() && #[trigger] self.matrix[i][j] is Some
                ==> self.nodes[i] is Some && self.nodes[j] is Some
    }

    pub open spec fn has_node(self, id: usize) -> bool {
        id < self.nodes.len() && self.nodes[id as int] is Some
    }

    pub open spec fn node_weight(self, id: usize) -> Nw {
        self.nodes[id as int]->0
    }

    pub open spec fn has_edge(self, edge: Edge<usize>) -> bool {
        &&& self.has_node(edge.0)
        &&& self.has_node(edge.1)
        &&& self.matrix[edge.0 as int][edge.1 as int] is Some
    }

    pub open spec fn edge_weight(self, edge: Edge<usize>) -> Ew {
        self.matrix[edge.0 as int][edge.1 as int]->0
    }

    /// The ids of the nodes, in increasing order.
    pub open spec fn node_ids(self) -> Seq<usize> {
        some_indices(self.nodes)
    }

    /// The ids to which the row of `id` holds an edge weight, in increasing order.
    pub open spec fn neighbor_ids(self, id: usize) -> Seq<usize> {
        some_indices(self.matrix[id as int])
    }

    /// The ids to which the row of `id` holds an edge weight, with those weights, in increasing order.
    pub open spec fn neighbors(self, id: usize) -> Seq<(usize, Ew)> {
        weighted_row(self.matrix[id as int])
    }

    /// All occupied cells of the matrix with their weights, row by row.
    pub open spec fn edges(self) -> Seq<(Edge<usize>, Ew)> {
        weighted_cells(self.matrix)
    }

    /// All occupied cells of the matrix, row by row.
    pub open spec fn edge_ids(self) -> Seq<Edge<usize>> {
        edge_list(self.matrix)
    }

    /// The number of occupied cells of the matrix.
    pub open spec fn edge_count(self) -> nat {
        edge_count(self.matrix)
    }

    /// `size` equals the number of occupied cells.
    pub open spec fn size_is_exact(self) -> bool {
        self.size == self.edge_count()
    }

    /// The error that adding `edge` gives, if any: `DuplicateEdge` if the edge is there,
    /// else `MissingNode` with the first end point that is not a node.
    pub open spec fn add_edge_error(self, edge: Edge<usize>) -> Option<GraphError<usize>> {
        if self.has_edge(edge) {
            Some(GraphError::DuplicateEdge(edge))
        } else if !self.has_node(edge.0) {
            Some(GraphError::MissingNode(edge.0))
        } else if !self.has_node(edge.1) {
            Some(GraphError::MissingNode(edge.1))
        } else {
            None
        }
    }

    /// The error that changing the weight of `edge` gives, if any:
    /// `MissingNode` with the first end point that is not a node.
    pub open spec fn change_edge_error(self, edge: Edge<usize>) -> Option<GraphError<usize>> {
        if !self.has_node(edge.0) {
            Some(GraphError::MissingNode(edge.0))
        } else if !self.has_node(edge.1) {
            Some(GraphError::MissingNode(edge.1))
        } else {
            None
        }
    }
}

/// A weighted, directed graph stored as an adjacency matrix.
/// Node ids are indices into the matrix; a node id is in the graph when its slot holds a weight.
#[derive(Debug, Clone)]
pub struct MatrixGraph<Nw, Ew> {
    adjacency_matrix: Vec<Vec<Option<Ew>>>,
    node_weights: Vec<Option<Nw>>,
    order: usize,
    size: usize,
}

/// The content of a matrix of vectors.
pub open spec fn rows_view<T>(m: Seq<Vec<T>>) -> Seq<Seq<T>> {
    m.map_values(|r: Vec<T>| r@)
}

impl<Nw, Ew> View for MatrixGraph<Nw, Ew> {
    type V = GraphView<Nw, Ew>;

    closed spec fn view(&self) -> GraphView<Nw, Ew> {
        GraphView {
            nodes: self.node_weights@,
            matrix: rows_view(self.adjacency_matrix@),
            order: self.order as nat,
            size: self.size as nat,
        }
    }
}

/// Builds an `n` by `n` matrix of empty cells.
fn empty_rows<Ew>(n: usize) -> (m: Vec<Vec<Option<Ew>>>)
    ensures
        rows_view(m@) == empty_matrix::<Ew>(n as nat),
{
    let mut m: Vec<Vec<Option<Ew>>> = Vec::with_capacity(n);
    for i in 0..n
        invariant
            m@.len() == i,
            forall|k: int| 0 <= k < i ==> #[trigger] m@[k]@ == Seq::new(n as nat, |j: int| None::<Ew>),
    {
        let mut row: Vec<Option<Ew>> = Vec::with_capacity(n);
        for j in 0..n
            invariant
                row@ == Seq::new(j as nat, |k: int| None::<Ew>),
        {
            row.push(None);
            assert(row@ =~= Seq::new((j + 1) as nat, |k: int| None::<Ew>));
        }
        m.push(row);
    }
    assert(rows_view(m@) =~= empty_matrix::<Ew>(n as nat));
    m
}

/// Builds a vector of `n` empty slots.
fn empty_slots<T>(n: usize) -> (v: Vec<Option<T>>)
    ensures
        v@ == Seq::new(n as nat, |k: int| None::<T>),
{
    let mut v: Vec<Option<T>> = Vec::with_capacity(n);
    for j in 0..n
        invariant
            v@ == Seq::new(j as nat, |k: int| None::<T>),
    {
        v.push(None);
        assert(v@ =~= Seq::new((j + 1) as nat, |k: int| None::<T>));
    }
    v
}

/// An `n` by `n` matrix of empty cells holds no edge.
proof fn lemma_empty_matrix_count<Ew>(n: nat)
    ensures
        edge_count(empty_matrix::<Ew>(n)) == 0,
    decreases n,
{
    if n > 0 {
        let m = empty_matrix::<Ew>(n);
        let r = Seq::new(n, |j: int| None::<Ew>);
        let m2 = Seq::new((n - 1) as nat, |i: int| r);
        assert(m.drop_last() =~= m2);
        lemma_count_some_none::<Ew>(n);
        lemma_rows_count_zero::<Ew>(r, (n - 1) as nat);
    }
}

/// Repeating an empty row any number of times gives a matrix with no edge.
proof fn lemma_rows_count_zero<Ew>(r: Seq<Option<Ew>>, k: nat)
    requires
        count_some(r) == 0,
    ensures
        edge_count(Seq::new(k, |i: int| r)) == 0,
    decreases k,
{
    if k > 0 {
        assert(Seq::new(k, |i: int| r).drop_last() =~= Seq::new((k - 1) as nat, |i: int| r));
        lemma_rows_count_zero(r, (k - 1) as nat);
    }
}

/// Writing in-range edges keeps the matrix square and adds at most one edge per entry.
proof fn lemma_apply_edges_shape<Ew>(n: nat, es: Seq<(usize, usize, Ew)>)
    requires
        edges_in_range(es, n),
    ensures
        apply_edges(empty_matrix::<Ew>(n), es).len() == n,
        forall|i: int| 0 <= i < n ==> #[trigger] apply_edges(empty_matrix::<Ew>(n), es)[i].len() == n,
        edge_count(apply_edges(empty_matrix::<Ew>(n), es)) <= es.len(),
    decreases es.len(),
{
    if es.len() == 0 {
        lemma_empty_matrix_count::<Ew>(n);
    } else {
        let rest = es.drop_last();
        assert(edges_in_range(rest, n)) by {
            assert forall|k: int| 0 <= k < rest.len() implies #[trigger] rest[k].0 < n && rest[k].1 < n by {
                assert(rest[k] == es[k]);
            }
        }
        lemma_apply_edges_shape(n, rest);
        let e = es.last();
        assert(es[es.len() - 1] == e);
        let m = apply_edges(empty_matrix::<Ew>(n), rest);
        lemma_edge_count_set(m, e.0 as int, e.1 as int, Some(e.2));
    }
}

/// When entry `k` is the first with an endpoint out of range, that endpoint is the one reported.
proof fn lemma_first_missing_node<Ew>(es: Seq<(usize, usize, Ew)>, n: nat, k: int)
    requires
        0 <= k < es.len(),
        !(es[k].0 < n && es[k].1 < n),
        forall|l: int| #![trigger es[l]] 0 <= l < k ==> es[l].0 < n && es[l].1 < n,
    ensures
        first_missing_node(es, n) == if es[k].0 >= n {
            es[k].0
        } else {
            es[k].1
        },
    decreases k,
{
    if k > 0 {
        let rest = es.drop_first();
        assert(es[0].0 < n && es[0].1 < n);
        assert forall|l: int| #![trigger rest[l]] 0 <= l < k - 1 implies rest[l].0 < n && rest[l].1 < n by {
            assert(rest[l] == es[l + 1]);
        }
        assert(rest[k - 1] == es[k]);
        lemma_first_missing_node(rest, n, k - 1);
    }
}

impl<Nw, Ew> MatrixGraph<Nw, Ew> {
    /// Creates a new graph from a list of node weights and a list of weighted edges.
    /// The node at `nodes[i]` gets the id `i`.
    /// If an edge has an end point that is not such an id, the first such edge gives
    /// `MissingNode` with its start point if that is out of range, else its end point.
    /// Where an edge occurs twice, the later weight stays; `size` counts each edge once.
    pub fn new(nodes: Vec<Nw>, edges: Vec<(usize, usize, Ew)>) -> (res: Result<Self, GraphError<usize>>)
        ensures
            res is Ok <==> edges_in_range(edges@, nodes@.len()),
            res matches Err(e) ==> e == GraphError::MissingNode(first_missing_node(edges@, nodes@.len())),
            res matches Ok(g) ==> {
                &&& g@.wf()
                &&& g@.nodes == nodes@.map_values(|w: Nw| Some(w))
                &&& g@.matrix == apply_edges(empty_matrix::<Ew>(nodes@.len()), edges@)
                &&& g@.order == nodes@.len()
                &&& g@.size == edge_count(apply_edges(empty_matrix::<Ew>(nodes@.len()), edges@))
                &&& distinct_pairs(edges@) ==> g@.size == edges@.len()
            },
    {
        let node_amount = nodes.len();
        let edge_amount = edges.len();

        // Every edge must connect two of the given nodes.
        let mut k: usize = 0;
        while k < edge_amount
            invariant
                k <= edge_amount,
                edge_amount == edges@.len(),
                node_amount == nodes@.len(),
                forall|l: int| 0 <= l < k ==> #[trigger] edges@[l].0 < node_amount && edges@[l].1 < node_amount,
            decreases edge_amount - k,
        {
            let from = edges[k].0;
            let to = edges[k].1;
            if from >= node_amount || to >= node_amount {
                proof {
                    lemma_first_missing_node(edges@, node_amount as nat, k as int);
                }
                if from >= node_amount {
                    return Err(GraphError::MissingNode(from));
                } else {
                    return Err(GraphError::MissingNode(to));
                }
            }
            k = k + 1;
        }
        let ghost all_edges = edges@;
        assert(edges_in_range(all_edges, node_amount as nat));
        proof {
            lemma_apply_edges_shape(node_amount as nat, all_edges);
        }

        let mut node_weights: Vec<Option<Nw>> = Vec::with_capacity(node_amount);
        let ghost all_nodes = nodes@;
        for w in it: nodes.into_iter()
            invariant
                it.seq() == all_nodes,
                node_weights@ == all_nodes.take(it.index() as int).map_values(|x: Nw| Some(x)),
        {
            proof {
                assert(all_nodes.take(it.index() as int + 1) =~= all_nodes.take(it.index() as int).push(w));
            }
            node_weights.push(Some(w));
            assert(node_weights@ =~= all_nodes.take(it.index() as int + 1).map_values(|x: Nw| Some(x)));
        }
        assert(all_nodes.take(all_nodes.len() as int) =~= all_nodes);

        let mut matrix: Vec<Vec<Option<Ew>>> = empty_rows(node_amount);
        let mut size: usize = 0;
        proof {
            lemma_empty_matrix_count::<Ew>(node_amount as nat);
        }
        for e in it: edges.into_iter()
            invariant
                it.seq() == all_edges,
                all_edges.len() == edge_amount,
                edges_in_range(all_edges, node_amount as nat),
                rows_view(matrix@) == apply_edges(empty_matrix::<Ew>(node_amount as nat), all_edges.take(it.index() as int)),
                size == edge_count(rows_view(matrix@)),
                size <= it.index(),
                forall|i: int| 0 <= i < node_amount ==> #[trigger] apply_edges(empty_matrix::<Ew>(node_amount as nat), all_edges)[i].len() == node_amount,
        {
            let ghost idx = it.index() as int;
            let ghost before = all_edges.take(idx);
            proof {
                assert(all_edges.take(idx + 1).drop_last() =~= before);
                assert(all_edges.take(idx + 1).last() == all_edges[idx]);
                assert(all_edges[idx] == e);
                assert(edges_in_range(before, node_amount as nat)) by {
                    assert forall|k: int| 0 <= k < before.len() implies #[trigger] before[k].0 < node_amount && before[k].1 < node_amount by {
                        assert(before[k] == all_edges[k]);
                    }
                }
                lemma_apply_edges_shape(node_amount as nat, before);
            }
            let (from, to, weight) = e;
            assert(from < node_amount && to < node_amount);
            assert(rows_view(matrix@)[from as int] == matrix@[from as int]@);
            proof {
                lemma_edge_count_set(rows_view(matrix@), from as int, to as int, Some(weight));
            }
            if matrix[from][to].is_none() {
                size = size + 1;
            }
            matrix[from][to] = Some(weight);
            assert(rows_view(matrix@) =~= apply_edges(empty_matrix::<Ew>(node_amount as nat), all_edges.take(idx + 1)));
        }
        assert(all_edges.take(all_edges.len() as int) =~= all_edges);
        proof {
            lemma_count_some_map_some(all_nodes);
            if distinct_pairs(all_edges) {
                lemma_apply_distinct_count(node_amount as nat, all_edges);
            }
        }
        Ok(MatrixGraph {
            adjacency_matrix: matrix,
            node_weights,
            order: node_amount,
            size,
        })
    }
}

impl<Nw, Ew> MatrixGraph<Nw, Ew> {
    /// Creates an empty graph, with no node slots.
    pub fn default() -> (g: Self)
        ensures
            g@.wf(),
            g@.nodes == Seq::<Option<Nw>>::empty(),
            g@.matrix == Seq::<Seq<Option<Ew>>>::empty(),
            g@.order == 0,
            g@.size == 0,
    {
        let g = MatrixGraph {
            adjacency_matrix: Vec::new(),
            node_weights: Vec::new(),
            order: 0,
            size: 0,
        };
        assert(g@.matrix =~= Seq::<Seq<Option<Ew>>>::empty());
        g
    }

    /// Creates a graph without nodes, with room for `size` nodes:
    /// `size` empty node slots and a `size` by `size` matrix of empty cells.
    pub fn with_size(size: usize) -> (g: Self)
        ensures
            g@.wf(),
            g@.nodes == Seq::new(size as nat, |k: int| None::<Nw>),
            g@.matrix == empty_matrix::<Ew>(size as nat),
            g@.order == 0,
            g@.size == 0,
    {
        proof {
            lemma_count_some_none::<Nw>(size as nat);
            lemma_empty_matrix_count::<Ew>(size as nat);
        }
        MatrixGraph {
            adjacency_matrix: empty_rows(size),
            node_weights: empty_slots(size),
            order: 0,
            size: 0,
        }
    }

    /// The node slots: `Some(weight)` for each node id in the graph, `None` for each free id.
    pub fn node_weights(&self) -> (slots: &Vec<Option<Nw>>)
        ensures
            slots@ == self@.nodes,
    {
        &self.node_weights
    }

    /// The adjacency matrix: row `i`, column `j` holds the weight of the edge from `i` to `j`.
    pub fn adjacency_matrix(&self) -> (m: &Vec<Vec<Option<Ew>>>)
        ensures
            rows_view(m@) == self@.matrix,
    {
        &self.adjacency_matrix
    }

    /// Returns true if there are no nodes in the graph, or false otherwise.
    pub fn is_empty(&self) -> (empty: bool)
        ensures
            empty == (self@.order == 0),
    {
        self.order == 0
    }

    /// Returns the number of nodes in this graph.
    pub fn order(&self) -> (order: usize)
        ensures
            order == self@.order,
    {
        self.order
    }

    /// Returns the number of edges in this graph, as counted by the operations that changed it.
    pub fn size(&self) -> (size: usize)
        ensures
            size == self@.size,
    {
        self.size
    }

    /// Returns true if node with id is a member, or false otherwise.
    pub fn has_node(&self, id: usize) -> (present: bool)
        ensures
            present == self@.has_node(id),
    {
        id < self.node_weights.len() && self.node_weights[id].is_some()
    }

    /// Returns the weight of the node with id, or `MissingNode(id)` if it is not in the graph.
    pub fn node_weight(&self, id: usize) -> (res: Result<&Nw, GraphError<usize>>)
        ensures
            res is Ok <==> self@.has_node(id),
            res matches Ok(w) ==> *w == self@.node_weight(id),
            res matches Err(e) ==> e == GraphError::MissingNode(id),
    {
        if id >= self.node_weights.len() {
            return Err(GraphError::MissingNode(id));
        }
        match &self.node_weights[id] {
            Some(w) => Ok(w),
            None => Err(GraphError::MissingNode(id)),
        }
    }

    /// Returns true if the edge exists between two nodes of the graph, or false otherwise.
    pub fn has_edge(&self, edge: Edge<usize>) -> (present: bool)
        requires
            self@.wf(),
        ensures
            present == self@.has_edge(edge),
    {
        let (from, to) = edge;
        if !self.has_node(from) || !self.has_node(to) {
            return false;
        }
        assert(rows_view(self.adjacency_matrix@)[from as int] == self.adjacency_matrix@[from as int]@);
        self.adjacency_matrix[from][to].is_some()
    }

    /// Returns the weight of an edge, or `MissingEdge(edge)` if it is not in the graph.
    pub fn edge_weight(&self, edge: Edge<usize>) -> (res: Result<&Ew, GraphError<usize>>)
        requires
            self@.wf(),
        ensures
            res is Ok <==> self@.has_edge(edge),
            res matches Ok(w) ==> *w == self@.edge_weight(edge),
            res matches Err(e) ==> e == GraphError::MissingEdge(edge),
    {
        if !self.has_edge(edge) {
            return Err(GraphError::MissingEdge(edge));
        }
        let (from, to) = edge;
        assert(rows_view(self.adjacency_matrix@)[from as int] == self.adjacency_matrix@[from as int]@);
        match &self.adjacency_matrix[from][to] {
            Some(w) => Ok(w),
            None => Err(GraphError::MissingEdge(edge)),
        }
    }

    /// Returns the ids of the nodes of this graph, in increasing order.
    pub fn node_ids(&self) -> (ids: Vec<usize>)
        ensures
            ids@ == self@.node_ids(),
    {
        some_positions(&self.node_weights)
    }

    /// Returns the ids to which the node with id has an edge weight in its row, in increasing order,
    /// or `MissingNode(id)` if the node is not in the graph.
    pub fn neighbor_ids(&self, id: usize) -> (res: Result<Vec<usize>, GraphError<usize>>)
        requires
            self@.wf(),
        ensures
            res is Ok <==> self@.has_node(id),
            res matches Ok(ids) ==> ids@ == self@.neighbor_ids(id),
            res matches Err(e) ==> e == GraphError::MissingNode(id),
    {
        if !self.has_node(id) {
            return Err(GraphError::MissingNode(id));
        }
        assert(rows_view(self.adjacency_matrix@)[id as int] == self.adjacency_matrix@[id as int]@);
        Ok(some_positions(&self.adjacency_matrix[id]))
    }

    /// Returns the number of neighbors of the node with id, or `MissingNode(id)` if it is not in the graph.
    pub fn degree(&self, id: usize) -> (res: Result<usize, GraphError<usize>>)
        requires
            self@.wf(),
        ensures
            res is Ok <==> self@.has_node(id),
            res matches Ok(d) ==> d == self@.neighbor_ids(id).len(),
            res matches Err(e) ==> e == GraphError::MissingNode(id),
    {
        match self.neighbor_ids(id) {
            Ok(ids) => Ok(ids.len()),
            Err(e) => Err(e),
        }
    }

    /// Returns the ids to which the node with id has an edge weight in its row, each with a
    /// reference to that weight, in increasing order, or `MissingNode(id)` if the node is not in the graph.
    pub fn neighbors(&self, id: usize) -> (res: Result<Vec<(usize, &Ew)>, GraphError<usize>>)
        requires
            self@.wf(),
        ensures
            res is Ok <==> self@.has_node(id),
            res matches Ok(ns) ==> ns@.map_values(|p: (usize, &Ew)| (p.0, *p.1)) == self@.neighbors(id),
            res matches Err(e) ==> e == GraphError::MissingNode(id),
    {
        if !self.has_node(id) {
            return Err(GraphError::MissingNode(id));
        }
        assert(rows_view(self.adjacency_matrix@)[id as int] == self.adjacency_matrix@[id as int]@);
        let row = &self.adjacency_matrix[id];
        let mut ns: Vec<(usize, &Ew)> = Vec::new();
        let len = row.len();
        for j in 0..len
            invariant
                len == row@.len(),
                ns@.map_values(|p: (usize, &Ew)| (p.0, *p.1)) == weighted_row(row@.take(j as int)),
        {
            proof {
                lemma_weighted_row_take(row@, j as int);
            }
            let ghost before = ns@;
            match &row[j] {
                Some(w) => {
                    ns.push((j, w));
                },
                None => {},
            }
            assert(ns@.map_values(|p: (usize, &Ew)| (p.0, *p.1)) =~= weighted_row(row@.take(j as int + 1)));
        }
        assert(row@.take(len as int) =~= row@);
        Ok(ns)
    }

    /// Returns all edges of the matrix with references to their weights, row by row.
    pub fn edges(&self) -> (es: Vec<(Edge<usize>, &Ew)>)
        requires
            self@.wf(),
        ensures
            es@.map_values(|p: (Edge<usize>, &Ew)| (p.0, *p.1)) == self@.edges(),
    {
        let n = self.adjacency_matrix.len();
        let ghost m = self@.matrix;
        let mut es: Vec<(Edge<usize>, &Ew)> = Vec::new();
        for i in 0..n
            invariant
                n == m.len(),
                m == self@.matrix,
                self@.wf(),
                es@.map_values(|p: (Edge<usize>, &Ew)| (p.0, *p.1)) == weighted_cells(m.take(i as int)),
        {
            assert(rows_view(self.adjacency_matrix@)[i as int] == self.adjacency_matrix@[i as int]@);
            let row = &self.adjacency_matrix[i];
            let ghost start = es@.map_values(|p: (Edge<usize>, &Ew)| (p.0, *p.1));
            let len = row.len();
            for j in 0..len
                invariant
                    len == row@.len(),
                    row@ == m[i as int],
                    es@.map_values(|p: (Edge<usize>, &Ew)| (p.0, *p.1)) == start + weighted_row(row@.take(j as int)).map_values(
                        |p: (usize, Ew)| ((i, p.0), p.1),
                    ),
            {
                let ghost prev = weighted_row(row@.take(j as int));
                let ghost before = es@;
                proof {
                    lemma_weighted_row_take(row@, j as int);
                }
                match &row[j] {
                    Some(w) => {
                        es.push(((i, j), w));
                        proof {
                            let tail = seq![(j, *w)];
                            assert((prev + tail).map_values(|p: (usize, Ew)| ((i, p.0), p.1)) =~= prev.map_values(
                                |p: (usize, Ew)| ((i, p.0), p.1),
                            ).push(((i, j), *w)));
                            assert(es@.map_values(|p: (Edge<usize>, &Ew)| (p.0, *p.1)) =~= before.map_values(
                                |p: (Edge<usize>, &Ew)| (p.0, *p.1),
                            ).push(((i, j), *w)));
                        }
                    },
                    None => {
                        assert(prev + Seq::<(usize, Ew)>::empty() =~= prev);
                    },
                }
                assert(es@.map_values(|p: (Edge<usize>, &Ew)| (p.0, *p.1)) =~= start + weighted_row(
                    row@.take(j as int + 1),
                ).map_values(|p: (usize, Ew)| ((i, p.0), p.1)));
            }
            assert(row@.take(len as int) =~= row@);
            proof {
                lemma_weighted_cells_take(m, i as int);
            }
        }
        assert(m.take(n as int) =~= m);
        es
    }

    /// Returns all edges of the matrix in the form (from_id, to_id), row by row.
    pub fn edge_ids(&self) -> (ids: Vec<Edge<usize>>)
        requires
            self@.wf(),
        ensures
            ids@ == self@.edge_ids(),
    {
        let n = self.adjacency_matrix.len();
        let ghost m = self@.matrix;
        let mut ids: Vec<Edge<usize>> = Vec::new();
        for i in 0..n
            invariant
                n == m.len(),
                m == self@.matrix,
                self@.wf(),
                ids@ == edge_list(m.take(i as int)),
        {
            assert(rows_view(self.adjacency_matrix@)[i as int] == self.adjacency_matrix@[i as int]@);
            let row = &self.adjacency_matrix[i];
            let ghost start = ids@;
            let len = row.len();
            for j in 0..len
                invariant
                    len == row@.len(),
                    row@ == m[i as int],
                    ids@ == start + row_edges(i, row@.take(j as int)),
            {
                proof {
                    lemma_some_indices_take(row@, j as int);
                }
                if row[j].is_some() {
                    ids.push((i, j));
                }
                assert(ids@ =~= start + row_edges(i, row@.take(j as int + 1)));
            }
            assert(row@.take(len as int) =~= row@);
            proof {
                lemma_edge_list_take(m, i as int);
            }
        }
        assert(m.take(n as int) =~= m);
        ids
    }
}

/// The node slots after making room for `id`: when `id` is not below the number of slots,
/// the slots are extended with empty ones up to `id + 2`.
pub open spec fn grown_nodes<Nw>(nodes: Seq<Option<Nw>>, id: usize) -> Seq<Option<Nw>> {
    if id < nodes.len() {
        nodes
    } else {
        nodes + Seq::new((id + 2 - nodes.len()) as nat, |k: int| None::<Nw>)
    }
}

/// The matrix after making room for `id` in a graph of `n` node slots: when `id` is not below
/// `n`, every row and the number of rows are extended with empty cells up to `id + 2`.
pub open spec fn grown_matrix<Ew>(m: Seq<Seq<Option<Ew>>>, n: nat, id: usize) -> Seq<Seq<Option<Ew>>> {
    if id < n {
        m
    } else {
        Seq::new(
            (id + 2) as nat,
            |a: int| Seq::new((id + 2) as nat, |b: int| if a < n && b < n { m[a][b] } else { None }),
        )
    }
}

/// The matrix `m` with the cells `(i, id)` and `(id, i)` emptied for every `i` below `bound`:
/// with `bound` the number of rows, row `id` and column `id` are emptied entirely.
pub open spec fn cleared_matrix<Ew>(m: Seq<Seq<Option<Ew>>>, id: usize, bound: nat) -> Seq<Seq<Option<Ew>>> {
    Seq::new(
        m.len(),
        |a: int|
            Seq::new(
                m.len(),
                |b: int|
                    if (b == id && a < bound) || (a == id && b < bound) {
                        None
                    } else {
                        m[a][b]
                    },
            ),
    )
}

/// The matrix after removing node `id`: row `id` and column `id` are emptied, all other cells stay.
pub open spec fn removed_node_matrix<Ew>(m: Seq<Seq<Option<Ew>>>, id: usize) -> Seq<Seq<Option<Ew>>> {
    cleared_matrix(m, id, m.len())
}

/// Extends `row` with empty cells up to `new_len`.
fn pad_row<T>(row: &mut Vec<Option<T>>, new_len: usize)
    requires
        old(row)@.len() <= new_len,
    ensures
        final(row)@ == old(row)@ + Seq::new((new_len - old(row)@.len()) as nat, |k: int| None::<T>),
{
    let ghost start = row@;
    while row.len() < new_len
        invariant
            start.len() <= row@.len() <= new_len,
            row@ == start + Seq::new((row@.len() - start.len()) as nat, |k: int| None::<T>),
        decreases new_len - row@.len(),
    {
        row.push(None);
        assert(row@ =~= start + Seq::new((row@.len() - start.len()) as nat, |k: int| None::<T>));
    }
}

impl<Nw, Ew> MatrixGraph<Nw, Ew> {
    /// Adds a new node with weight to the graph.
    /// Returns `DuplicateNode(id)` if a node with the same id already exists.
    /// If `id` is beyond the node slots, the slots and the matrix grow to `id + 2`,
    /// with empty slots and cells in between.
    pub fn add_node(&mut self, id: usize, weight: Nw) -> (res: Result<(), GraphError<usize>>)
        requires
            old(self)@.wf(),
            id < old(self)@.nodes.len() || id + 2 <= usize::MAX,
        ensures
            final(self)@.wf(),
            res is Err <==> old(self)@.has_node(id),
            res matches Err(e) ==> e == GraphError::DuplicateNode(id) && final(self)@ == old(self)@,
            res is Ok ==> {
                &&& final(self)@.nodes == grown_nodes(old(self)@.nodes, id).update(id as int, Some(weight))
                &&& final(self)@.matrix == grown_matrix(old(self)@.matrix, old(self)@.nodes.len(), id)
                &&& final(self)@.order == old(self)@.order + 1
                &&& final(self)@.size == old(self)@.size
                &&& final(self)@.edge_count() == old(self)@.edge_count()
            },
    {
        if self.has_node(id) {
            return Err(GraphError::DuplicateNode(id));
        }
        let ghost old_view = self@;
        let old_len = self.node_weights.len();
        if old_len <= id {
            let new_len = id + 2;
            pad_row(&mut self.node_weights, new_len);
            proof {
                lemma_count_some_pad(old_view.nodes, (new_len - old_len) as nat);
            }
            for i in 0..old_len
                invariant
                    old_len == old_view.nodes.len(),
                    new_len == id + 2,
                    old_len < new_len,
                    self.adjacency_matrix@.len() == old_len,
                    old_view.wf(),
                    self.order == old_view.order,
                    self.size == old_view.size,
                    self.node_weights@ == old_view.nodes + Seq::new((new_len - old_len) as nat, |k: int| None::<Nw>),
                    forall|a: int| 0 <= a < i ==> #[trigger] self.adjacency_matrix@[a]@ == old_view.matrix[a]
                        + Seq::new((new_len - old_len) as nat, |k: int| None::<Ew>),
                    forall|a: int| i <= a < old_len ==> #[trigger] self.adjacency_matrix@[a]@ == old_view.matrix[a],
                    edge_count(rows_view(self.adjacency_matrix@)) == edge_count(old_view.matrix),
            {
                let ghost before = rows_view(self.adjacency_matrix@);
                assert(before[i as int] == old_view.matrix[i as int]);
                pad_row(&mut self.adjacency_matrix[i], new_len);
                proof {
                    let padded = old_view.matrix[i as int] + Seq::new((new_len - old_len) as nat, |k: int| None::<Ew>);
                    assert(rows_view(self.adjacency_matrix@) =~= before.update(i as int, padded));
                    crate::graph::counting::lemma_edge_count_update(before, i as int, padded);
                    lemma_count_some_pad(old_view.matrix[i as int], (new_len - old_len) as nat);
                }
            }
            for k in old_len..new_len
                invariant
                    old_len == old_view.nodes.len(),
                    new_len == id + 2,
                    self.adjacency_matrix@.len() == k,
                    self.order == old_view.order,
                    self.size == old_view.size,
                    self.node_weights@ == old_view.nodes + Seq::new((new_len - old_len) as nat, |k: int| None::<Nw>),
                    forall|a: int| 0 <= a < old_len ==> #[trigger] self.adjacency_matrix@[a]@ == old_view.matrix[a]
                        + Seq::new((new_len - old_len) as nat, |k: int| None::<Ew>),
                    forall|a: int| old_len <= a < k ==> #[trigger] self.adjacency_matrix@[a]@ == Seq::new(new_len as nat, |k: int| None::<Ew>),
                    edge_count(rows_view(self.adjacency_matrix@)) == edge_count(old_view.matrix),
            {
                let ghost before = rows_view(self.adjacency_matrix@);
                let row: Vec<Option<Ew>> = empty_slots(new_len);
                self.adjacency_matrix.push(row);
                proof {
                    assert(rows_view(self.adjacency_matrix@) =~= before.push(row@));
                    assert(before.push(row@).drop_last() =~= before);
                    lemma_count_some_none::<Ew>(new_len as nat);
                }
            }
            proof {
                let g = grown_matrix(old_view.matrix, old_len as nat, id);
                let cur = rows_view(self.adjacency_matrix@);
                assert forall|a: int| 0 <= a < new_len implies #[trigger] cur[a] =~= g[a] by {
                    if a < old_len {
                        assert(old_view.matrix[a].len() == old_len);
                    }
                }
                assert(cur =~= g);
                assert(self.node_weights@ =~= grown_nodes(old_view.nodes, id));
            }
        }
        let ghost grown = self@;
        assert(grown.nodes == grown_nodes(old_view.nodes, id));
        assert(grown.matrix == grown_matrix(old_view.matrix, old_len as nat, id));
        assert(grown.size == old_view.size);
        assert(edge_count(grown.matrix) == edge_count(old_view.matrix));
        assert(grown.matrix.len() == grown.nodes.len());
        assert(forall|i: int| 0 <= i < grown.matrix.len() ==> #[trigger] grown.matrix[i].len() == grown.nodes.len());
        assert(self.order == count_some(grown.nodes));
        assert(grown.nodes[id as int] is None);
        proof {
            crate::graph::counting::lemma_count_some_update(grown.nodes, id as int, Some(weight));
            crate::graph::counting::lemma_count_some_bound(grown.nodes.update(id as int, Some(weight)));
        }
        self.node_weights.set(id, Some(weight));
        self.order = self.order + 1;
        Ok(())
    }

    /// Removes a weighted edge from the graph; does nothing if the edge is not in the graph.
    pub fn remove_edge(&mut self, edge: Edge<usize>)
        requires
            old(self)@.wf(),
        ensures
            final(self)@.wf(),
            final(self)@.nodes == old(self)@.nodes,
            final(self)@.order == old(self)@.order,
            old(self)@.has_edge(edge) ==> {
                &&& final(self)@.matrix == set_cell(old(self)@.matrix, edge.0 as int, edge.1 as int, None)
                &&& final(self)@.size == old(self)@.size - 1
            },
            !old(self)@.has_edge(edge) ==> final(self)@ == old(self)@,
            !final(self)@.has_edge(edge),
            final(self)@.size - final(self)@.edge_count() == old(self)@.size - old(self)@.edge_count(),
    {
        if self.has_edge(edge) {
            let ghost m = self@.matrix;
            proof {
                lemma_edge_count_set(m, edge.0 as int, edge.1 as int, None);
            }
            self.adjacency_matrix[edge.0][edge.1] = None;
            self.size = self.size - 1;
            assert(self@.matrix =~= set_cell(m, edge.0 as int, edge.1 as int, None));
        }
    }

    /// Adds a new weighted edge to the graph.
    /// Returns `DuplicateEdge(edge)` if the edge already exists, else `MissingNode` with the
    /// first end point that is not in the graph.
    pub fn add_edge(&mut self, edge: Edge<usize>, weight: Ew) -> (res: Result<(), GraphError<usize>>)
        requires
            old(self)@.wf(),
            old(self)@.size < usize::MAX,
        ensures
            final(self)@.wf(),
            res is Ok <==> old(self)@.add_edge_error(edge) is None,
            res matches Err(e) ==> final(self)@ == old(self)@ && old(self)@.add_edge_error(edge) == Some(e),
            res is Ok ==> {
                &&& final(self)@.nodes == old(self)@.nodes
                &&& final(self)@.order == old(self)@.order
                &&& final(self)@.matrix == set_cell(old(self)@.matrix, edge.0 as int, edge.1 as int, Some(weight))
                &&& final(self)@.size == old(self)@.size + 1
                &&& final(self)@.has_edge(edge)
                &&& final(self)@.edge_weight(edge) == weight
            },
            final(self)@.size - final(self)@.edge_count() == old(self)@.size - old(self)@.edge_count(),
    {
        let (from, to) = edge;
        if self.has_edge(edge) {
            return Err(GraphError::DuplicateEdge(edge));
        } else if !self.has_node(from) {
            return Err(GraphError::MissingNode(from));
        } else if !self.has_node(to) {
            return Err(GraphError::MissingNode(to));
        }
        let ghost m = self@.matrix;
        proof {
            lemma_edge_count_set(m, from as int, to as int, Some(weight));
        }
        self.adjacency_matrix[from][to] = Some(weight);
        self.size = self.size + 1;
        assert(self@.matrix =~= set_cell(m, from as int, to as int, Some(weight)));
        Ok(())
    }

    /// Changes the weight of an edge to the new weight.
    /// If the edge did not exist before, it is added as by [`MatrixGraph::add_edge`],
    /// which fails if one of its nodes is not in the graph.
    pub fn change_edge(&mut self, edge: Edge<usize>, weight: Ew) -> (res: Result<(), GraphError<usize>>)
        requires
            old(self)@.wf(),
            old(self)@.size < usize::MAX,
        ensures
            final(self)@.wf(),
            res is Ok <==> old(self)@.change_edge_error(edge) is None,
            res matches Err(e) ==> final(self)@ == old(self)@ && old(self)@.change_edge_error(edge) == Some(e),
            res is Ok ==> {
                &&& final(self)@.nodes == old(self)@.nodes
                &&& final(self)@.order == old(self)@.order
                &&& final(self)@.matrix == set_cell(old(self)@.matrix, edge.0 as int, edge.1 as int, Some(weight))
                &&& final(self)@.size == if old(self)@.has_edge(edge) {
                    old(self)@.size
                } else {
                    old(self)@.size + 1
                }
                &&& final(self)@.has_edge(edge)
                &&& final(self)@.edge_weight(edge) == weight
            },
            final(self)@.size - final(self)@.edge_count() == old(self)@.size - old(self)@.edge_count(),
    {
        if self.has_edge(edge) {
            let ghost m = self@.matrix;
            proof {
                lemma_edge_count_set(m, edge.0 as int, edge.1 as int, Some(weight));
            }
            self.adjacency_matrix[edge.0][edge.1] = Some(weight);
            assert(self@.matrix =~= set_cell(m, edge.0 as int, edge.1 as int, Some(weight)));
            Ok(())
        } else {
            self.add_edge(edge, weight)
        }
    }

    /// Changes the weight of a node to the new weight.
    /// Adds the node as by [`MatrixGraph::add_node`] if it was not in the graph before.
    pub fn change_node(&mut self, id: usize, weight: Nw)
        requires
            old(self)@.wf(),
            id < old(self)@.nodes.len() || id + 2 <= usize::MAX,
        ensures
            final(self)@.wf(),
            final(self)@.has_node(id),
            final(self)@.node_weight(id) == weight,
            final(self)@.size == old(self)@.size,
            final(self)@.edge_count() == old(self)@.edge_count(),
            old(self)@.has_node(id) ==> {
                &&& final(self)@.nodes == old(self)@.nodes.update(id as int, Some(weight))
                &&& final(self)@.matrix == old(self)@.matrix
                &&& final(self)@.order == old(self)@.order
            },
            !old(self)@.has_node(id) ==> {
                &&& final(self)@.nodes == grown_nodes(old(self)@.nodes, id).update(id as int, Some(weight))
                &&& final(self)@.matrix == grown_matrix(old(self)@.matrix, old(self)@.nodes.len(), id)
                &&& final(self)@.order == old(self)@.order + 1
            },
    {
        if self.has_node(id) {
            proof {
                crate::graph::counting::lemma_count_some_update(self@.nodes, id as int, Some(weight));
            }
            self.node_weights.set(id, Some(weight));
        } else {
            let _ = self.add_node(id, weight);
        }
    }

    /// Removes a node from the graph; does nothing if the node is not in the graph.
    /// All edges from or to the node are removed with it.
    pub fn remove_node(&mut self, id: usize)
        requires
            old(self)@.wf(),
        ensures
            final(self)@.wf(),
            !old(self)@.has_node(id) ==> final(self)@ == old(self)@,
            old(self)@.has_node(id) ==> {
                &&& final(self)@.nodes == old(self)@.nodes.update(id as int, None)
                &&& final(self)@.matrix == removed_node_matrix(old(self)@.matrix, id)
                &&& final(self)@.order == old(self)@.order - 1
            },
            !final(self)@.has_node(id),
            forall|j: usize| !final(self)@.has_edge((id, j)) && !final(self)@.has_edge((j, id)),
    {
        if !self.has_node(id) {
            return;
        }
        let ghost start = self@;
        let n = self.node_weights.len();
        proof {
            let z = cleared_matrix(start.matrix, id, 0);
            assert forall|a: int| 0 <= a < start.matrix.len() implies #[trigger] z[a] =~= start.matrix[a] by {}
            assert(z =~= start.matrix);
        }
        for i in 0..n
            invariant
                start.wf(),
                start.has_node(id),
                self@.wf(),
                self@.nodes == start.nodes,
                self@.order == start.order,
                n == start.nodes.len(),
                self@.matrix == cleared_matrix(start.matrix, id, i as nat),
        {
            let ghost before = self@.matrix;
            self.remove_edge((i, id));
            let ghost middle = self@.matrix;
            self.remove_edge((id, i));
            proof {
                let target = cleared_matrix(start.matrix, id, (i + 1) as nat);
                let len = start.matrix.len();
                assert forall|a: int| 0 <= a < len implies #[trigger] self@.matrix[a] =~= target[a] by {
                    assert forall|b: int| 0 <= b < len implies self@.matrix[a][b] == target[a][b] by {
                        assert(before[a][b] == cleared_matrix(start.matrix, id, i as nat)[a][b]);
                        if a == i && b == id {
                            if before[a][b] is Some {
                                assert(self@.nodes[a] is Some);
                            }
                        }
                        if a == id && b == i {
                            if middle[a][b] is Some {
                                assert(self@.nodes[b] is Some);
                            }
                        }
                    }
                }
                assert(self@.matrix =~= target);
            }
        }
        let ghost m = self@;
        proof {
            crate::graph::counting::lemma_count_some_update(m.nodes, id as int, None);
        }
        self.node_weights.set(id, None);
        self.order = self.order - 1;
        proof {
            let v = self@;
            assert forall|i: int, j: int|
                0 <= i < v.nodes.len() && 0 <= j < v.nodes.len() && #[trigger] v.matrix[i][j] is Some
                implies v.nodes[i] is Some && v.nodes[j] is Some by {
                assert(m.matrix[i][j] is Some);
            }
        }
    }
}

impl<Nw, Ew> MatrixGraph<Nw, Ew> {
    /// Creates a new graph from a list of node weights and a list of weighted edges,
    /// exactly as [`MatrixGraph::new`]: the node at `nodes[i]` gets the id `i`.
    pub fn new_usize_indexed(nodes: Vec<Nw>, edges: Vec<(usize, usize, Ew)>) -> (res: Result<Self, GraphError<usize>>)
        ensures
            res is Ok <==> edges_in_range(edges@, nodes@.len()),
            res matches Err(e) ==> e == GraphError::MissingNode(first_missing_node(edges@, nodes@.len())),
            res matches Ok(g) ==> {
                &&& g@.wf()
                &&& g@.nodes == nodes@.map_values(|w: Nw| Some(w))
                &&& g@.matrix == apply_edges(empty_matrix::<Ew>(nodes@.len()), edges@)
                &&& g@.order == nodes@.len()
                &&& g@.size == edge_count(apply_edges(empty_matrix::<Ew>(nodes@.len()), edges@))
                &&& distinct_pairs(edges@) ==> g@.size == edges@.len()
            },
    {
        Self::new(nodes, edges)
    }
}

/// The unweighted edges `es`, each carrying the unit weight.
pub open spec fn unit_weighted(es: Seq<Edge<usize>>) -> Seq<(usize, usize, ())> {
    es.map_values(|e: Edge<usize>| (e.0, e.1, ()))
}

impl MatrixGraph<(), ()> {
    /// Constructs an unweighted graph with the nodes `0..nodes` and the given edges.
    /// Fails with `MissingNode` as [`MatrixGraph::new`] does for an edge with an end point
    /// of `nodes` or more.
    pub fn new_unweighted(nodes: usize, edges: &[Edge<usize>]) -> (res: Result<Self, GraphError<usize>>)
        ensures
            res is Ok <==> edges_in_range(unit_weighted(edges@), nodes as nat),
            res matches Err(e) ==> e == GraphError::MissingNode(first_missing_node(unit_weighted(edges@), nodes as nat)),
            res matches Ok(g) ==> {
                &&& g@.wf()
                &&& g@.nodes == Seq::new(nodes as nat, |k: int| Some(()))
                &&& g@.matrix == apply_edges(empty_matrix::<()>(nodes as nat), unit_weighted(edges@))
                &&& g@.order == nodes
                &&& g@.size == edge_count(apply_edges(empty_matrix::<()>(nodes as nat), unit_weighted(edges@)))
            },
    {
        let mut node_list: Vec<()> = Vec::with_capacity(nodes);
        for k in 0..nodes
            invariant
                node_list@.len() == k,
        {
            node_list.push(());
        }
        let mut weighted: Vec<(usize, usize, ())> = Vec::with_capacity(edges.len());
        for k in 0..edges.len()
            invariant
                weighted@ == unit_weighted(edges@.take(k as int)),
        {
            let (from, to) = edges[k];
            weighted.push((from, to, ()));
            assert(weighted@ =~= unit_weighted(edges@.take(k as int + 1)));
        }
        assert(edges@.take(edges@.len() as int) =~= edges@);
        let res = Self::new(node_list, weighted);
        assert(node_list@.map_values(|w: ()| Some(w)) =~= Seq::new(nodes as nat, |k: int| Some(())));
        res
    }

    /// Constructs an empty unweighted graph.
    pub fn default_unweighted() -> (g: Self)
        ensures
            g@.wf(),
            g@.nodes == Seq::<Option<()>>::empty(),
            g@.matrix == Seq::<Seq<Option<()>>>::empty(),
            g@.order == 0,
            g@.size == 0,
    {
        MatrixGraph::default()
    }

    /// Constructs an unweighted graph without nodes, with room for `size` nodes.
    pub fn unweighted_with_size(size: usize) -> (g: Self)
        ensures
            g@.wf(),
            g@.nodes == Seq::new(size as nat, |k: int| None::<()>),
            g@.matrix == empty_matrix::<()>(size as nat),
            g@.order == 0,
            g@.size == 0,
    {
        MatrixGraph::with_size(size)
    }
}

/// Extending a sequence with empty slots does not change how many slots hold a value.
proof fn lemma_count_some_pad<T>(s: Seq<Option<T>>, k: nat)
    ensures
        count_some(s + Seq::new(k, |j: int| None::<T>)) == count_some(s),
    decreases k,
{
    if k > 0 {
        let t = s + Seq::new(k, |j: int| None::<T>);
        assert(t.drop_last() =~= s + Seq::new((k - 1) as nat, |j: int| None::<T>));
        lemma_count_some_pad(s, (k - 1) as nat);
    } else {
        assert(s + Seq::new(k, |j: int| None::<T>) =~= s);
    }
}

/// The positions of `v` that hold a value, in increasing order.
fn some_positions<T>(v: &Vec<Option<T>>) -> (ids: Vec<usize>)
    ensures
        ids@ == some_indices(v@),
{
    let mut ids: Vec<usize> = Vec::new();
    let len = v.len();
    for j in 0..len
        invariant
            len == v@.len(),
            ids@ == some_indices(v@.take(j as int)),
    {
        proof {
            lemma_some_indices_take(v@, j as int);
        }
        if v[j].is_some() {
            ids.push(j);
        }
        assert(ids@ =~= some_indices(v@.take(j as int + 1)));
    }
    assert(v@.take(len as int) =~= v@);
    ids
}

/// A filled cell of the built matrix comes from some entry of the edge list.
proof fn lemma_apply_edges_cell<Ew>(n: nat, es: Seq<(usize, usize, Ew)>, a: int, b: int)
    requires
        edges_in_range(es, n),
        0 <= a < n,
        0 <= b < n,
        apply_edges(empty_matrix::<Ew>(n), es)[a][b] is Some,
    ensures
        exists|k: int| 0 <= k < es.len() && #[trigger] es[k].0 == a && es[k].1 == b,
    decreases es.len(),
{
    if es.len() > 0 {
        let rest = es.drop_last();
        let e = es.last();
        assert(es[es.len() - 1] == e);
        assert(edges_in_range(rest, n)) by {
            assert forall|k: int| 0 <= k < rest.len() implies #[trigger] rest[k].0 < n && rest[k].1 < n by {
                assert(rest[k] == es[k]);
            }
        }
        lemma_apply_edges_shape(n, rest);
        if e.0 == a && e.1 == b {
            assert(es[es.len() - 1].0 == a);
        } else {
            lemma_apply_edges_cell(n, rest, a, b);
            let k = choose|k: int| 0 <= k < rest.len() && #[trigger] rest[k].0 == a && rest[k].1 == b;
            assert(rest[k] == es[k]);
        }
    }
}

/// Writing pairwise distinct in-range edges gives exactly one edge per entry.
proof fn lemma_apply_distinct_count<Ew>(n: nat, es: Seq<(usize, usize, Ew)>)
    requires
        edges_in_range(es, n),
        distinct_pairs(es),
    ensures
        edge_count(apply_edges(empty_matrix::<Ew>(n), es)) == es.len(),
    decreases es.len(),
{
    if es.len() == 0 {
        lemma_empty_matrix_count::<Ew>(n);
    } else {
        let rest = es.drop_last();
        let e = es.last();
        assert(es[es.len() - 1] == e);
        assert(edges_in_range(rest, n)) by {
            assert forall|k: int| 0 <= k < rest.len() implies #[trigger] rest[k].0 < n && rest[k].1 < n by {
                assert(rest[k] == es[k]);
            }
        }
        assert(distinct_pairs(rest)) by {
            assert forall|x: int, y: int| 0 <= x < y < rest.len() implies (#[trigger] rest[x].0 != #[trigger] rest[y].0 || rest[x].1 != rest[y].1) by {
                assert(rest[x] == es[x] && rest[y] == es[y]);
            }
        }
        lemma_apply_distinct_count(n, rest);
        lemma_apply_edges_shape(n, rest);
        let m = apply_edges(empty_matrix::<Ew>(n), rest);
        if m[e.0 as int][e.1 as int] is Some {
            lemma_apply_edges_cell(n, rest, e.0 as int, e.1 as int);
            let k = choose|k: int| 0 <= k < rest.len() && #[trigger] rest[k].0 == e.0 && rest[k].1 == e.1;
            assert(rest[k] == es[k]);
            assert(es[k].0 == es[es.len() - 1].0);
        }
        lemma_edge_count_set(m, e.0 as int, e.1 as int, Some(e.2));
    }
}

/// Wrapping every element in `Some` gives as many filled cells as elements.
proof fn lemma_count_some_map_some<T>(s: Seq<T>)
    ensures
        count_some(s.map_values(|x: T| Some(x))) == s.len(),
    decreases s.len(),
{
    if s.len() > 0 {
        assert(s.map_values(|x: T| Some(x)).drop_last() =~= s.drop_last().map_values(|x: T| Some(x)));
        lemma_count_some_map_some(s.drop_last());
    }
}

} // verus!

verus! {

impl<Nw, Ew> crate::graph::GenericWeightedGraph for MatrixGraph<Nw, Ew> {
    type IndexType = usize;
    type NodeWeightType = Nw;
    type EdgeWeightType = Ew;

    open spec fn graph_wf(&self) -> bool {
        self@.wf()
    }

    open spec fn spec_order(&self) -> nat {
        self@.order
    }

    open spec fn spec_size(&self) -> nat {
        self@.size
    }

    open spec fn spec_node_ids(&self) -> Seq<usize> {
        self@.node_ids()
    }

    open spec fn spec_has_node(&self, id: usize) -> bool {
        self@.has_node(id)
    }

    open spec fn spec_node_weight(&self, id: usize) -> Nw {
        self@.node_weight(id)
    }

    open spec fn spec_neighbor_ids(&self, id: usize) -> Seq<usize> {
        self@.neighbor_ids(id)
    }

    open spec fn node_error(&self, id: usize) -> GraphError<usize> {
        GraphError::MissingNode(id)
    }

    open spec fn node_queryable(&self, id: usize) -> bool {
        true
    }

    open spec fn spec_has_edge(&self, edge: Edge<usize>) -> bool {
        self@.has_edge(edge)
    }

    open spec fn spec_edge_weight(&self, edge: Edge<usize>) -> Ew {
        self@.edge_weight(edge)
    }

    open spec fn edge_error(&self, edge: Edge<usize>) -> GraphError<usize> {
        GraphError::MissingEdge(edge)
    }

    open spec fn edge_queryable(&self, edge: Edge<usize>) -> bool {
        true
    }

    open spec fn spec_edge_ids(&self) -> Seq<Edge<usize>> {
        self@.edge_ids()
    }

    open spec fn edges_listable(&self) -> bool {
        true
    }

    open spec fn spec_neighbors(&self, id: usize) -> Seq<(usize, Ew)> {
        self@.neighbors(id)
    }

    open spec fn spec_edges(&self) -> Seq<(Edge<usize>, Ew)> {
        self@.edges()
    }

    open spec fn node_room(&self, id: usize) -> bool {
        id < self@.nodes.len() || id + 2 <= usize::MAX
    }

    open spec fn add_node_error(&self, id: usize) -> Option<GraphError<usize>> {
        if self@.has_node(id) {
            Some(GraphError::DuplicateNode(id))
        } else {
            None
        }
    }

    open spec fn node_changeable(&self, id: usize) -> bool {
        id < self@.nodes.len() || id + 2 <= usize::MAX
    }

    open spec fn edge_room(&self, edge: Edge<usize>) -> bool {
        self@.size < usize::MAX
    }

    open spec fn add_edge_error(&self, edge: Edge<usize>) -> Option<GraphError<usize>> {
        self@.add_edge_error(edge)
    }

    open spec fn edge_changeable(&self, edge: Edge<usize>) -> bool {
        self@.size < usize::MAX
    }

    open spec fn change_edge_error(&self, edge: Edge<usize>) -> Option<GraphError<usize>> {
        self@.change_edge_error(edge)
    }

    open spec fn edge_removable(&self, edge: Edge<usize>) -> bool {
        true
    }

    fn is_empty(&self) -> (empty: bool) {
        MatrixGraph::is_empty(self)
    }

    fn order(&self) -> (order: usize) {
        MatrixGraph::order(self)
    }

    fn size(&self) -> (size: usize) {
        MatrixGraph::size(self)
    }

    fn node_ids(&self) -> (ids: Vec<usize>) {
        MatrixGraph::node_ids(self)
    }

    fn node_weight(&self, id: usize) -> (res: Result<&Nw, GraphError<usize>>) {
        MatrixGraph::node_weight(self, id)
    }

    fn neighbor_ids(&self, id: usize) -> (res: Result<Vec<usize>, GraphError<usize>>) {
        MatrixGraph::neighbor_ids(self, id)
    }

    fn has_node(&self, id: usize) -> (present: bool) {
        MatrixGraph::has_node(self, id)
    }

    fn degree(&self, id: usize) -> (res: Result<usize, GraphError<usize>>) {
        MatrixGraph::degree(self, id)
    }

    fn edge_ids(&self) -> (ids: Vec<Edge<usize>>) {
        MatrixGraph::edge_ids(self)
    }

    fn edge_weight(&self, edge: Edge<usize>) -> (res: Result<&Ew, GraphError<usize>>) {
        MatrixGraph::edge_weight(self, edge)
    }

    fn has_edge(&self, edge: Edge<usize>) -> (present: bool) {
        MatrixGraph::has_edge(self, edge)
    }

    fn neighbors(&self, id: usize) -> (res: Result<Vec<(usize, &Ew)>, GraphError<usize>>) {
        MatrixGraph::neighbors(self, id)
    }

    fn edges(&self) -> (es: Vec<(Edge<usize>, &Ew)>) {
        MatrixGraph::edges(self)
    }

    fn add_node(&mut self, id: usize, weight: Nw) -> (res: Result<(), GraphError<usize>>) {
        MatrixGraph::add_node(self, id, weight)
    }

    fn remove_node(&mut self, id: usize) {
        MatrixGraph::remove_node(self, id)
    }

    fn change_node(&mut self, id: usize, weight: Nw) {
        MatrixGraph::change_node(self, id, weight)
    }

    fn add_edge(&mut self, edge: Edge<usize>, weight: Ew) -> (res: Result<(), GraphError<usize>>) {
        MatrixGraph::add_edge(self, edge, weight)
    }

    fn remove_edge(&mut self, edge: Edge<usize>) {
        MatrixGraph::remove_edge(self, edge)
    }

    fn change_edge(&mut self, edge: Edge<usize>, weight: Ew) -> (res: Result<(), GraphError<usize>>) {
        MatrixGraph::change_edge(self, edge, weight)
    }
}

} // verus!
