//! What the operations of a [`MatrixGraph`](crate::graph::MatrixGraph) promise together.
use vstd::prelude::*;

use crate::graph::counting::{
    count_some, edge_list, lemma_edge_list_len, lemma_some_indices_len, lemma_weighted_cells_keys,
    lemma_weighted_row_indices, row_edges, some_indices, weighted_cells, weighted_row,
};
use crate::graph::matrix_graph::{grown_matrix, grown_nodes, set_cell, GraphView};
use crate::graph::{Edge, GenericWeightedGraph, MatrixGraph};

verus! {

/// An id is among the indices of the occupied slots exactly when its slot is occupied.
proof fn lemma_some_indices_contains<T>(s: Seq<Option<T>>, id: usize)
    requires
        s.len() <= usize::MAX,
    ensures
        some_indices(s).contains(id) <==> (id < s.len() && s[id as int] is Some),
    decreases s.len(),
{
    if s.len() > 0 {
        let rest = s.drop_last();
        lemma_some_indices_contains(rest, id);
        lemma_some_indices_len(rest);
        let tail = if s.last() is Some {
            seq![(s.len() - 1) as usize]
        } else {
            Seq::<usize>::empty()
        };
        assert(some_indices(s) == some_indices(rest) + tail);
        if some_indices(s).contains(id) {
            let k = choose|k: int| 0 <= k < some_indices(s).len() && some_indices(s)[k] == id;
            if k >= some_indices(rest).len() {
                assert(tail[k - some_indices(rest).len()] == id);
            } else {
                assert(some_indices(rest)[k] == id);
            }
        }
        if id < s.len() && s[id as int] is Some {
            if id == s.len() - 1 {
                assert(some_indices(s)[some_indices(rest).len() as int] == id);
            } else {
                assert(rest[id as int] == s[id as int]);
                let k = choose|k: int| 0 <= k < some_indices(rest).len() && some_indices(rest)[k] == id;
                assert(some_indices(s)[k] == id);
            }
        }
    }
}

/// The number of nodes of a graph is the number of node ids it lists.
pub proof fn law_order_counts_node_ids<Nw, Ew>(v: GraphView<Nw, Ew>)
    requires
        v.wf(),
    ensures
        v.order == v.node_ids().len(),
{
    lemma_some_indices_len(v.nodes);
}

/// A graph lists a node id exactly when the node is in the graph.
pub proof fn law_node_ids_are_the_nodes<Nw, Ew>(v: GraphView<Nw, Ew>, id: usize)
    requires
        v.nodes.len() <= usize::MAX,
    ensures
        v.node_ids().contains(id) <==> v.has_node(id),
{
    lemma_some_indices_contains(v.nodes, id);
}

/// The size of a graph is the number of edges it lists.
pub proof fn law_size_counts_edge_ids<Nw, Ew>(v: GraphView<Nw, Ew>)
    requires
        v.wf(),
    ensures
        v.size == v.edge_ids().len(),
{
    lemma_edge_list_len(v.matrix);
}

/// Every pair in the edge list of a matrix names an occupied cell.
proof fn lemma_edge_list_cells<T>(m: Seq<Seq<Option<T>>>, edge: Edge<usize>)
    requires
        m.len() <= usize::MAX,
        forall|i: int| 0 <= i < m.len() ==> #[trigger] m[i].len() <= usize::MAX,
        edge_list(m).contains(edge),
    ensures
        edge.0 < m.len(),
        edge.1 < m[edge.0 as int].len(),
        m[edge.0 as int][edge.1 as int] is Some,
    decreases m.len(),
{
    let rest = m.drop_last();
    let last = (m.len() - 1) as usize;
    let row = row_edges(last, m.last());
    assert(edge_list(m) == edge_list(rest) + row);
    let k = choose|k: int| 0 <= k < edge_list(m).len() && edge_list(m)[k] == edge;
    if k < edge_list(rest).len() {
        assert(edge_list(rest)[k] == edge);
        assert forall|i: int| 0 <= i < rest.len() implies #[trigger] rest[i].len() <= usize::MAX by {
            assert(rest[i] == m[i]);
        }
        lemma_edge_list_cells(rest, edge);
        assert(rest[edge.0 as int] == m[edge.0 as int]);
    } else {
        let r = k - edge_list(rest).len();
        assert(row[r] == edge);
        assert(some_indices(m.last())[r] == edge.1);
        assert(some_indices(m.last()).contains(edge.1));
        lemma_some_indices_contains(m.last(), edge.1);
        assert(m.last() == m[last as int]);
    }
}

/// Every edge that a graph lists joins two nodes of the graph and is an edge of it.
pub proof fn law_listed_edges_join_nodes<Nw, Ew>(v: GraphView<Nw, Ew>, edge: Edge<usize>)
    requires
        v.wf(),
        v.nodes.len() <= usize::MAX,
    ensures
        v.edge_ids().contains(edge) ==> v.has_node(edge.0) && v.has_node(edge.1) && v.has_edge(edge),
{
    if v.edge_ids().contains(edge) {
        lemma_edge_list_cells(v.matrix, edge);
        assert(v.matrix[edge.0 as int][edge.1 as int] is Some);
    }
}

/// The graph after a successful `add_edge(edge, weight)`.
pub open spec fn with_edge<Nw, Ew>(v: GraphView<Nw, Ew>, edge: Edge<usize>, weight: Ew) -> GraphView<Nw, Ew> {
    GraphView {
        nodes: v.nodes,
        matrix: set_cell(v.matrix, edge.0 as int, edge.1 as int, Some(weight)),
        order: v.order,
        size: v.size + 1,
    }
}

/// The graph after `remove_edge(edge)` of an edge that is in it.
pub open spec fn without_edge<Nw, Ew>(v: GraphView<Nw, Ew>, edge: Edge<usize>) -> GraphView<Nw, Ew> {
    GraphView {
        nodes: v.nodes,
        matrix: set_cell(v.matrix, edge.0 as int, edge.1 as int, None),
        order: v.order,
        size: (v.size - 1) as nat,
    }
}

/// Removing an edge that was just added gives back the graph as it was before.
pub proof fn law_remove_edge_undoes_add_edge<Nw, Ew>(v: GraphView<Nw, Ew>, edge: Edge<usize>, weight: Ew)
    requires
        v.wf(),
        v.add_edge_error(edge) is None,
    ensures
        with_edge(v, edge, weight).wf(),
        with_edge(v, edge, weight).has_edge(edge),
        with_edge(v, edge, weight).edge_weight(edge) == weight,
        without_edge(with_edge(v, edge, weight), edge) == v,
{
    let (i, j) = (edge.0 as int, edge.1 as int);
    crate::graph::counting::lemma_edge_count_set(v.matrix, i, j, Some(weight));
    let once = set_cell(v.matrix, i, j, Some(weight));
    let twice = set_cell(once, i, j, None);
    assert(twice[i] =~= v.matrix[i]);
    assert(twice =~= v.matrix);
}

/// Adding back an edge that was just removed, with its old weight, gives back the graph.
pub proof fn law_add_edge_undoes_remove_edge<Nw, Ew>(v: GraphView<Nw, Ew>, edge: Edge<usize>)
    requires
        v.wf(),
        v.has_edge(edge),
    ensures
        without_edge(v, edge).wf(),
        without_edge(v, edge).add_edge_error(edge) is None,
        with_edge(without_edge(v, edge), edge, v.edge_weight(edge)) == v,
{
    let (i, j) = (edge.0 as int, edge.1 as int);
    crate::graph::counting::lemma_edge_count_set(v.matrix, i, j, None);
    let once = set_cell(v.matrix, i, j, None);
    let twice = set_cell(once, i, j, Some(v.edge_weight(edge)));
    assert(twice[i] =~= v.matrix[i]);
    assert(twice =~= v.matrix);
}

/// The graph after a successful `add_node(id, weight)`.
pub open spec fn with_node<Nw, Ew>(v: GraphView<Nw, Ew>, id: usize, weight: Nw) -> GraphView<Nw, Ew> {
    GraphView {
        nodes: grown_nodes(v.nodes, id).update(id as int, Some(weight)),
        matrix: grown_matrix(v.matrix, v.nodes.len(), id),
        order: v.order + 1,
        size: v.size,
    }
}

/// A node that was just added is in the graph, with the weight it was added with,
/// and every node that was in the graph stays, with its weight.
pub proof fn law_added_node_is_read_back<Nw, Ew>(v: GraphView<Nw, Ew>, id: usize, weight: Nw, other: usize)
    requires
        v.wf(),
        !v.has_node(id),
        id < v.nodes.len() || id + 2 <= usize::MAX,
    ensures
        with_node(v, id, weight).has_node(id),
        with_node(v, id, weight).node_weight(id) == weight,
        other != id && v.has_node(other) ==> with_node(v, id, weight).has_node(other)
            && with_node(v, id, weight).node_weight(other) == v.node_weight(other),
{
}

/// Every occupied cell of a matrix is in its edge list.
proof fn lemma_edge_list_has_cells<T>(m: Seq<Seq<Option<T>>>, edge: Edge<usize>)
    requires
        m.len() <= usize::MAX,
        forall|i: int| 0 <= i < m.len() ==> #[trigger] m[i].len() <= usize::MAX,
        edge.0 < m.len(),
        edge.1 < m[edge.0 as int].len(),
        m[edge.0 as int][edge.1 as int] is Some,
    ensures
        edge_list(m).contains(edge),
    decreases m.len(),
{
    let rest = m.drop_last();
    let last = (m.len() - 1) as usize;
    let row = row_edges(last, m.last());
    assert(edge_list(m) == edge_list(rest) + row);
    if edge.0 == last {
        lemma_some_indices_contains(m.last(), edge.1);
        let k = choose|k: int| 0 <= k < some_indices(m.last()).len() && some_indices(m.last())[k] == edge.1;
        assert(row[k] == edge);
        assert(edge_list(m)[edge_list(rest).len() + k] == edge);
    } else {
        assert forall|i: int| 0 <= i < rest.len() implies #[trigger] rest[i].len() <= usize::MAX by {
            assert(rest[i] == m[i]);
        }
        assert(rest[edge.0 as int] == m[edge.0 as int]);
        lemma_edge_list_has_cells(rest, edge);
        let k = choose|k: int| 0 <= k < edge_list(rest).len() && edge_list(rest)[k] == edge;
        assert(edge_list(m)[k] == edge);
    }
}

/// A graph lists an edge exactly when the edge is in the graph.
pub proof fn law_edge_ids_are_the_edges<Nw, Ew>(v: GraphView<Nw, Ew>, edge: Edge<usize>)
    requires
        v.wf(),
        v.nodes.len() <= usize::MAX,
    ensures
        v.edge_ids().contains(edge) <==> v.has_edge(edge),
{
    law_listed_edges_join_nodes(v, edge);
    if v.has_edge(edge) {
        lemma_edge_list_has_cells(v.matrix, edge);
    }
}

/// The neighbors that a node lists are exactly the ends of its edges.
pub proof fn law_neighbor_ids_are_the_edge_ends<Nw, Ew>(v: GraphView<Nw, Ew>, id: usize, other: usize)
    requires
        v.wf(),
        v.nodes.len() <= usize::MAX,
        v.has_node(id),
    ensures
        v.neighbor_ids(id).contains(other) <==> v.has_edge((id, other)),
{
    lemma_some_indices_contains(v.matrix[id as int], other);
}

/// Each slot of a weighted row names an occupied cell of the row and its value.
proof fn lemma_weighted_row_values<T>(r: Seq<Option<T>>)
    requires
        r.len() <= usize::MAX,
    ensures
        forall|k: int| 0 <= k < weighted_row(r).len() ==> (#[trigger] weighted_row(r)[k]).0 < r.len()
            && r[weighted_row(r)[k].0 as int] == Some(weighted_row(r)[k].1),
    decreases r.len(),
{
    if r.len() > 0 {
        let rest = r.drop_last();
        lemma_weighted_row_values(rest);
        let tail = match r.last() {
            Some(w) => seq![((r.len() - 1) as usize, w)],
            None => Seq::<(usize, T)>::empty(),
        };
        assert(weighted_row(r) == weighted_row(rest) + tail);
        assert forall|k: int| 0 <= k < weighted_row(r).len() implies (#[trigger] weighted_row(r)[k]).0 < r.len()
            && r[weighted_row(r)[k].0 as int] == Some(weighted_row(r)[k].1) by {
            if k < weighted_row(rest).len() {
                assert(weighted_row(r)[k] == weighted_row(rest)[k]);
                assert(rest[weighted_row(rest)[k].0 as int] == r[weighted_row(rest)[k].0 as int]);
            } else {
                assert(weighted_row(r)[k] == tail[k - weighted_row(rest).len()]);
            }
        }
    }
}

/// The weighted neighbors of a node are its listed neighbors, in the same order, each with the
/// weight of the edge to it.
pub proof fn law_neighbors_carry_the_edge_weights<Nw, Ew>(v: GraphView<Nw, Ew>, id: usize)
    requires
        v.wf(),
        v.nodes.len() <= usize::MAX,
        v.has_node(id),
    ensures
        v.neighbors(id).len() == v.neighbor_ids(id).len(),
        forall|k: int| 0 <= k < v.neighbors(id).len() ==> #[trigger] v.neighbors(id)[k] == (
            v.neighbor_ids(id)[k],
            v.edge_weight((id, v.neighbor_ids(id)[k])),
        ) && v.has_edge((id, v.neighbor_ids(id)[k])),
{
    let r = v.matrix[id as int];
    lemma_weighted_row_indices(r);
    lemma_weighted_row_values(r);
    assert forall|k: int| 0 <= k < v.neighbors(id).len() implies #[trigger] v.neighbors(id)[k] == (
        v.neighbor_ids(id)[k],
        v.edge_weight((id, v.neighbor_ids(id)[k])),
    ) && v.has_edge((id, v.neighbor_ids(id)[k])) by {
        assert(weighted_row(r).map_values(|p: (usize, Ew)| p.0)[k] == weighted_row(r)[k].0);
        let j = weighted_row(r)[k].0;
        assert(r[j as int] is Some);
        assert(v.matrix[id as int][j as int] is Some);
    }
}

/// Each edge that a graph lists with a weight is an edge of the graph with that weight, and the
/// edges come in the order of the edge ids.
pub proof fn law_edges_carry_the_edge_weights<Nw, Ew>(v: GraphView<Nw, Ew>)
    requires
        v.wf(),
        v.nodes.len() <= usize::MAX,
    ensures
        v.edges().len() == v.edge_ids().len(),
        forall|k: int| 0 <= k < v.edges().len() ==> (#[trigger] v.edges()[k]).0 == v.edge_ids()[k]
            && v.has_edge(v.edges()[k].0) && v.edge_weight(v.edges()[k].0) == v.edges()[k].1,
    decreases v.matrix.len(),
{
    lemma_weighted_cells_keys(v.matrix);
    lemma_weighted_cells_values(v.matrix);
    assert forall|k: int| 0 <= k < v.edges().len() implies (#[trigger] v.edges()[k]).0 == v.edge_ids()[k]
        && v.has_edge(v.edges()[k].0) && v.edge_weight(v.edges()[k].0) == v.edges()[k].1 by {
        assert(weighted_cells(v.matrix).map_values(|p: ((usize, usize), Ew)| p.0)[k] == weighted_cells(v.matrix)[k].0);
        let e = v.edges()[k].0;
        assert(v.matrix[e.0 as int][e.1 as int] is Some);
    }
}

/// Each entry of the weighted cells names an occupied cell of the matrix and its value.
proof fn lemma_weighted_cells_values<T>(m: Seq<Seq<Option<T>>>)
    requires
        m.len() <= usize::MAX,
        forall|i: int| 0 <= i < m.len() ==> #[trigger] m[i].len() <= usize::MAX,
    ensures
        forall|k: int| 0 <= k < weighted_cells(m).len() ==> {
            let c = (#[trigger] weighted_cells(m)[k]).0;
            &&& c.0 < m.len()
            &&& c.1 < m[c.0 as int].len()
            &&& m[c.0 as int][c.1 as int] == Some(weighted_cells(m)[k].1)
        },
    decreases m.len(),
{
    if m.len() > 0 {
        let rest = m.drop_last();
        let i = (m.len() - 1) as usize;
        assert forall|j: int| 0 <= j < rest.len() implies #[trigger] rest[j].len() <= usize::MAX by {
            assert(rest[j] == m[j]);
        }
        assert(m.last() == m[i as int]);
        lemma_weighted_cells_values(rest);
        lemma_weighted_row_values(m.last());
        let tail = weighted_row(m.last()).map_values(|p: (usize, T)| ((i, p.0), p.1));
        assert(weighted_cells(m) == weighted_cells(rest) + tail);
        assert forall|k: int| 0 <= k < weighted_cells(m).len() implies {
            let c = (#[trigger] weighted_cells(m)[k]).0;
            &&& c.0 < m.len()
            &&& c.1 < m[c.0 as int].len()
            &&& m[c.0 as int][c.1 as int] == Some(weighted_cells(m)[k].1)
        } by {
            if k < weighted_cells(rest).len() {
                assert(weighted_cells(m)[k] == weighted_cells(rest)[k]);
                let c = weighted_cells(rest)[k].0;
                assert(rest[c.0 as int] == m[c.0 as int]);
            } else {
                let t = k - weighted_cells(rest).len();
                assert(weighted_cells(m)[k] == tail[t]);
                assert(tail[t] == ((i, weighted_row(m.last())[t].0), weighted_row(m.last())[t].1));
            }
        }
    }
}

/// What a matrix graph answers as a weighted graph agrees with its content: it lists exactly
/// its nodes and its edges, as many as its order and its size count, a node's neighbors are
/// the ends of the node's edges, and the weighted lists carry the weights of those edges.
pub proof fn law_graph_answers_agree<Nw, Ew>(g: MatrixGraph<Nw, Ew>, id: usize, other: usize, edge: Edge<usize>)
    requires
        g.graph_wf(),
        g@.nodes.len() <= usize::MAX,
    ensures
        g.spec_node_ids().contains(id) <==> g.spec_has_node(id),
        g.spec_node_ids().len() == g.spec_order(),
        g.spec_edge_ids().contains(edge) <==> g.spec_has_edge(edge),
        g.spec_edge_ids().len() == g.spec_size(),
        g.spec_has_node(id) ==> (g.spec_neighbor_ids(id).contains(other) <==> g.spec_has_edge((id, other))),
        g.spec_has_node(id) ==> g.spec_neighbors(id).len() == g.spec_neighbor_ids(id).len(),
        g.spec_has_node(id) ==> forall|k: int| 0 <= k < g.spec_neighbors(id).len() ==> #[trigger] g.spec_neighbors(id)[k] == (
            g.spec_neighbor_ids(id)[k],
            g.spec_edge_weight((id, g.spec_neighbor_ids(id)[k])),
        ),
        g.spec_edges().len() == g.spec_edge_ids().len(),
        forall|k: int| 0 <= k < g.spec_edges().len() ==> (#[trigger] g.spec_edges()[k]).0 == g.spec_edge_ids()[k]
            && g.spec_has_edge(g.spec_edges()[k].0) && g.spec_edge_weight(g.spec_edges()[k].0) == g.spec_edges()[k].1,
{
    let v = g@;
    law_node_ids_are_the_nodes(v, id);
    law_order_counts_node_ids(v);
    law_edge_ids_are_the_edges(v, edge);
    law_size_counts_edge_ids(v);
    law_edges_carry_the_edge_weights(v);
    if v.has_node(id) {
        law_neighbor_ids_are_the_edge_ends(v, id, other);
        law_neighbors_carry_the_edge_weights(v, id);
    }
}

} // verus!
