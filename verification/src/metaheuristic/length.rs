//! The length of a route through a weighted graph.
use vstd::prelude::*;

use crate::graph::{Edge, GenericWeightedGraph, GraphError};
use crate::metaheuristic::solution::{route_edges, Solution};

verus! {

/// The first edge of `es` that is not in the graph, if any.
pub open spec fn first_missing_edge<G: GenericWeightedGraph>(g: G, es: Seq<Edge<G::IndexType>>) -> Option<
    Edge<G::IndexType>,
>
    decreases es.len(),
{
    if es.len() == 0 {
        None
    } else if !g.spec_has_edge(es[0]) {
        Some(es[0])
    } else {
        first_missing_edge(g, es.drop_first())
    }
}

/// The weights of the edges `es` in the graph.
pub open spec fn edge_weights<G: GenericWeightedGraph>(g: G, es: Seq<Edge<G::IndexType>>) -> Seq<G::EdgeWeightType> {
    es.map_values(|e: Edge<G::IndexType>| g.spec_edge_weight(e))
}

/// The graph can answer queries about each edge of `es`.
pub open spec fn edges_queryable<G: GenericWeightedGraph>(g: G, es: Seq<Edge<G::IndexType>>) -> bool {
    forall|k: int| 0 <= k < es.len() ==> g.edge_queryable(#[trigger] es[k])
}

/// The first missing edge of a list is none exactly when every edge is in the graph; otherwise
/// it is an edge of the list that is not in the graph and before which every edge is.
pub proof fn law_first_missing_edge_is_the_first_gap<G: GenericWeightedGraph>(g: G, es: Seq<Edge<G::IndexType>>)
    ensures
        first_missing_edge(g, es) is None <==> forall|k: int| 0 <= k < es.len() ==> g.spec_has_edge(#[trigger] es[k]),
        first_missing_edge(g, es) matches Some(e) ==> exists|k: int|
            0 <= k < es.len() && #[trigger] es[k] == e && !g.spec_has_edge(e) && forall|j: int| 0 <= j < k ==> g.spec_has_edge(
                #[trigger] es[j],
            ),
    decreases es.len(),
{
    if es.len() > 0 {
        let rest = es.drop_first();
        law_first_missing_edge_is_the_first_gap(g, rest);
        assert forall|k: int| 0 <= k < rest.len() implies rest[k] == es[k + 1] by {}
        if g.spec_has_edge(es[0]) {
            if first_missing_edge(g, es) is None {
                assert forall|k: int| 0 <= k < es.len() implies g.spec_has_edge(#[trigger] es[k]) by {
                    if k > 0 {
                        assert(rest[k - 1] == es[k]);
                    }
                }
            }
            if let Some(e) = first_missing_edge(g, es) {
                let k = choose|k: int|
                    0 <= k < rest.len() && #[trigger] rest[k] == e && !g.spec_has_edge(e) && forall|j: int| 0 <= j < k ==> g.spec_has_edge(
                        #[trigger] rest[j],
                    );
                assert(es[k + 1] == e);
                assert forall|j: int| 0 <= j < k + 1 implies g.spec_has_edge(#[trigger] es[j]) by {
                    if j > 0 {
                        assert(rest[j - 1] == es[j]);
                    }
                }
            }
        }
    }
}

/// The sum of the weights `ws`.
pub open spec fn weight_sum(ws: Seq<usize>) -> nat
    decreases ws.len(),
{
    if ws.len() == 0 {
        0
    } else {
        weight_sum(ws.drop_last()) + ws.last() as nat
    }
}

/// Weights add up one by one: no weights sum to zero, and one more weight adds its value,
/// whatever the weights before it are.
pub proof fn law_weight_sum_adds_each_weight(ws: Seq<usize>, w: usize)
    ensures
        weight_sum(Seq::empty()) == 0,
        weight_sum(ws.push(w)) == weight_sum(ws) + w,
        weight_sum(seq![w]) == w,
{
    assert(ws.push(w).drop_last() =~= ws);
    assert(seq![w].drop_last() =~= Seq::<usize>::empty());
}

/// The weights of two lists, one after the other, sum to the sum of each list's weights.
pub proof fn law_weight_sum_of_concatenation(a: Seq<usize>, b: Seq<usize>)
    ensures
        weight_sum(a + b) == weight_sum(a) + weight_sum(b),
    decreases b.len(),
{
    if b.len() == 0 {
        assert(a + b =~= a);
    } else {
        law_weight_sum_of_concatenation(a, b.drop_last());
        assert((a + b).drop_last() =~= a + b.drop_last());
        assert((a + b).last() == b.last());
    }
}

/// Extending a route by a node adds the weight of the edge from its last node to the new one
/// to the sum of its edge weights; a route of fewer than two nodes takes no edge and sums to zero.
pub proof fn law_route_weight_grows_by_the_new_edge<G: GenericWeightedGraph<EdgeWeightType = usize>>(
    g: G,
    nodes: Seq<G::IndexType>,
    next: G::IndexType,
)
    ensures
        nodes.len() >= 1 ==> weight_sum(edge_weights(g, route_edges(nodes.push(next)))) == weight_sum(
            edge_weights(g, route_edges(nodes)),
        ) + g.spec_edge_weight((nodes.last(), next)),
        nodes.len() <= 1 ==> weight_sum(edge_weights(g, route_edges(nodes))) == 0,
{
    if nodes.len() >= 1 {
        let before = route_edges(nodes);
        let after = route_edges(nodes.push(next));
        assert(after =~= before.push((nodes.last(), next)));
        assert(edge_weights(g, after) =~= edge_weights(g, before).push(g.spec_edge_weight((nodes.last(), next))));
        law_weight_sum_adds_each_weight(edge_weights(g, before), g.spec_edge_weight((nodes.last(), next)));
    }
    if nodes.len() <= 1 {
        assert(edge_weights(g, route_edges(nodes)) =~= Seq::<usize>::empty());
    }
}

/// A prefix of the weights sums to at most the sum of all of them.
proof fn lemma_weight_sum_prefix(ws: Seq<usize>, k: int)
    requires
        0 <= k <= ws.len(),
    ensures
        weight_sum(ws.take(k)) <= weight_sum(ws),
    decreases ws.len() - k,
{
    if k < ws.len() {
        lemma_weight_sum_prefix(ws, k + 1);
        assert(ws.take(k + 1).drop_last() =~= ws.take(k));
    } else {
        assert(ws.take(k) =~= ws);
    }
}

/// When the edges before position `k` are all in the graph and the edge at `k` is not,
/// the edge at `k` is the first one missing.
proof fn lemma_first_missing_at<G: GenericWeightedGraph>(g: G, es: Seq<Edge<G::IndexType>>, k: int)
    requires
        0 <= k < es.len(),
        !g.spec_has_edge(es[k]),
        forall|l: int| 0 <= l < k ==> g.spec_has_edge(#[trigger] es[l]),
    ensures
        first_missing_edge(g, es) == Some(es[k]),
    decreases k,
{
    if k > 0 {
        let rest = es.drop_first();
        assert(g.spec_has_edge(es[0]));
        assert forall|l: int| 0 <= l < k - 1 implies g.spec_has_edge(#[trigger] rest[l]) by {
            assert(rest[l] == es[l + 1]);
        }
        assert(rest[k - 1] == es[k]);
        lemma_first_missing_at(g, rest, k - 1);
    }
}

/// When every edge of `es` is in the graph, none is missing.
proof fn lemma_none_missing<G: GenericWeightedGraph>(g: G, es: Seq<Edge<G::IndexType>>)
    requires
        forall|l: int| 0 <= l < es.len() ==> g.spec_has_edge(#[trigger] es[l]),
    ensures
        first_missing_edge(g, es) is None,
    decreases es.len(),
{
    if es.len() > 0 {
        let rest = es.drop_first();
        assert(g.spec_has_edge(es[0]));
        assert forall|l: int| 0 <= l < rest.len() implies g.spec_has_edge(#[trigger] rest[l]) by {
            assert(rest[l] == es[l + 1]);
        }
        lemma_none_missing(g, rest);
    }
}

/// Returns the weights of the edges that the route takes, in order,
/// or the graph's error for the first of them that is not in the graph.
pub fn solution_edge_weights<G: GenericWeightedGraph>(solution: &Solution<G::IndexType>, graph: &G) -> (res: Result<
    Vec<G::EdgeWeightType>,
    GraphError<G::IndexType>,
>) where G::EdgeWeightType: Copy
    requires
        graph.graph_wf(),
        edges_queryable(*graph, route_edges(solution@)),
    ensures
        res is Ok <==> first_missing_edge(*graph, route_edges(solution@)) is None,
        res matches Ok(ws) ==> ws@ == edge_weights(*graph, route_edges(solution@)),
        res matches Err(e) ==> first_missing_edge(*graph, route_edges(solution@)) matches Some(edge) && e
            == graph.edge_error(edge),
{
    let edges = solution.edges();
    let ghost es = edges@;
    let mut weights: Vec<G::EdgeWeightType> = Vec::with_capacity(edges.len());
    for k in 0..edges.len()
        invariant
            es == edges@,
            es == route_edges(solution@),
            graph.graph_wf(),
            edges_queryable(*graph, es),
            forall|l: int| 0 <= l < k ==> graph.spec_has_edge(#[trigger] es[l]),
            weights@ == edge_weights(*graph, es.take(k as int)),
    {
        let edge = edges[k];
        assert(graph.edge_queryable(es[k as int]));
        match graph.edge_weight(edge) {
            Err(e) => {
                proof {
                    lemma_first_missing_at(*graph, es, k as int);
                }
                return Err(e);
            },
            Ok(w) => {
                weights.push(*w);
                assert(weights@ =~= edge_weights(*graph, es.take(k as int + 1)));
            },
        }
    }
    proof {
        lemma_none_missing(*graph, es);
    }
    assert(es.take(es.len() as int) =~= es);
    Ok(weights)
}

/// Returns the length of the route: the sum of the weights of the edges it takes,
/// or the graph's error for the first of them that is not in the graph.
pub fn solution_length<G: GenericWeightedGraph<EdgeWeightType = usize>>(solution: &Solution<G::IndexType>, graph: &G) -> (res: Result<
    usize,
    GraphError<G::IndexType>,
>)
    requires
        graph.graph_wf(),
        edges_queryable(*graph, route_edges(solution@)),
        first_missing_edge(*graph, route_edges(solution@)) is None ==> weight_sum(
            edge_weights(*graph, route_edges(solution@)),
        ) <= usize::MAX,
    ensures
        res is Ok <==> first_missing_edge(*graph, route_edges(solution@)) is None,
        res matches Ok(len) ==> len == weight_sum(edge_weights(*graph, route_edges(solution@))),
        res matches Err(e) ==> first_missing_edge(*graph, route_edges(solution@)) matches Some(edge) && e
            == graph.edge_error(edge),
{
    let weights = match solution_edge_weights(solution, graph) {
        Ok(ws) => ws,
        Err(e) => {
            return Err(e);
        },
    };
    let ghost ws = weights@;
    let mut sum: usize = 0;
    for k in 0..weights.len()
        invariant
            ws == weights@,
            weight_sum(ws) <= usize::MAX,
            sum == weight_sum(ws.take(k as int)),
    {
        proof {
            assert(ws.take(k as int + 1).drop_last() =~= ws.take(k as int));
            lemma_weight_sum_prefix(ws, k as int + 1);
        }
        sum = sum + weights[k];
    }
    assert(ws.take(ws.len() as int) =~= ws);
    Ok(sum)
}

} // verus!
