//! The operations that every weighted graph offers, whatever its node ids are.
use vstd::prelude::*;

use crate::geo::GeoPoint;
use crate::graph::{Edge, GraphError, NodeId};

verus! {

/// A weighted, directed graph over node ids of type `IndexType`.
///
/// The spec functions describe the graph's content; the operations report it.
/// A query is only asked where the graph can answer it without failing
/// (`node_queryable`, `edge_queryable`, `edges_listable`).
pub trait GenericWeightedGraph {
    type IndexType: NodeId;
    type NodeWeightType;
    type EdgeWeightType;

    /// The graph is well formed.
    spec fn graph_wf(&self) -> bool;

    /// The number of nodes.
    spec fn spec_order(&self) -> nat;

    /// The number of edges, as counted by the operations that changed the graph.
    spec fn spec_size(&self) -> nat;

    /// The ids of the nodes, in the order in which the graph lists them.
    spec fn spec_node_ids(&self) -> Seq<Self::IndexType>;

    /// The node is in the graph.
    spec fn spec_has_node(&self, id: Self::IndexType) -> bool;

    /// The weight of a node of the graph.
    spec fn spec_node_weight(&self, id: Self::IndexType) -> Self::NodeWeightType;

    /// The ids that the node has edges to, in the order in which the graph lists them.
    spec fn spec_neighbor_ids(&self, id: Self::IndexType) -> Seq<Self::IndexType>;

    /// The error that a query about a node that is not in the graph gives.
    spec fn node_error(&self, id: Self::IndexType) -> GraphError<Self::IndexType>;

    /// The graph can answer queries about the node.
    spec fn node_queryable(&self, id: Self::IndexType) -> bool;

    /// The edge is in the graph.
    spec fn spec_has_edge(&self, edge: Edge<Self::IndexType>) -> bool;

    /// The weight of an edge of the graph.
    spec fn spec_edge_weight(&self, edge: Edge<Self::IndexType>) -> Self::EdgeWeightType;

    /// The error that asking for the weight of an edge that is not in the graph gives.
    spec fn edge_error(&self, edge: Edge<Self::IndexType>) -> GraphError<Self::IndexType>;

    /// The graph can answer queries about the edge.
    spec fn edge_queryable(&self, edge: Edge<Self::IndexType>) -> bool;

    /// The edges of the graph, in the order in which the graph lists them.
    spec fn spec_edge_ids(&self) -> Seq<Edge<Self::IndexType>>;

    /// The graph can list its edges.
    spec fn edges_listable(&self) -> bool;

    /// The ids that the node has edges to, each with the weight of that edge, in the order in which
    /// the graph lists them.
    spec fn spec_neighbors(&self, id: Self::IndexType) -> Seq<(Self::IndexType, Self::EdgeWeightType)>;

    /// The edges of the graph with their weights, in the order in which the graph lists them.
    spec fn spec_edges(&self) -> Seq<(Edge<Self::IndexType>, Self::EdgeWeightType)>;

    /// The graph has room to add the node.
    spec fn node_room(&self, id: Self::IndexType) -> bool;

    /// The error that adding the node gives, if any.
    spec fn add_node_error(&self, id: Self::IndexType) -> Option<GraphError<Self::IndexType>>;

    /// The graph can change the weight of the node.
    spec fn node_changeable(&self, id: Self::IndexType) -> bool;

    /// The graph has room to add the edge.
    spec fn edge_room(&self, edge: Edge<Self::IndexType>) -> bool;

    /// The error that adding the edge gives, if any.
    spec fn add_edge_error(&self, edge: Edge<Self::IndexType>) -> Option<GraphError<Self::IndexType>>;

    /// The graph can change the weight of the edge.
    spec fn edge_changeable(&self, edge: Edge<Self::IndexType>) -> bool;

    /// The error that changing the weight of the edge gives, if any.
    spec fn change_edge_error(&self, edge: Edge<Self::IndexType>) -> Option<GraphError<Self::IndexType>>;

    /// The graph can remove the edge.
    spec fn edge_removable(&self, edge: Edge<Self::IndexType>) -> bool;

    /// Returns true if there are no nodes, or false otherwise.
    fn is_empty(&self) -> (empty: bool)
        ensures
            empty == (self.spec_order() == 0),
    ;

    /// Returns the number of nodes in this graph.
    fn order(&self) -> (order: usize)
        ensures
            order == self.spec_order(),
    ;

    /// Returns the number of edges in this graph.
    fn size(&self) -> (size: usize)
        ensures
            size == self.spec_size(),
    ;

    /// Returns the node ids of this graph.
    fn node_ids(&self) -> (ids: Vec<Self::IndexType>)
        requires
            self.graph_wf(),
        ensures
            ids@ == self.spec_node_ids(),
    ;

    /// Returns the weight of node with id.
    fn node_weight(&self, id: Self::IndexType) -> (res: Result<&Self::NodeWeightType, GraphError<Self::IndexType>>)
        requires
            self.graph_wf(),
            self.node_queryable(id),
        ensures
            res is Ok <==> self.spec_has_node(id),
            res matches Ok(w) ==> *w == self.spec_node_weight(id),
            res matches Err(e) ==> e == self.node_error(id),
    ;

    /// Returns the neighbors of the node with id.
    /// Returns an error if node is not in graph.
    fn neighbor_ids(&self, id: Self::IndexType) -> (res: Result<Vec<Self::IndexType>, GraphError<Self::IndexType>>)
        requires
            self.graph_wf(),
            self.node_queryable(id),
        ensures
            res is Ok <==> self.spec_has_node(id),
            res matches Ok(ids) ==> ids@ == self.spec_neighbor_ids(id),
            res matches Err(e) ==> e == self.node_error(id),
    ;

    /// Returns the neighbors of the node with id, each with a reference to the weight of the edge
    /// to it. Returns an error if the node is not in the graph.
    fn neighbors(&self, id: Self::IndexType) -> (res: Result<
        Vec<(Self::IndexType, &Self::EdgeWeightType)>,
        GraphError<Self::IndexType>,
    >)
        requires
            self.graph_wf(),
            self.node_queryable(id),
        ensures
            res is Ok <==> self.spec_has_node(id),
            res matches Ok(ns) ==> ns@.map_values(|p: (Self::IndexType, &Self::EdgeWeightType)| (p.0, *p.1))
                == self.spec_neighbors(id),
            res matches Err(e) ==> e == self.node_error(id),
    ;

    /// Returns true if node with id is a member, or false otherwise.
    fn has_node(&self, id: Self::IndexType) -> (present: bool)
        requires
            self.graph_wf(),
        ensures
            present == self.spec_has_node(id),
    ;

    /// Returns the count of neighbors at node with given id.
    /// Returns an error if the node is not in the graph.
    fn degree(&self, id: Self::IndexType) -> (res: Result<usize, GraphError<Self::IndexType>>)
        requires
            self.graph_wf(),
            self.node_queryable(id),
        ensures
            res is Ok <==> self.spec_has_node(id),
            res matches Ok(d) ==> d == self.spec_neighbor_ids(id).len(),
            res matches Err(e) ==> e == self.node_error(id),
    ;

    /// Returns all edge ids in the form (from_id, to_id).
    fn edge_ids(&self) -> (ids: Vec<Edge<Self::IndexType>>)
        requires
            self.graph_wf(),
            self.edges_listable(),
        ensures
            ids@ == self.spec_edge_ids(),
    ;

    /// Returns all edges with references to their weights.
    fn edges(&self) -> (es: Vec<(Edge<Self::IndexType>, &Self::EdgeWeightType)>)
        requires
            self.graph_wf(),
            self.edges_listable(),
        ensures
            es@.map_values(|p: (Edge<Self::IndexType>, &Self::EdgeWeightType)| (p.0, *p.1)) == self.spec_edges(),
    ;

    /// Returns the weight of an edge.
    fn edge_weight(&self, edge: Edge<Self::IndexType>) -> (res: Result<&Self::EdgeWeightType, GraphError<Self::IndexType>>)
        requires
            self.graph_wf(),
            self.edge_queryable(edge),
        ensures
            res is Ok <==> self.spec_has_edge(edge),
            res matches Ok(w) ==> *w == self.spec_edge_weight(edge),
            res matches Err(e) ==> e == self.edge_error(edge),
    ;

    /// Returns true if the edge exists, or false otherwise.
    fn has_edge(&self, edge: Edge<Self::IndexType>) -> (present: bool)
        requires
            self.graph_wf(),
            self.edge_queryable(edge),
        ensures
            present == self.spec_has_edge(edge),
    ;

    /// Adds a new node with weight to the graph.
    /// Returns an error if a node with the same id already exists.
    fn add_node(&mut self, id: Self::IndexType, weight: Self::NodeWeightType) -> (res: Result<(), GraphError<Self::IndexType>>)
        requires
            old(self).graph_wf(),
            old(self).node_room(id),
        ensures
            final(self).graph_wf(),
            res is Ok <==> old(self).add_node_error(id) is None,
            res matches Err(e) ==> old(self).add_node_error(id) == Some(e),
            res is Ok ==> {
                &&& final(self).spec_has_node(id)
                &&& final(self).spec_node_weight(id) == weight
                &&& final(self).spec_order() == old(self).spec_order() + 1
                &&& final(self).spec_size() == old(self).spec_size()
                &&& forall|v: Self::IndexType| #![trigger final(self).spec_has_node(v)] #![trigger old(self).spec_has_node(v)]
                v != id ==> final(self).spec_has_node(v) == old(self).spec_has_node(v)
                &&& forall|v: Self::IndexType| v != id && old(self).spec_has_node(v) ==> #[trigger] final(self).spec_node_weight(v) == old(self).spec_node_weight(v)
            },
            res is Err ==> {
                &&& forall|v: Self::IndexType| #![trigger final(self).spec_has_node(v)] #![trigger old(self).spec_has_node(v)]
                final(self).spec_has_node(v) == old(self).spec_has_node(v)
                &&& forall|v: Self::IndexType| old(self).spec_has_node(v) ==> #[trigger] final(self).spec_node_weight(v) == old(self).spec_node_weight(v)
                &&& final(self).spec_order() == old(self).spec_order()
                &&& final(self).spec_size() == old(self).spec_size()
            },
            forall|e: Edge<Self::IndexType>| #![trigger final(self).spec_has_edge(e)] #![trigger old(self).spec_has_edge(e)]
                final(self).spec_has_edge(e) == old(self).spec_has_edge(e),
            forall|e: Edge<Self::IndexType>| old(self).spec_has_edge(e) ==> #[trigger] final(self).spec_edge_weight(e) == old(self).spec_edge_weight(e),
    ;

    /// Removes a node from the graph, and with it the edges from or to it.
    fn remove_node(&mut self, id: Self::IndexType)
        requires
            old(self).graph_wf(),
        ensures
            final(self).graph_wf(),
            !final(self).spec_has_node(id),
            final(self).spec_order() == if old(self).spec_has_node(id) {
                (old(self).spec_order() - 1) as nat
            } else {
                old(self).spec_order()
            },
            forall|v: Self::IndexType| #![trigger final(self).spec_has_node(v)] #![trigger old(self).spec_has_node(v)]
                v != id ==> final(self).spec_has_node(v) == old(self).spec_has_node(v),
            forall|v: Self::IndexType| v != id && old(self).spec_has_node(v) ==> #[trigger] final(self).spec_node_weight(v) == old(self).spec_node_weight(v),
            forall|e: Edge<Self::IndexType>| #![trigger final(self).spec_has_edge(e)] #![trigger old(self).spec_has_edge(e)]
                e.0 != id && e.1 != id ==> final(self).spec_has_edge(e) == old(self).spec_has_edge(e),
            forall|e: Edge<Self::IndexType>| e.0 != id && e.1 != id && old(self).spec_has_edge(e) ==> #[trigger] final(self).spec_edge_weight(e) == old(self).spec_edge_weight(e),
            forall|e: Edge<Self::IndexType>| (e.0 == id || e.1 == id) ==> !#[trigger] final(self).spec_has_edge(e),
    ;

    /// Changes the weight of a node to the new weight; a node that is not in the graph is added.
    fn change_node(&mut self, id: Self::IndexType, weight: Self::NodeWeightType)
        requires
            old(self).graph_wf(),
            old(self).node_changeable(id),
        ensures
            final(self).graph_wf(),
            final(self).spec_has_node(id),
            final(self).spec_node_weight(id) == weight,
            final(self).spec_order() == if old(self).spec_has_node(id) {
                old(self).spec_order()
            } else {
                old(self).spec_order() + 1
            },
            final(self).spec_size() == old(self).spec_size(),
            forall|v: Self::IndexType| #![trigger final(self).spec_has_node(v)] #![trigger old(self).spec_has_node(v)]
                v != id ==> final(self).spec_has_node(v) == old(self).spec_has_node(v),
            forall|v: Self::IndexType| v != id && old(self).spec_has_node(v) ==> #[trigger] final(self).spec_node_weight(v) == old(self).spec_node_weight(v),
            forall|e: Edge<Self::IndexType>| #![trigger final(self).spec_has_edge(e)] #![trigger old(self).spec_has_edge(e)]
                final(self).spec_has_edge(e) == old(self).spec_has_edge(e),
            forall|e: Edge<Self::IndexType>| old(self).spec_has_edge(e) ==> #[trigger] final(self).spec_edge_weight(e) == old(self).spec_edge_weight(e),
    ;

    /// Adds a new weighted edge to the graph.
    /// Returns an error if the edge already exists or one of the nodes is missing.
    fn add_edge(&mut self, edge: Edge<Self::IndexType>, weight: Self::EdgeWeightType) -> (res: Result<(), GraphError<Self::IndexType>>)
        requires
            old(self).graph_wf(),
            old(self).edge_room(edge),
        ensures
            final(self).graph_wf(),
            res is Ok <==> old(self).add_edge_error(edge) is None,
            res matches Err(e) ==> old(self).add_edge_error(edge) == Some(e),
            res is Ok ==> {
                &&& final(self).spec_has_edge(edge)
                &&& final(self).spec_edge_weight(edge) == weight
                &&& final(self).spec_size() == old(self).spec_size() + 1
                &&& forall|e: Edge<Self::IndexType>| #![trigger final(self).spec_has_edge(e)] #![trigger old(self).spec_has_edge(e)]
                e != edge ==> final(self).spec_has_edge(e) == old(self).spec_has_edge(e)
                &&& forall|e: Edge<Self::IndexType>| e != edge && old(self).spec_has_edge(e) ==> #[trigger] final(self).spec_edge_weight(e) == old(self).spec_edge_weight(e)
            },
            res is Err ==> {
                &&& forall|e: Edge<Self::IndexType>| #![trigger final(self).spec_has_edge(e)] #![trigger old(self).spec_has_edge(e)]
                final(self).spec_has_edge(e) == old(self).spec_has_edge(e)
                &&& forall|e: Edge<Self::IndexType>| old(self).spec_has_edge(e) ==> #[trigger] final(self).spec_edge_weight(e) == old(self).spec_edge_weight(e)
                &&& final(self).spec_size() == old(self).spec_size()
            },
            forall|v: Self::IndexType| #![trigger final(self).spec_has_node(v)] #![trigger old(self).spec_has_node(v)]
                final(self).spec_has_node(v) == old(self).spec_has_node(v),
            forall|v: Self::IndexType| old(self).spec_has_node(v) ==> #[trigger] final(self).spec_node_weight(v) == old(self).spec_node_weight(v),
            final(self).spec_order() == old(self).spec_order(),
    ;

    /// Removes an edge from the graph.
    fn remove_edge(&mut self, edge: Edge<Self::IndexType>)
        requires
            old(self).graph_wf(),
            old(self).edge_removable(edge),
        ensures
            final(self).graph_wf(),
            !final(self).spec_has_edge(edge),
            final(self).spec_size() == if old(self).spec_has_edge(edge) {
                (old(self).spec_size() - 1) as nat
            } else {
                old(self).spec_size()
            },
            forall|e: Edge<Self::IndexType>| #![trigger final(self).spec_has_edge(e)] #![trigger old(self).spec_has_edge(e)]
                e != edge ==> final(self).spec_has_edge(e) == old(self).spec_has_edge(e),
            forall|e: Edge<Self::IndexType>| e != edge && old(self).spec_has_edge(e) ==> #[trigger] final(self).spec_edge_weight(e) == old(self).spec_edge_weight(e),
            forall|v: Self::IndexType| #![trigger final(self).spec_has_node(v)] #![trigger old(self).spec_has_node(v)]
                final(self).spec_has_node(v) == old(self).spec_has_node(v),
            forall|v: Self::IndexType| old(self).spec_has_node(v) ==> #[trigger] final(self).spec_node_weight(v) == old(self).spec_node_weight(v),
            final(self).spec_order() == old(self).spec_order(),
    ;

    /// Changes the weight of an edge to the new weight; if the edge did not exist before,
    /// it is added. Returns an error if one of the nodes is not in the graph.
    fn change_edge(&mut self, edge: Edge<Self::IndexType>, weight: Self::EdgeWeightType) -> (res: Result<(), GraphError<Self::IndexType>>)
        requires
            old(self).graph_wf(),
            old(self).edge_changeable(edge),
        ensures
            final(self).graph_wf(),
            res is Ok <==> old(self).change_edge_error(edge) is None,
            res matches Err(e) ==> old(self).change_edge_error(edge) == Some(e),
            res is Ok ==> {
                &&& final(self).spec_has_edge(edge)
                &&& final(self).spec_edge_weight(edge) == weight
                &&& final(self).spec_size() == if old(self).spec_has_edge(edge) {
                    old(self).spec_size()
                } else {
                    old(self).spec_size() + 1
                }
                &&& forall|e: Edge<Self::IndexType>| #![trigger final(self).spec_has_edge(e)] #![trigger old(self).spec_has_edge(e)]
                e != edge ==> final(self).spec_has_edge(e) == old(self).spec_has_edge(e)
                &&& forall|e: Edge<Self::IndexType>| e != edge && old(self).spec_has_edge(e) ==> #[trigger] final(self).spec_edge_weight(e) == old(self).spec_edge_weight(e)
            },
            res is Err ==> {
                &&& forall|e: Edge<Self::IndexType>| #![trigger final(self).spec_has_edge(e)] #![trigger old(self).spec_has_edge(e)]
                final(self).spec_has_edge(e) == old(self).spec_has_edge(e)
                &&& forall|e: Edge<Self::IndexType>| old(self).spec_has_edge(e) ==> #[trigger] final(self).spec_edge_weight(e) == old(self).spec_edge_weight(e)
                &&& final(self).spec_size() == old(self).spec_size()
            },
            forall|v: Self::IndexType| #![trigger final(self).spec_has_node(v)] #![trigger old(self).spec_has_node(v)]
                final(self).spec_has_node(v) == old(self).spec_has_node(v),
            forall|v: Self::IndexType| old(self).spec_has_node(v) ==> #[trigger] final(self).spec_node_weight(v) == old(self).spec_node_weight(v),
            final(self).spec_order() == old(self).spec_order(),
    ;
}

/// A weighted graph whose nodes are numbered.
pub trait WeightedGraph: GenericWeightedGraph<IndexType = usize> {

}

impl<T: GenericWeightedGraph<IndexType = usize>> WeightedGraph for T {

}

/// A weighted graph whose nodes are points on the earth.
pub trait GeoGraph: GenericWeightedGraph<IndexType = GeoPoint> {

}

impl<T: GenericWeightedGraph<IndexType = GeoPoint>> GeoGraph for T {

}

} // verus!
