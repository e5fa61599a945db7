//! A weighted, directed graph whose nodes are points on the earth.
//! The points are mapped to the ids of an inner [`MatrixGraph`](crate::graph::MatrixGraph).
use vstd::prelude::*;

use crate::geo::GeoPoint;
use crate::graph::matrix_graph::{apply_edges, empty_matrix, GraphView};
use crate::graph::node_map::NodeMap;
use crate::graph::{Edge, GraphError};

verus! {

/// The mathematical content of a point-indexed graph: the inner graph and the two maps
/// between points and inner ids.
pub struct GeoGraphView<Nw, Ew> {
    pub inner: GraphView<Nw, Ew>,
    pub node_map: Map<GeoPoint, usize>,
    pub inv_node_map: Map<usize, GeoPoint>,
    /// The points of `node_map`, in the order in which they were first mapped.
    pub points: Seq<GeoPoint>,
}

/// The point-indexed form of an error of the inner graph, by the inverse map.
pub open spec fn map_error(inv: Map<usize, GeoPoint>, e: GraphError<usize>) -> GraphError<GeoPoint> {
    match e {
        GraphError::MissingNode(n) => GraphError::MissingNode(inv[n]),
        GraphError::DuplicateNode(n) => GraphError::DuplicateNode(inv[n]),
        GraphError::MissingEdge(edge) => GraphError::MissingEdge((inv[edge.0], inv[edge.1])),
        GraphError::DuplicateEdge(edge) => GraphError::DuplicateEdge((inv[edge.0], inv[edge.1])),
    }
}

/// Every inner id that the error names has a point.
pub open spec fn error_ids_known(inv: Map<usize, GeoPoint>, e: GraphError<usize>) -> bool {
    match e {
        GraphError::MissingNode(n) => inv.dom().contains(n),
        GraphError::DuplicateNode(n) => inv.dom().contains(n),
        GraphError::MissingEdge(edge) => inv.dom().contains(edge.0) && inv.dom().contains(edge.1),
        GraphError::DuplicateEdge(edge) => inv.dom().contains(edge.0) && inv.dom().contains(edge.1),
    }
}

/// The map from each point of `nodes` to the position of its last occurrence.
pub open spec fn points_map<Nw>(nodes: Seq<(GeoPoint, Nw)>) -> Map<GeoPoint, usize>
    decreases nodes.len(),
{
    if nodes.len() == 0 {
        Map::empty()
    } else {
        points_map(nodes.drop_last()).insert(nodes.last().0, (nodes.len() - 1) as usize)
    }
}

/// The points of `nodes`, each once, in the order of their first occurrence.
pub open spec fn point_order<Nw>(nodes: Seq<(GeoPoint, Nw)>) -> Seq<GeoPoint>
    decreases nodes.len(),
{
    if nodes.len() == 0 {
        Seq::empty()
    } else {
        let rest = point_order(nodes.drop_last());
        if rest.contains(nodes.last().0) {
            rest
        } else {
            rest.push(nodes.last().0)
        }
    }
}

/// The map from each position of `nodes` to its point.
pub open spec fn positions_map<Nw>(nodes: Seq<(GeoPoint, Nw)>) -> Map<usize, GeoPoint> {
    Map::new(|i: usize| i < nodes.len(), |i: usize| nodes[i as int].0)
}

/// Both end points of every edge in `es` are keys of `m`.
pub open spec fn edges_known<Ew>(es: Seq<(Edge<GeoPoint>, Ew)>, m: Map<GeoPoint, usize>) -> bool {
    forall|k: int| 0 <= k < es.len() ==> m.dom().contains(#[trigger] es[k].0.0) && m.dom().contains(es[k].0.1)
}

/// The first point that an edge of `es` has and `m` has not: the start point of the first
/// such edge if that is unknown, else its end point.
pub open spec fn first_unknown_point<Ew>(es: Seq<(Edge<GeoPoint>, Ew)>, m: Map<GeoPoint, usize>) -> GeoPoint
    decreases es.len(),
{
    if es.len() == 0 {
        arbitrary()
    } else if !m.dom().contains(es[0].0.0) {
        es[0].0.0
    } else if !m.dom().contains(es[0].0.1) {
        es[0].0.1
    } else {
        first_unknown_point(es.drop_first(), m)
    }
}

/// The edges of `es` with their end points replaced by the ids that `m` gives them.
pub open spec fn mapped_edges<Ew>(es: Seq<(Edge<GeoPoint>, Ew)>, m: Map<GeoPoint, usize>) -> Seq<(usize, usize, Ew)> {
    es.map_values(|e: (Edge<GeoPoint>, Ew)| (m[e.0.0], m[e.0.1], e.1))
}

/// The first node slot that holds no node, or the number of slots when every slot holds one.
pub open spec fn first_free_slot<Nw>(nodes: Seq<Option<Nw>>) -> nat
    decreases nodes.len(),
{
    if nodes.len() == 0 {
        0
    } else if nodes[0] is None {
        0
    } else {
        1 + first_free_slot(nodes.drop_first())
    }
}

impl<Nw, Ew> GeoGraphView<Nw, Ew> {
    /// The inner graph is well formed, the points are listed once each, every mapped point's
    /// id maps back to the point, and the inverse map holds exactly the ids of the inner nodes.
    pub open spec fn wf(self) -> bool {
        &&& self.inner.wf()
        &&& self.node_map.dom().finite()
        &&& self.points.no_duplicates()
        &&& forall|p: GeoPoint| self.node_map.dom().contains(p) <==> self.points.contains(p)
        &&& forall|p: GeoPoint| #[trigger] self.node_map.dom().contains(p)
            ==> self.inv_node_map.dom().contains(self.node_map[p]) && self.inv_node_map[self.node_map[p]] == p
        &&& forall|i: usize| #![trigger self.inv_node_map.dom().contains(i)] #![trigger self.inner.has_node(i)]
            self.inv_node_map.dom().contains(i) <==> self.inner.has_node(i)
    }

    /// The point is mapped and its inner id holds a node.
    pub open spec fn has_node(self, id: GeoPoint) -> bool {
        self.node_map.dom().contains(id) && self.inner.has_node(self.node_map[id])
    }

    /// The inner id of a mapped point.
    pub open spec fn inner_id(self, id: GeoPoint) -> usize {
        self.node_map[id]
    }

    /// The inner form of an edge between mapped points.
    pub open spec fn inner_edge(self, edge: Edge<GeoPoint>) -> Edge<usize> {
        (self.node_map[edge.0], self.node_map[edge.1])
    }

    pub open spec fn has_edge(self, edge: Edge<GeoPoint>) -> bool {
        &&& self.node_map.dom().contains(edge.0)
        &&& self.node_map.dom().contains(edge.1)
        &&& self.inner.has_edge(self.inner_edge(edge))
    }

    /// The point of an inner id.
    pub open spec fn point(self, i: usize) -> GeoPoint {
        self.inv_node_map[i]
    }
}

/// A weighted, directed graph whose nodes are points on the earth.
#[derive(Debug, Clone)]
pub struct MatrixGraph<Nw, Ew> {
    internal_graph: crate::graph::MatrixGraph<Nw, Ew>,
    node_map: NodeMap<GeoPoint, usize>,
    inv_node_map: NodeMap<usize, GeoPoint>,
}

impl<Nw, Ew> View for MatrixGraph<Nw, Ew> {
    type V = GeoGraphView<Nw, Ew>;

    closed spec fn view(&self) -> GeoGraphView<Nw, Ew> {
        GeoGraphView {
            inner: self.internal_graph@,
            node_map: self.node_map@,
            inv_node_map: self.inv_node_map@,
            points: self.node_map.spec_keys(),
        }
    }
}

impl<Nw, Ew> MatrixGraph<Nw, Ew> {
    /// The two maps keep distinct keys.
    pub closed spec fn maps_wf(&self) -> bool {
        self.node_map.wf() && self.inv_node_map.wf()
    }

    /// The graph is well formed: the inner graph and both maps are.
    pub open spec fn wf(&self) -> bool {
        self.maps_wf() && self@.wf()
    }

    /// Maps an error of the inner graph to the points of its ids.
    fn mapped_result<T>(&self, result: Result<T, GraphError<usize>>) -> (res: Result<T, GraphError<GeoPoint>>)
        requires
            self.wf(),
            result matches Err(e) ==> error_ids_known(self@.inv_node_map, e),
        ensures
            result matches Ok(v) ==> res == Ok::<T, GraphError<GeoPoint>>(v),
            result matches Err(e) ==> res == Err::<T, GraphError<GeoPoint>>(map_error(self@.inv_node_map, e)),
    {
        match result {
            Err(GraphError::MissingNode(node)) => Err(GraphError::MissingNode(self.inv_node_map.get(&node).unwrap())),
            Err(GraphError::MissingEdge(edge)) => Err(
                GraphError::MissingEdge((self.inv_node_map.get(&edge.0).unwrap(), self.inv_node_map.get(&edge.1).unwrap())),
            ),
            Err(GraphError::DuplicateNode(node)) => Err(GraphError::DuplicateNode(self.inv_node_map.get(&node).unwrap())),
            Err(GraphError::DuplicateEdge(edge)) => Err(
                GraphError::DuplicateEdge((self.inv_node_map.get(&edge.0).unwrap(), self.inv_node_map.get(&edge.1).unwrap())),
            ),
            Ok(some) => Ok(some),
        }
    }
}

impl<Nw, Ew> MatrixGraph<Nw, Ew> {
    /// Creates an empty graph.
    pub fn default() -> (g: Self)
        ensures
            g.wf(),
            g@.inner.nodes == Seq::<Option<Nw>>::empty(),
            g@.inner.matrix == Seq::<Seq<Option<Ew>>>::empty(),
            g@.inner.order == 0,
            g@.inner.size == 0,
            g@.node_map == Map::<GeoPoint, usize>::empty(),
            g@.inv_node_map == Map::<usize, GeoPoint>::empty(),
    {
        MatrixGraph {
            internal_graph: crate::graph::MatrixGraph::default(),
            node_map: NodeMap::new(),
            inv_node_map: NodeMap::new(),
        }
    }

    /// Creates a graph without nodes, with room for `size` nodes.
    pub fn with_size(size: usize) -> (g: Self)
        ensures
            g.wf(),
            g@.inner.nodes == Seq::new(size as nat, |k: int| None::<Nw>),
            g@.inner.matrix == empty_matrix::<Ew>(size as nat),
            g@.inner.order == 0,
            g@.inner.size == 0,
            g@.node_map == Map::<GeoPoint, usize>::empty(),
            g@.inv_node_map == Map::<usize, GeoPoint>::empty(),
    {
        MatrixGraph {
            internal_graph: crate::graph::MatrixGraph::with_size(size),
            node_map: NodeMap::with_capacity(size),
            inv_node_map: NodeMap::with_capacity(size),
        }
    }

    /// The map from points to inner ids.
    pub fn node_map(&self) -> (m: &NodeMap<GeoPoint, usize>)
        ensures
            m@ == self@.node_map,
            self.wf() ==> m.wf(),
    {
        &self.node_map
    }

    /// The map from inner ids to points.
    pub fn inv_node_map(&self) -> (m: &NodeMap<usize, GeoPoint>)
        ensures
            m@ == self@.inv_node_map,
            self.wf() ==> m.wf(),
    {
        &self.inv_node_map
    }

    /// The inner graph over ids.
    pub fn internal_graph(&self) -> (g: &crate::graph::MatrixGraph<Nw, Ew>)
        ensures
            g@ == self@.inner,
    {
        &self.internal_graph
    }

    /// Creates a graph from a list of points with their weights and a list of weighted edges.
    /// The point at `nodes[i]` gets the inner id `i`; a point listed twice maps to its last id.
    /// An edge with an end point that is not listed gives `MissingNode` with that point,
    /// for the first such edge: its start point if that is unknown, else its end point.
    pub fn new(nodes: Vec<(GeoPoint, Nw)>, edges: Vec<(Edge<GeoPoint>, Ew)>) -> (res: Result<Self, GraphError<GeoPoint>>)
        ensures
            res is Ok <==> edges_known(edges@, points_map(nodes@)),
            res matches Err(e) ==> e == GraphError::MissingNode(first_unknown_point(edges@, points_map(nodes@))),
            res matches Ok(g) ==> {
                &&& g.wf()
                &&& g@.node_map == points_map(nodes@)
                &&& g@.inv_node_map == positions_map(nodes@)
                &&& g@.points == point_order(nodes@)
                &&& g@.inner.nodes == nodes@.map_values(|x: (GeoPoint, Nw)| Some(x.1))
                &&& g@.inner.matrix == apply_edges(empty_matrix::<Ew>(nodes@.len()), mapped_edges(edges@, points_map(nodes@)))
                &&& g@.inner.order == nodes@.len()
                &&& g@.inner.size == crate::graph::counting::edge_count(
                    apply_edges(empty_matrix::<Ew>(nodes@.len()), mapped_edges(edges@, points_map(nodes@))),
                )
            },
    {
        let n = nodes.len();
        let ghost all_nodes = nodes@;
        let mut node_map: NodeMap<GeoPoint, usize> = NodeMap::with_capacity(n);
        let mut inv_node_map: NodeMap<usize, GeoPoint> = NodeMap::with_capacity(n);
        let mut weights: Vec<Nw> = Vec::with_capacity(n);
        let mut i: usize = 0;
        for node in it: nodes.into_iter()
            invariant
                it.seq() == all_nodes,
                n == all_nodes.len(),
                i == it.index(),
                node_map.wf(),
                inv_node_map.wf(),
                node_map@ == points_map(all_nodes.take(i as int)),
                node_map.spec_keys() == point_order(all_nodes.take(i as int)),
                inv_node_map@ == positions_map(all_nodes.take(i as int)),
                weights@ == all_nodes.take(i as int).map_values(|x: (GeoPoint, Nw)| x.1),
        {
            let ghost before = all_nodes.take(i as int);
            proof {
                assert(all_nodes.take(i as int + 1).drop_last() =~= before);
                assert(all_nodes.take(i as int + 1).last() == node);
                node_map.lemma_keys();
            }
            let (point, weight) = node;
            node_map.insert(point, i);
            inv_node_map.insert(i, point);
            weights.push(weight);
            proof {
                assert(inv_node_map@ =~= positions_map(all_nodes.take(i as int + 1)));
                assert(weights@ =~= all_nodes.take(i as int + 1).map_values(|x: (GeoPoint, Nw)| x.1));
            }
            i = i + 1;
        }
        assert(all_nodes.take(n as int) =~= all_nodes);
        proof {
            lemma_points_map_range(all_nodes);
        }

        let ghost all_edges = edges@;
        let ghost pm = points_map(all_nodes);
        for k in 0..edges.len()
            invariant
                all_edges == edges@,
                pm == points_map(nodes@),
                node_map.wf(),
                node_map@ == pm,
                edges_known(all_edges.take(k as int), pm),
        {
            let from = edges[k].0.0;
            let to = edges[k].0.1;
            if !node_map.contains_key(&from) || !node_map.contains_key(&to) {
                proof {
                    lemma_first_unknown_point(all_edges, pm, k as int);
                }
                if !node_map.contains_key(&from) {
                    return Err(GraphError::MissingNode(from));
                } else {
                    return Err(GraphError::MissingNode(to));
                }
            }
            proof {
                assert(edges_known(all_edges.take(k + 1), pm)) by {
                    assert forall|l: int| 0 <= l < k + 1 implies pm.dom().contains(#[trigger] all_edges.take(k + 1)[l].0.0) && pm.dom().contains(all_edges.take(k + 1)[l].0.1) by {
                        if l < k {
                            assert(all_edges.take(k + 1)[l] == all_edges.take(k as int)[l]);
                        }
                    }
                }
            }
        }
        assert(all_edges.take(all_edges.len() as int) =~= all_edges);
        let mut mapped: Vec<(usize, usize, Ew)> = Vec::with_capacity(edges.len());
        for edge in it: edges.into_iter()
            invariant
                it.seq() == all_edges,
                node_map.wf(),
                node_map@ == pm,
                forall|p: GeoPoint| pm.dom().contains(p) ==> #[trigger] pm[p] < n,
                edges_known(all_edges, pm),
                mapped@ == mapped_edges(all_edges.take(it.index() as int), pm),
        {
            let ghost k = it.index() as int;
            proof {
                assert(all_edges[k] == edge);
                assert(pm.dom().contains(all_edges[k].0.0));
            }
            let ((from, to), weight) = edge;
            let from_id = node_map.get(&from).unwrap();
            let to_id = node_map.get(&to).unwrap();
            mapped.push((from_id, to_id, weight));
            proof {
                assert(mapped@ =~= mapped_edges(all_edges.take(k + 1), pm));
            }
        }
        assert(all_edges.take(all_edges.len() as int) =~= all_edges);
        proof {
            assert(crate::graph::matrix_graph::edges_in_range(mapped@, n as nat)) by {
                assert forall|k: int| 0 <= k < mapped@.len() implies #[trigger] mapped@[k].0 < n && mapped@[k].1 < n by {
                    assert(pm.dom().contains(all_edges[k].0.0));
                }
            }
            assert(weights@.map_values(|w: Nw| Some(w)) =~= all_nodes.map_values(|x: (GeoPoint, Nw)| Some(x.1)));
        }
        match crate::graph::MatrixGraph::new(weights, mapped) {
            Ok(graph) => {
                let g = MatrixGraph { internal_graph: graph, node_map, inv_node_map };
                assert(g@.node_map == points_map(all_nodes));
                assert(g@.inv_node_map == positions_map(all_nodes));
                assert(g@.points == point_order(all_nodes));
                assert(g@.inner.nodes == all_nodes.map_values(|x: (GeoPoint, Nw)| Some(x.1)));
                assert(g@.inner.matrix == apply_edges(empty_matrix::<Ew>(all_nodes.len()), mapped_edges(all_edges, pm)));
                assert(g.maps_wf());
                proof {
                    g.node_map.lemma_keys();
                }
                assert(g@.wf());
                Ok(g)
            },
            Err(e) => {
                proof {
                    assert(false);
                }
                Err(GraphError::MissingNode(GeoPoint::from_micro_degrees(0, 0)))
            },
        }
    }
}

impl<Nw, Ew> MatrixGraph<Nw, Ew> {
    /// Returns true if there are no nodes in the graph, or false otherwise.
    pub fn is_empty(&self) -> (empty: bool)
        ensures
            empty == (self@.inner.order == 0),
    {
        self.internal_graph.is_empty()
    }

    /// Returns the number of nodes in this graph.
    pub fn order(&self) -> (order: usize)
        ensures
            order == self@.inner.order,
    {
        self.internal_graph.order()
    }

    /// Returns the number of edges in this graph.
    pub fn size(&self) -> (size: usize)
        ensures
            size == self@.inner.size,
    {
        self.internal_graph.size()
    }

    /// Returns the mapped points, in the order in which they were first mapped.
    pub fn node_ids(&self) -> (ids: Vec<GeoPoint>)
        ensures
            ids@ == self@.points,
    {
        self.node_map.keys()
    }

    /// Returns true if the point is a node of this graph, or false otherwise.
    pub fn has_node(&self, id: GeoPoint) -> (present: bool)
        requires
            self.wf(),
        ensures
            present == self@.has_node(id),
    {
        match self.node_map.get(&id) {
            Some(inner) => self.internal_graph.has_node(inner),
            None => false,
        }
    }

    /// Returns the weight of the node at the point.
    /// An unmapped point gives `MissingNode(id)`; a mapped point whose inner id holds no node
    /// gives `MissingNode` with the point of that inner id.
    pub fn node_weight(&self, id: GeoPoint) -> (res: Result<&Nw, GraphError<GeoPoint>>)
        requires
            self.wf(),
            self@.node_map.dom().contains(id) && !self@.inner.has_node(self@.inner_id(id))
                ==> self@.inv_node_map.dom().contains(self@.inner_id(id)),
        ensures
            res is Ok <==> self@.has_node(id),
            res matches Ok(w) ==> *w == self@.inner.node_weight(self@.inner_id(id)),
            res matches Err(e) ==> e == if self@.node_map.dom().contains(id) {
                GraphError::MissingNode(self@.point(self@.inner_id(id)))
            } else {
                GraphError::MissingNode(id)
            },
    {
        match self.node_map.get(&id) {
            None => Err(GraphError::MissingNode(id)),
            Some(inner) => {
                let weight = self.internal_graph.node_weight(inner);
                self.mapped_result(weight)
            },
        }
    }

    /// Returns the points to which the node at `id` has an edge weight in its inner row,
    /// in the order of their inner ids.
    /// Fails as [`MatrixGraph::node_weight`] does if the point is not a node.
    pub fn neighbor_ids(&self, id: GeoPoint) -> (res: Result<Vec<GeoPoint>, GraphError<GeoPoint>>)
        requires
            self.wf(),
            self@.node_map.dom().contains(id) && !self@.inner.has_node(self@.inner_id(id))
                ==> self@.inv_node_map.dom().contains(self@.inner_id(id)),
            self@.has_node(id) ==> forall|k: int| 0 <= k < self@.inner.neighbor_ids(self@.inner_id(id)).len()
                ==> self@.inv_node_map.dom().contains(#[trigger] self@.inner.neighbor_ids(self@.inner_id(id))[k]),
        ensures
            res is Ok <==> self@.has_node(id),
            res matches Ok(ids) ==> ids@ == self@.inner.neighbor_ids(self@.inner_id(id)).map_values(|j: usize| self@.point(j)),
            res matches Err(e) ==> e == if self@.node_map.dom().contains(id) {
                GraphError::MissingNode(self@.point(self@.inner_id(id)))
            } else {
                GraphError::MissingNode(id)
            },
    {
        let inner = match self.node_map.get(&id) {
            None => {
                return Err(GraphError::MissingNode(id));
            },
            Some(inner) => inner,
        };
        match self.internal_graph.neighbor_ids(inner) {
            Err(e) => self.mapped_result(Err(e)),
            Ok(ids) => {
                let ghost inv = self@.inv_node_map;
                let mut points: Vec<GeoPoint> = Vec::with_capacity(ids.len());
                for k in 0..ids.len()
                    invariant
                        self.wf(),
                        inv == self@.inv_node_map,
                        forall|j: int| 0 <= j < ids@.len() ==> inv.dom().contains(#[trigger] ids@[j]),
                        points@ == ids@.take(k as int).map_values(|j: usize| inv[j]),
                {
                    let p = self.inv_node_map.get(&ids[k]).unwrap();
                    points.push(p);
                    assert(points@ =~= ids@.take(k as int + 1).map_values(|j: usize| inv[j]));
                }
                assert(ids@.take(ids@.len() as int) =~= ids@);
                Ok(points)
            },
        }
    }

    /// Returns the points to which the node at `id` has an edge weight in its inner row, each with
    /// a reference to that weight, in the order of their inner ids.
    /// Fails as [`MatrixGraph::node_weight`] does if the point is not a node.
    pub fn neighbors(&self, id: GeoPoint) -> (res: Result<Vec<(GeoPoint, &Ew)>, GraphError<GeoPoint>>)
        requires
            self.wf(),
            self@.node_map.dom().contains(id) && !self@.inner.has_node(self@.inner_id(id))
                ==> self@.inv_node_map.dom().contains(self@.inner_id(id)),
            self@.has_node(id) ==> forall|k: int| 0 <= k < self@.inner.neighbor_ids(self@.inner_id(id)).len()
                ==> self@.inv_node_map.dom().contains(#[trigger] self@.inner.neighbor_ids(self@.inner_id(id))[k]),
        ensures
            res is Ok <==> self@.has_node(id),
            res matches Ok(ns) ==> ns@.map_values(|p: (GeoPoint, &Ew)| (p.0, *p.1)) == self@.inner.neighbors(
                self@.inner_id(id),
            ).map_values(|p: (usize, Ew)| (self@.point(p.0), p.1)),
            res matches Err(e) ==> e == if self@.node_map.dom().contains(id) {
                GraphError::MissingNode(self@.point(self@.inner_id(id)))
            } else {
                GraphError::MissingNode(id)
            },
    {
        let inner = match self.node_map.get(&id) {
            None => {
                return Err(GraphError::MissingNode(id));
            },
            Some(inner) => inner,
        };
        match self.internal_graph.neighbors(inner) {
            Err(e) => self.mapped_result(Err(e)),
            Ok(inner_ns) => {
                let ghost inv = self@.inv_node_map;
                let ghost row = self@.inner.matrix[inner as int];
                proof {
                    crate::graph::counting::lemma_weighted_row_indices(row);
                    assert forall|j: int| 0 <= j < inner_ns@.len() implies inv.dom().contains(#[trigger] inner_ns@[j].0) by {
                        assert(inner_ns@.map_values(|p: (usize, &Ew)| (p.0, *p.1))[j].0 == inner_ns@[j].0);
                        assert(crate::graph::counting::weighted_row(row).map_values(|p: (usize, Ew)| p.0)[j] == self@.inner.neighbor_ids(inner)[j]);
                    }
                }
                let mut points: Vec<(GeoPoint, &Ew)> = Vec::with_capacity(inner_ns.len());
                for k in 0..inner_ns.len()
                    invariant
                        self.wf(),
                        inv == self@.inv_node_map,
                        forall|j: int| 0 <= j < inner_ns@.len() ==> inv.dom().contains(#[trigger] inner_ns@[j].0),
                        points@.map_values(|p: (GeoPoint, &Ew)| (p.0, *p.1)) == inner_ns@.take(k as int).map_values(
                            |p: (usize, &Ew)| (inv[p.0], *p.1),
                        ),
                {
                    let (j, w) = inner_ns[k];
                    let p = self.inv_node_map.get(&j).unwrap();
                    let ghost before = points@;
                    points.push((p, w));
                    proof {
                        let f = |p: (usize, &Ew)| (inv[p.0], *p.1);
                        assert(inner_ns@.take(k as int + 1) =~= inner_ns@.take(k as int).push(inner_ns@[k as int]));
                        assert(inner_ns@.take(k as int).push(inner_ns@[k as int]).map_values(f) =~= inner_ns@.take(
                            k as int,
                        ).map_values(f).push(f(inner_ns@[k as int])));
                        assert(points@.map_values(|p: (GeoPoint, &Ew)| (p.0, *p.1)) =~= before.map_values(
                            |p: (GeoPoint, &Ew)| (p.0, *p.1),
                        ).push((p, *w)));
                    }
                    assert(points@.map_values(|p: (GeoPoint, &Ew)| (p.0, *p.1)) =~= inner_ns@.take(k as int + 1).map_values(
                        |p: (usize, &Ew)| (inv[p.0], *p.1),
                    ));
                }
                assert(inner_ns@.take(inner_ns@.len() as int) =~= inner_ns@);
                assert(points@.map_values(|p: (GeoPoint, &Ew)| (p.0, *p.1)) =~= self@.inner.neighbors(inner).map_values(
                    |p: (usize, Ew)| (self@.point(p.0), p.1),
                ));
                Ok(points)
            },
        }
    }

    /// Returns the number of neighbors of the node at the point.
    /// Fails as [`MatrixGraph::node_weight`] does if the point is not a node.
    pub fn degree(&self, id: GeoPoint) -> (res: Result<usize, GraphError<GeoPoint>>)
        requires
            self.wf(),
            self@.node_map.dom().contains(id) && !self@.inner.has_node(self@.inner_id(id))
                ==> self@.inv_node_map.dom().contains(self@.inner_id(id)),
        ensures
            res is Ok <==> self@.has_node(id),
            res matches Ok(d) ==> d == self@.inner.neighbor_ids(self@.inner_id(id)).len(),
            res matches Err(e) ==> e == if self@.node_map.dom().contains(id) {
                GraphError::MissingNode(self@.point(self@.inner_id(id)))
            } else {
                GraphError::MissingNode(id)
            },
    {
        match self.node_map.get(&id) {
            None => Err(GraphError::MissingNode(id)),
            Some(inner) => {
                let degree = self.internal_graph.degree(inner);
                self.mapped_result(degree)
            },
        }
    }

    /// Returns all edges of the inner matrix, with their end points given as points, row by row.
    pub fn edge_ids(&self) -> (ids: Vec<Edge<GeoPoint>>)
        requires
            self.wf(),
            forall|k: int| 0 <= k < self@.inner.edge_ids().len() ==> self@.inv_node_map.dom().contains(#[trigger] self@.inner.edge_ids()[k].0)
                && self@.inv_node_map.dom().contains(self@.inner.edge_ids()[k].1),
        ensures
            ids@ == self@.inner.edge_ids().map_values(|e: Edge<usize>| (self@.point(e.0), self@.point(e.1))),
    {
        let inner_ids = self.internal_graph.edge_ids();
        let ghost inv = self@.inv_node_map;
        let mut ids: Vec<Edge<GeoPoint>> = Vec::with_capacity(inner_ids.len());
        for k in 0..inner_ids.len()
            invariant
                self.wf(),
                inv == self@.inv_node_map,
                inner_ids@ == self@.inner.edge_ids(),
                forall|j: int| 0 <= j < inner_ids@.len() ==> inv.dom().contains(#[trigger] inner_ids@[j].0) && inv.dom().contains(inner_ids@[j].1),
                ids@ == inner_ids@.take(k as int).map_values(|e: Edge<usize>| (inv[e.0], inv[e.1])),
        {
            let (from, to) = inner_ids[k];
            let p = self.inv_node_map.get(&from).unwrap();
            let q = self.inv_node_map.get(&to).unwrap();
            ids.push((p, q));
            assert(ids@ =~= inner_ids@.take(k as int + 1).map_values(|e: Edge<usize>| (inv[e.0], inv[e.1])));
        }
        assert(inner_ids@.take(inner_ids@.len() as int) =~= inner_ids@);
        ids
    }

    /// Returns all edges of the inner matrix with references to their weights, with their end
    /// points given as points, row by row.
    pub fn edges(&self) -> (es: Vec<(Edge<GeoPoint>, &Ew)>)
        requires
            self.wf(),
            forall|k: int| 0 <= k < self@.inner.edge_ids().len() ==> self@.inv_node_map.dom().contains(#[trigger] self@.inner.edge_ids()[k].0)
                && self@.inv_node_map.dom().contains(self@.inner.edge_ids()[k].1),
        ensures
            es@.map_values(|p: (Edge<GeoPoint>, &Ew)| (p.0, *p.1)) == self@.inner.edges().map_values(
                |p: (Edge<usize>, Ew)| ((self@.point(p.0.0), self@.point(p.0.1)), p.1),
            ),
    {
        let inner_es = self.internal_graph.edges();
        let ghost inv = self@.inv_node_map;
        proof {
            crate::graph::counting::lemma_weighted_cells_keys(self@.inner.matrix);
            assert forall|j: int| 0 <= j < inner_es@.len() implies inv.dom().contains(#[trigger] inner_es@[j].0.0)
                && inv.dom().contains(inner_es@[j].0.1) by {
                assert(inner_es@.map_values(|p: (Edge<usize>, &Ew)| (p.0, *p.1))[j].0 == inner_es@[j].0);
                assert(crate::graph::counting::weighted_cells(self@.inner.matrix).map_values(
                    |p: ((usize, usize), Ew)| p.0,
                )[j] == self@.inner.edge_ids()[j]);
            }
        }
        let mut es: Vec<(Edge<GeoPoint>, &Ew)> = Vec::with_capacity(inner_es.len());
        for k in 0..inner_es.len()
            invariant
                self.wf(),
                inv == self@.inv_node_map,
                forall|j: int| 0 <= j < inner_es@.len() ==> inv.dom().contains(#[trigger] inner_es@[j].0.0) && inv.dom().contains(
                    inner_es@[j].0.1,
                ),
                es@.map_values(|p: (Edge<GeoPoint>, &Ew)| (p.0, *p.1)) == inner_es@.take(k as int).map_values(
                    |p: (Edge<usize>, &Ew)| ((inv[p.0.0], inv[p.0.1]), *p.1),
                ),
        {
            let ((from, to), w) = inner_es[k];
            let p = self.inv_node_map.get(&from).unwrap();
            let q = self.inv_node_map.get(&to).unwrap();
            let ghost before = es@;
            es.push(((p, q), w));
            proof {
                let f = |p: (Edge<usize>, &Ew)| ((inv[p.0.0], inv[p.0.1]), *p.1);
                assert(inner_es@.take(k as int + 1) =~= inner_es@.take(k as int).push(inner_es@[k as int]));
                assert(inner_es@.take(k as int).push(inner_es@[k as int]).map_values(f) =~= inner_es@.take(
                    k as int,
                ).map_values(f).push(f(inner_es@[k as int])));
                assert(es@.map_values(|p: (Edge<GeoPoint>, &Ew)| (p.0, *p.1)) =~= before.map_values(
                    |p: (Edge<GeoPoint>, &Ew)| (p.0, *p.1),
                ).push(((p, q), *w)));
            }
            assert(es@.map_values(|p: (Edge<GeoPoint>, &Ew)| (p.0, *p.1)) =~= inner_es@.take(k as int + 1).map_values(
                |p: (Edge<usize>, &Ew)| ((inv[p.0.0], inv[p.0.1]), *p.1),
            ));
        }
        assert(inner_es@.take(inner_es@.len() as int) =~= inner_es@);
        assert(es@.map_values(|p: (Edge<GeoPoint>, &Ew)| (p.0, *p.1)) =~= self@.inner.edges().map_values(
            |p: (Edge<usize>, Ew)| ((self@.point(p.0.0), self@.point(p.0.1)), p.1),
        ));
        es
    }

    /// Returns true if the edge exists between two nodes of the graph, or false otherwise.
    /// Both points must be mapped.
    pub fn has_edge(&self, edge: Edge<GeoPoint>) -> (present: bool)
        requires
            self.wf(),
            self@.node_map.dom().contains(edge.0),
            self@.node_map.dom().contains(edge.1),
        ensures
            present == self@.has_edge(edge),
    {
        let from = self.node_map.get(&edge.0).unwrap();
        let to = self.node_map.get(&edge.1).unwrap();
        self.internal_graph.has_edge((from, to))
    }

    /// Returns the weight of an edge between mapped points; an absent edge gives `MissingEdge`
    /// with the points of its inner end points.
    pub fn edge_weight(&self, edge: Edge<GeoPoint>) -> (res: Result<&Ew, GraphError<GeoPoint>>)
        requires
            self.wf(),
            self@.node_map.dom().contains(edge.0),
            self@.node_map.dom().contains(edge.1),
            !self@.has_edge(edge) ==> self@.inv_node_map.dom().contains(self@.inner_edge(edge).0)
                && self@.inv_node_map.dom().contains(self@.inner_edge(edge).1),
        ensures
            res is Ok <==> self@.has_edge(edge),
            res matches Ok(w) ==> *w == self@.inner.edge_weight(self@.inner_edge(edge)),
            res matches Err(e) ==> e == GraphError::MissingEdge(
                (self@.point(self@.inner_edge(edge).0), self@.point(self@.inner_edge(edge).1)),
            ),
    {
        let from = self.node_map.get(&edge.0).unwrap();
        let to = self.node_map.get(&edge.1).unwrap();
        let weight = self.internal_graph.edge_weight((from, to));
        self.mapped_result(weight)
    }
}

impl<Nw, Ew> MatrixGraph<Nw, Ew> {
    /// Adds a node with weight at the point. A mapped point gives `DuplicateNode(id)`.
    /// Otherwise the node takes the first inner id that holds no node, or, where every id
    /// holds one, the next id beyond them.
    pub fn add_node(&mut self, id: GeoPoint, weight: Nw) -> (res: Result<(), GraphError<GeoPoint>>)
        requires
            old(self).wf(),
            !old(self)@.node_map.dom().contains(id) ==> old(self)@.inner.nodes.len() + 2 <= usize::MAX,
        ensures
            final(self).wf(),
            res is Ok <==> !old(self)@.node_map.dom().contains(id),
            res matches Err(e) ==> final(self)@ == old(self)@ && e == GraphError::DuplicateNode(id),
            res is Ok ==> {
                let inner = first_free_slot(old(self)@.inner.nodes) as usize;
                &&& final(self)@.node_map == old(self)@.node_map.insert(id, inner)
                &&& final(self)@.inv_node_map == old(self)@.inv_node_map.insert(inner, id)
                &&& final(self)@.points == old(self)@.points.push(id)
                &&& final(self)@.inner.nodes == crate::graph::matrix_graph::grown_nodes(old(self)@.inner.nodes, inner).update(inner as int, Some(weight))
                &&& final(self)@.inner.matrix == crate::graph::matrix_graph::grown_matrix(old(self)@.inner.matrix, old(self)@.inner.nodes.len(), inner)
                &&& final(self)@.inner.order == old(self)@.inner.order + 1
                &&& final(self)@.inner.size == old(self)@.inner.size
                &&& final(self)@.has_node(id)
                &&& final(self)@.inner.node_weight(inner) == weight
            },
    {
        if self.node_map.contains_key(&id) {
            return Err(GraphError::DuplicateNode(id));
        }
        let ghost old_view = self@;
        let slots = self.internal_graph.node_weights();
        let n = slots.len();
        let mut inner_id: usize = 0;
        while inner_id < n
            invariant
                inner_id <= n,
                n == slots@.len(),
                forall|j: int| 0 <= j < inner_id ==> #[trigger] slots@[j] is Some,
            ensures
                inner_id <= n,
                inner_id < n ==> slots@[inner_id as int] is None,
                forall|j: int| 0 <= j < inner_id ==> #[trigger] slots@[j] is Some,
            decreases n - inner_id,
        {
            if slots[inner_id].is_none() {
                break;
            }
            inner_id = inner_id + 1;
        }
        proof {
            lemma_first_free_slot(old_view.inner.nodes, inner_id as int);
            assert(!old_view.inner.has_node(inner_id));
            assert(!old_view.inv_node_map.dom().contains(inner_id));
        }
        let res = self.internal_graph.add_node(inner_id, weight);
        proof {
            self.node_map.lemma_keys();
        }
        self.node_map.insert(id, inner_id);
        self.inv_node_map.insert(inner_id, id);
        proof {
            self.node_map.lemma_keys();
            let v = self@;
            assert(v.node_map.dom().finite());
            assert forall|p: GeoPoint| #[trigger] v.node_map.dom().contains(p)
                implies v.inv_node_map.dom().contains(v.node_map[p]) && v.inv_node_map[v.node_map[p]] == p by {
                if p != id {
                    assert(old_view.node_map.dom().contains(p));
                    assert(old_view.inner.has_node(old_view.node_map[p]));
                }
            }
            assert forall|i: usize| #![trigger v.inv_node_map.dom().contains(i)] #![trigger v.inner.has_node(i)]
                v.inv_node_map.dom().contains(i) <==> v.inner.has_node(i) by {
                if i != inner_id {
                    assert(old_view.inv_node_map.dom().contains(i) <==> old_view.inner.has_node(i));
                    if i < old_view.inner.nodes.len() {
                        assert(v.inner.nodes[i as int] == old_view.inner.nodes[i as int]);
                    }
                }
            }
        }
        Ok(())
    }

    /// Removes the node at the point, with its inner node, the edges from and to it, and both
    /// map entries; does nothing if the point is not mapped.
    pub fn remove_node(&mut self, id: GeoPoint)
        requires
            old(self).wf(),
        ensures
            final(self).wf(),
            !old(self)@.node_map.dom().contains(id) ==> final(self)@ == old(self)@,
            old(self)@.node_map.dom().contains(id) ==> {
                let inner = old(self)@.inner_id(id);
                &&& final(self)@.node_map == old(self)@.node_map.remove(id)
                &&& final(self)@.inv_node_map == old(self)@.inv_node_map.remove(inner)
                &&& final(self)@.inner.nodes == old(self)@.inner.nodes.update(inner as int, None)
                &&& final(self)@.inner.matrix == crate::graph::matrix_graph::removed_node_matrix(old(self)@.inner.matrix, inner)
                &&& final(self)@.inner.order == old(self)@.inner.order - 1
            },
            !final(self)@.has_node(id),
    {
        if let Some(inner_id) = self.node_map.get(&id) {
            let ghost old_view = self@;
            proof {
                assert(old_view.inner.has_node(inner_id));
            }
            self.node_map.remove(&id);
            self.inv_node_map.remove(&inner_id);
            self.internal_graph.remove_node(inner_id);
            proof {
                self.node_map.lemma_keys();
                let v = self@;
                assert forall|p: GeoPoint| #[trigger] v.node_map.dom().contains(p)
                    implies v.inv_node_map.dom().contains(v.node_map[p]) && v.inv_node_map[v.node_map[p]] == p by {
                    assert(old_view.node_map.dom().contains(p));
                    assert(old_view.inv_node_map[old_view.node_map[p]] == p);
                }
                assert forall|i: usize| #![trigger v.inv_node_map.dom().contains(i)] #![trigger v.inner.has_node(i)]
                    v.inv_node_map.dom().contains(i) <==> v.inner.has_node(i) by {
                    assert(old_view.inv_node_map.dom().contains(i) <==> old_view.inner.has_node(i));
                }
            }
        }
    }

    /// Changes the weight of the node at the point.
    /// A node that is not in the graph is added as by [`MatrixGraph::add_node`].
    pub fn change_node(&mut self, id: GeoPoint, weight: Nw)
        requires
            old(self).wf(),
            !old(self)@.node_map.dom().contains(id) ==> old(self)@.inner.nodes.len() + 2 <= usize::MAX,
        ensures
            final(self).wf(),
            final(self)@.has_node(id),
            final(self)@.inner.node_weight(final(self)@.inner_id(id)) == weight,
            final(self)@.inner.size == old(self)@.inner.size,
            old(self)@.node_map.dom().contains(id) ==> {
                &&& final(self)@.node_map == old(self)@.node_map
                &&& final(self)@.inv_node_map == old(self)@.inv_node_map
                &&& final(self)@.points == old(self)@.points
                &&& final(self)@.inner.nodes == old(self)@.inner.nodes.update(old(self)@.inner_id(id) as int, Some(weight))
                &&& final(self)@.inner.matrix == old(self)@.inner.matrix
                &&& final(self)@.inner.order == old(self)@.inner.order
            },
            !old(self)@.node_map.dom().contains(id) ==> {
                let inner = first_free_slot(old(self)@.inner.nodes) as usize;
                &&& final(self)@.node_map == old(self)@.node_map.insert(id, inner)
                &&& final(self)@.inv_node_map == old(self)@.inv_node_map.insert(inner, id)
                &&& final(self)@.points == old(self)@.points.push(id)
                &&& final(self)@.inner.nodes == crate::graph::matrix_graph::grown_nodes(old(self)@.inner.nodes, inner).update(inner as int, Some(weight))
                &&& final(self)@.inner.matrix == crate::graph::matrix_graph::grown_matrix(old(self)@.inner.matrix, old(self)@.inner.nodes.len(), inner)
                &&& final(self)@.inner.order == old(self)@.inner.order + 1
            },
    {
        match self.node_map.get(&id) {
            Some(inner_id) => {
                let ghost old_view = self@;
                proof {
                    assert(old_view.inner.has_node(inner_id));
                }
                self.internal_graph.change_node(inner_id, weight);
                proof {
                    let v = self@;
                    assert forall|i: usize| #![trigger v.inv_node_map.dom().contains(i)] #![trigger v.inner.has_node(i)]
                        v.inv_node_map.dom().contains(i) <==> v.inner.has_node(i) by {
                        assert(old_view.inv_node_map.dom().contains(i) <==> old_view.inner.has_node(i));
                    }
                }
            },
            None => {
                let _ = self.add_node(id, weight);
            },
        }
    }

    /// Adds a new weighted edge between two points.
    /// An unmapped start or end point gives `MissingNode` with that point (the start first);
    /// otherwise the inner graph adds the edge, and its error is given with points.
    pub fn add_edge(&mut self, edge: Edge<GeoPoint>, weight: Ew) -> (res: Result<(), GraphError<GeoPoint>>)
        requires
            old(self).wf(),
            old(self)@.inner.size < usize::MAX,
            old(self)@.node_map.dom().contains(edge.0) && old(self)@.node_map.dom().contains(edge.1)
                ==> (old(self)@.inner.add_edge_error(old(self)@.inner_edge(edge)) matches Some(e)
                ==> error_ids_known(old(self)@.inv_node_map, e)),
        ensures
            final(self).wf(),
            !old(self)@.node_map.dom().contains(edge.0) ==> res == Err::<(), GraphError<GeoPoint>>(GraphError::MissingNode(edge.0)) && final(self)@ == old(self)@,
            old(self)@.node_map.dom().contains(edge.0) && !old(self)@.node_map.dom().contains(edge.1)
                ==> res == Err::<(), GraphError<GeoPoint>>(GraphError::MissingNode(edge.1)) && final(self)@ == old(self)@,
            old(self)@.node_map.dom().contains(edge.0) && old(self)@.node_map.dom().contains(edge.1) ==> {
                let inner = old(self)@.inner_edge(edge);
                &&& final(self)@.node_map == old(self)@.node_map
                &&& final(self)@.inv_node_map == old(self)@.inv_node_map
                &&& final(self)@.points == old(self)@.points
                &&& (res is Ok <==> old(self)@.inner.add_edge_error(inner) is None)
                &&& (old(self)@.inner.add_edge_error(inner) matches Some(e) ==> res == Err::<(), GraphError<GeoPoint>>(map_error(old(self)@.inv_node_map, e))
                    && final(self)@ == old(self)@)
                &&& (res is Ok ==> {
                    &&& final(self)@.inner.matrix == crate::graph::matrix_graph::set_cell(old(self)@.inner.matrix, inner.0 as int, inner.1 as int, Some(weight))
                    &&& final(self)@.inner.nodes == old(self)@.inner.nodes
                    &&& final(self)@.inner.size == old(self)@.inner.size + 1
                    &&& final(self)@.has_edge(edge)
                })
            },
    {
        let from = match self.node_map.get(&edge.0) {
            None => {
                return Err(GraphError::MissingNode(edge.0));
            },
            Some(from) => from,
        };
        let to = match self.node_map.get(&edge.1) {
            None => {
                return Err(GraphError::MissingNode(edge.1));
            },
            Some(to) => to,
        };
        let res = self.internal_graph.add_edge((from, to), weight);
        self.mapped_result(res)
    }

    /// Removes the edge between two mapped points; does nothing if it is not in the graph.
    pub fn remove_edge(&mut self, edge: Edge<GeoPoint>)
        requires
            old(self).wf(),
            old(self)@.node_map.dom().contains(edge.0),
            old(self)@.node_map.dom().contains(edge.1),
        ensures
            final(self).wf(),
            final(self)@.node_map == old(self)@.node_map,
            final(self)@.inv_node_map == old(self)@.inv_node_map,
            final(self)@.points == old(self)@.points,
            final(self)@.inner.nodes == old(self)@.inner.nodes,
            old(self)@.has_edge(edge) ==> {
                let inner = old(self)@.inner_edge(edge);
                &&& final(self)@.inner.matrix == crate::graph::matrix_graph::set_cell(old(self)@.inner.matrix, inner.0 as int, inner.1 as int, None)
                &&& final(self)@.inner.size == old(self)@.inner.size - 1
            },
            !old(self)@.has_edge(edge) ==> final(self)@ == old(self)@,
            !final(self)@.has_edge(edge),
    {
        let from = self.node_map.get(&edge.0).unwrap();
        let to = self.node_map.get(&edge.1).unwrap();
        self.internal_graph.remove_edge((from, to));
    }

    /// Changes the weight of the edge between two mapped points, adding it if it was absent;
    /// an error of the inner graph is given with points.
    pub fn change_edge(&mut self, edge: Edge<GeoPoint>, weight: Ew) -> (res: Result<(), GraphError<GeoPoint>>)
        requires
            old(self).wf(),
            old(self)@.inner.size < usize::MAX,
            old(self)@.node_map.dom().contains(edge.0),
            old(self)@.node_map.dom().contains(edge.1),
            old(self)@.inner.change_edge_error(old(self)@.inner_edge(edge)) matches Some(e) ==> error_ids_known(old(self)@.inv_node_map, e),
        ensures
            final(self).wf(),
            final(self)@.node_map == old(self)@.node_map,
            final(self)@.inv_node_map == old(self)@.inv_node_map,
            final(self)@.points == old(self)@.points,
            res is Ok <==> old(self)@.inner.change_edge_error(old(self)@.inner_edge(edge)) is None,
            old(self)@.inner.change_edge_error(old(self)@.inner_edge(edge)) matches Some(e) ==> res == Err::<(), GraphError<GeoPoint>>(map_error(old(self)@.inv_node_map, e))
                && final(self)@ == old(self)@,
            res is Ok ==> {
                let inner = old(self)@.inner_edge(edge);
                &&& final(self)@.inner.matrix == crate::graph::matrix_graph::set_cell(old(self)@.inner.matrix, inner.0 as int, inner.1 as int, Some(weight))
                &&& final(self)@.inner.nodes == old(self)@.inner.nodes
                &&& final(self)@.has_edge(edge)
                &&& final(self)@.inner.edge_weight(inner) == weight
            },
    {
        let from = self.node_map.get(&edge.0).unwrap();
        let to = self.node_map.get(&edge.1).unwrap();
        let res = self.internal_graph.change_edge((from, to), weight);
        self.mapped_result(res)
    }
}

/// Distinct mapped points have distinct inner ids.
proof fn lemma_points_have_distinct_ids<Nw, Ew>(v: GeoGraphView<Nw, Ew>, p: GeoPoint, q: GeoPoint)
    requires
        v.wf(),
        v.node_map.dom().contains(p),
        v.node_map.dom().contains(q),
        p != q,
    ensures
        v.node_map[p] != v.node_map[q],
{
    assert(v.inv_node_map[v.node_map[p]] == p);
    assert(v.inv_node_map[v.node_map[q]] == q);
}

/// The first free slot holds no node, or lies just past the end.
proof fn lemma_first_free_slot_is_free<Nw>(nodes: Seq<Option<Nw>>)
    ensures
        first_free_slot(nodes) <= nodes.len(),
        first_free_slot(nodes) < nodes.len() ==> nodes[first_free_slot(nodes) as int] is None,
    decreases nodes.len(),
{
    if nodes.len() > 0 && nodes[0] is Some {
        let rest = nodes.drop_first();
        lemma_first_free_slot_is_free(rest);
        if first_free_slot(rest) < rest.len() {
            assert(rest[first_free_slot(rest) as int] == nodes[first_free_slot(rest) + 1int]);
        }
    }
}

/// Adding a point at the first free slot keeps every other point with its weight, and every
/// edge with its weight; the new point has no edges.
proof fn lemma_added_point_keeps_the_rest<Nw, Ew>(v: GeoGraphView<Nw, Ew>, w: GeoGraphView<Nw, Ew>, id: GeoPoint, weight: Nw)
    requires
        v.wf(),
        !v.node_map.dom().contains(id),
        v.inner.nodes.len() + 2 <= usize::MAX,
        ({
            let slot = first_free_slot(v.inner.nodes) as usize;
            &&& w.node_map == v.node_map.insert(id, slot)
            &&& w.inner.nodes == crate::graph::matrix_graph::grown_nodes(v.inner.nodes, slot).update(slot as int, Some(weight))
            &&& w.inner.matrix == crate::graph::matrix_graph::grown_matrix(v.inner.matrix, v.inner.nodes.len(), slot)
        }),
    ensures
        forall|p: GeoPoint| p != id ==> (#[trigger] w.has_node(p) == v.has_node(p)),
        forall|p: GeoPoint| p != id && v.has_node(p) ==> #[trigger] w.inner.node_weight(w.node_map[p]) == v.inner.node_weight(v.node_map[p]),
        forall|e: Edge<GeoPoint>| #[trigger] w.has_edge(e) == v.has_edge(e),
        forall|e: Edge<GeoPoint>| v.has_edge(e) ==> #[trigger] w.inner.edge_weight(w.inner_edge(e)) == v.inner.edge_weight(v.inner_edge(e)),
{
    lemma_first_free_slot_is_free(v.inner.nodes);
    let n = v.inner.nodes.len();
    let slot = first_free_slot(v.inner.nodes) as usize;
    assert forall|p: GeoPoint| #[trigger] v.node_map.dom().contains(p) implies v.inner.has_node(v.node_map[p]) && v.node_map[p] != slot by {
        assert(v.inv_node_map.dom().contains(v.node_map[p]));
    }
    assert forall|i: usize| i < n && i != slot implies #[trigger] w.inner.nodes[i as int] == v.inner.nodes[i as int] by {}
    assert forall|a: usize, b: usize| a < n && b < n implies #[trigger] w.inner.matrix[a as int][b as int] == v.inner.matrix[a as int][b as int] by {}
    assert forall|b: usize| w.inner.has_node(b) implies w.inner.matrix[slot as int][b as int] is None && w.inner.matrix[b as int][slot as int] is None by {
        if slot < n {
            if b < n && v.inner.matrix[slot as int][b as int] is Some {
                assert(v.inner.nodes[slot as int] is Some);
            }
            if b < n && v.inner.matrix[b as int][slot as int] is Some {
                assert(v.inner.nodes[slot as int] is Some);
            }
        }
    }
    assert forall|e: Edge<GeoPoint>| #[trigger] w.has_edge(e) == v.has_edge(e) by {
        if e.0 == id || e.1 == id {
            if w.has_edge(e) {
                if e.0 == id {
                    assert(w.inner.matrix[slot as int][w.node_map[e.1] as int] is None);
                } else {
                    assert(w.inner.matrix[w.node_map[e.0] as int][slot as int] is None);
                }
            }
        } else if v.node_map.dom().contains(e.0) && v.node_map.dom().contains(e.1) {
            assert(v.inner.has_node(v.node_map[e.0]));
            assert(v.inner.has_node(v.node_map[e.1]));
            assert(w.inner.matrix[v.node_map[e.0] as int][v.node_map[e.1] as int] == v.inner.matrix[v.node_map[e.0] as int][v.node_map[e.1] as int]);
        }
    }
    assert forall|e: Edge<GeoPoint>| v.has_edge(e) implies #[trigger] w.inner.edge_weight(w.inner_edge(e)) == v.inner.edge_weight(v.inner_edge(e)) by {
        assert(v.inner.has_node(v.node_map[e.0]));
        assert(v.inner.has_node(v.node_map[e.1]));
        assert(w.inner.matrix[v.node_map[e.0] as int][v.node_map[e.1] as int] == v.inner.matrix[v.node_map[e.0] as int][v.node_map[e.1] as int]);
    }
}

/// A slot index below which every slot holds a node, and which is free or past the end,
/// is the first free slot.
proof fn lemma_first_free_slot<Nw>(nodes: Seq<Option<Nw>>, k: int)
    requires
        0 <= k <= nodes.len(),
        forall|j: int| 0 <= j < k ==> #[trigger] nodes[j] is Some,
        k < nodes.len() ==> nodes[k] is None,
    ensures
        first_free_slot(nodes) == k,
    decreases k,
{
    if k > 0 {
        let rest = nodes.drop_first();
        assert(nodes[0] is Some);
        assert forall|j: int| 0 <= j < k - 1 implies #[trigger] rest[j] is Some by {
            assert(rest[j] == nodes[j + 1]);
        }
        if k - 1 < rest.len() {
            assert(rest[k - 1] == nodes[k]);
        }
        lemma_first_free_slot(rest, k - 1);
    }
}

/// Every mapped point refers to a position of the node list that holds that point, and the map is finite.
proof fn lemma_points_map_range<Nw>(nodes: Seq<(GeoPoint, Nw)>)
    requires
        nodes.len() <= usize::MAX,
    ensures
        forall|p: GeoPoint| points_map(nodes).dom().contains(p) ==> #[trigger] points_map(nodes)[p] < nodes.len()
            && nodes[points_map(nodes)[p] as int].0 == p,
        points_map(nodes).dom().finite(),
    decreases nodes.len(),
{
    if nodes.len() > 0 {
        let rest = nodes.drop_last();
        lemma_points_map_range(rest);
        assert forall|p: GeoPoint| points_map(nodes).dom().contains(p) implies #[trigger] points_map(nodes)[p]
            < nodes.len() && nodes[points_map(nodes)[p] as int].0 == p by {
            assert(points_map(nodes) == points_map(rest).insert(nodes.last().0, (nodes.len() - 1) as usize));
            if p != nodes.last().0 {
                assert(points_map(rest).dom().contains(p));
                assert(points_map(nodes)[p] == points_map(rest)[p]);
                assert(rest[points_map(rest)[p] as int] == nodes[points_map(rest)[p] as int]);
            } else {
                assert(points_map(nodes)[p] == nodes.len() - 1);
                assert(nodes[nodes.len() - 1] == nodes.last());
            }
        }
    }
}

/// When edge `k` is the first with an unknown endpoint, that endpoint is the one reported.
proof fn lemma_first_unknown_point<Ew>(es: Seq<(Edge<GeoPoint>, Ew)>, m: Map<GeoPoint, usize>, k: int)
    requires
        0 <= k < es.len(),
        !(m.dom().contains(es[k].0.0) && m.dom().contains(es[k].0.1)),
        edges_known(es.take(k), m),
    ensures
        first_unknown_point(es, m) == if !m.dom().contains(es[k].0.0) {
            es[k].0.0
        } else {
            es[k].0.1
        },
        !edges_known(es, m),
    decreases k,
{
    assert(es.take(k).len() == k);
    if k > 0 {
        let rest = es.drop_first();
        assert(es.take(k)[0] == es[0]);
        assert(m.dom().contains(es.take(k)[0].0.0));
        assert(m.dom().contains(es[0].0.0) && m.dom().contains(es[0].0.1));
        assert(edges_known(rest.take(k - 1), m)) by {
            assert forall|l: int| 0 <= l < k - 1 implies m.dom().contains(#[trigger] rest.take(k - 1)[l].0.0) && m.dom().contains(rest.take(k - 1)[l].0.1) by {
                assert(rest.take(k - 1)[l] == es.take(k)[l + 1]);
                assert(m.dom().contains(es.take(k)[l + 1].0.0));
            }
        }
        assert(rest[k - 1] == es[k]);
        lemma_first_unknown_point(rest, m, k - 1);
    }
}

} // verus!

verus! {

impl<Nw, Ew> crate::graph::GenericWeightedGraph for MatrixGraph<Nw, Ew> {
    type IndexType = GeoPoint;
    type NodeWeightType = Nw;
    type EdgeWeightType = Ew;

    open spec fn graph_wf(&self) -> bool {
        self.wf()
    }

    open spec fn spec_order(&self) -> nat {
        self@.inner.order
    }

    open spec fn spec_size(&self) -> nat {
        self@.inner.size
    }

    open spec fn spec_node_ids(&self) -> Seq<GeoPoint> {
        self@.points
    }

    open spec fn spec_has_node(&self, id: GeoPoint) -> bool {
        self@.has_node(id)
    }

    open spec fn spec_node_weight(&self, id: GeoPoint) -> Nw {
        self@.inner.node_weight(self@.inner_id(id))
    }

    open spec fn spec_neighbor_ids(&self, id: GeoPoint) -> Seq<GeoPoint> {
        self@.inner.neighbor_ids(self@.inner_id(id)).map_values(|j: usize| self@.point(j))
    }

    open spec fn node_error(&self, id: GeoPoint) -> GraphError<GeoPoint> {
        if self@.node_map.dom().contains(id) {
            GraphError::MissingNode(self@.point(self@.inner_id(id)))
        } else {
            GraphError::MissingNode(id)
        }
    }

    open spec fn node_queryable(&self, id: GeoPoint) -> bool {
        &&& self@.node_map.dom().contains(id) && !self@.inner.has_node(self@.inner_id(id))
            ==> self@.inv_node_map.dom().contains(self@.inner_id(id))
        &&& self@.has_node(id) ==> forall|k: int|
            0 <= k < self@.inner.neighbor_ids(self@.inner_id(id)).len()
                ==> self@.inv_node_map.dom().contains(#[trigger] self@.inner.neighbor_ids(self@.inner_id(id))[k])
    }

    open spec fn spec_has_edge(&self, edge: Edge<GeoPoint>) -> bool {
        self@.has_edge(edge)
    }

    open spec fn spec_edge_weight(&self, edge: Edge<GeoPoint>) -> Ew {
        self@.inner.edge_weight(self@.inner_edge(edge))
    }

    open spec fn edge_error(&self, edge: Edge<GeoPoint>) -> GraphError<GeoPoint> {
        GraphError::MissingEdge((self@.point(self@.inner_edge(edge).0), self@.point(self@.inner_edge(edge).1)))
    }

    open spec fn edge_queryable(&self, edge: Edge<GeoPoint>) -> bool {
        &&& self@.node_map.dom().contains(edge.0)
        &&& self@.node_map.dom().contains(edge.1)
        &&& !self@.has_edge(edge) ==> self@.inv_node_map.dom().contains(self@.inner_edge(edge).0)
            && self@.inv_node_map.dom().contains(self@.inner_edge(edge).1)
    }

    open spec fn spec_edge_ids(&self) -> Seq<Edge<GeoPoint>> {
        self@.inner.edge_ids().map_values(|e: Edge<usize>| (self@.point(e.0), self@.point(e.1)))
    }

    open spec fn edges_listable(&self) -> bool {
        forall|k: int|
            0 <= k < self@.inner.edge_ids().len() ==> self@.inv_node_map.dom().contains(
                #[trigger] self@.inner.edge_ids()[k].0,
            ) && self@.inv_node_map.dom().contains(self@.inner.edge_ids()[k].1)
    }

    open spec fn spec_neighbors(&self, id: GeoPoint) -> Seq<(GeoPoint, Ew)> {
        self@.inner.neighbors(self@.inner_id(id)).map_values(|p: (usize, Ew)| (self@.point(p.0), p.1))
    }

    open spec fn spec_edges(&self) -> Seq<(Edge<GeoPoint>, Ew)> {
        self@.inner.edges().map_values(|p: (Edge<usize>, Ew)| ((self@.point(p.0.0), self@.point(p.0.1)), p.1))
    }

    open spec fn node_room(&self, id: GeoPoint) -> bool {
        !self@.node_map.dom().contains(id) ==> self@.inner.nodes.len() + 2 <= usize::MAX
    }

    open spec fn add_node_error(&self, id: GeoPoint) -> Option<GraphError<GeoPoint>> {
        if self@.node_map.dom().contains(id) {
            Some(GraphError::DuplicateNode(id))
        } else {
            None
        }
    }

    open spec fn node_changeable(&self, id: GeoPoint) -> bool {
        !self@.node_map.dom().contains(id) ==> self@.inner.nodes.len() + 2 <= usize::MAX
    }

    open spec fn edge_room(&self, edge: Edge<GeoPoint>) -> bool {
        &&& self@.inner.size < usize::MAX
        &&& self@.node_map.dom().contains(edge.0) && self@.node_map.dom().contains(edge.1)
            ==> (self@.inner.add_edge_error(self@.inner_edge(edge)) matches Some(e) ==> error_ids_known(self@.inv_node_map, e))
    }

    open spec fn add_edge_error(&self, edge: Edge<GeoPoint>) -> Option<GraphError<GeoPoint>> {
        if !self@.node_map.dom().contains(edge.0) {
            Some(GraphError::MissingNode(edge.0))
        } else if !self@.node_map.dom().contains(edge.1) {
            Some(GraphError::MissingNode(edge.1))
        } else {
            match self@.inner.add_edge_error(self@.inner_edge(edge)) {
                Some(e) => Some(map_error(self@.inv_node_map, e)),
                None => None,
            }
        }
    }

    open spec fn edge_changeable(&self, edge: Edge<GeoPoint>) -> bool {
        &&& self@.inner.size < usize::MAX
        &&& self@.node_map.dom().contains(edge.0)
        &&& self@.node_map.dom().contains(edge.1)
        &&& self@.inner.change_edge_error(self@.inner_edge(edge)) matches Some(e) ==> error_ids_known(self@.inv_node_map, e)
    }

    open spec fn change_edge_error(&self, edge: Edge<GeoPoint>) -> Option<GraphError<GeoPoint>> {
        match self@.inner.change_edge_error(self@.inner_edge(edge)) {
            Some(e) => Some(map_error(self@.inv_node_map, e)),
            None => None,
        }
    }

    open spec fn edge_removable(&self, edge: Edge<GeoPoint>) -> bool {
        self@.node_map.dom().contains(edge.0) && self@.node_map.dom().contains(edge.1)
    }

    fn is_empty(&self) -> (empty: bool) {
        MatrixGraph::is_empty(self)
    }

    fn order(&self) -> (order: usize) {
        MatrixGraph::order(self)
    }

    fn size(&self) -> (size: usize) {
        MatrixGraph::size(self)
    }

    fn node_ids(&self) -> (ids: Vec<GeoPoint>) {
        MatrixGraph::node_ids(self)
    }

    fn node_weight(&self, id: GeoPoint) -> (res: Result<&Nw, GraphError<GeoPoint>>) {
        MatrixGraph::node_weight(self, id)
    }

    fn neighbor_ids(&self, id: GeoPoint) -> (res: Result<Vec<GeoPoint>, GraphError<GeoPoint>>) {
        MatrixGraph::neighbor_ids(self, id)
    }

    fn has_node(&self, id: GeoPoint) -> (present: bool) {
        MatrixGraph::has_node(self, id)
    }

    fn degree(&self, id: GeoPoint) -> (res: Result<usize, GraphError<GeoPoint>>) {
        MatrixGraph::degree(self, id)
    }

    fn edge_ids(&self) -> (ids: Vec<Edge<GeoPoint>>) {
        MatrixGraph::edge_ids(self)
    }

    fn edge_weight(&self, edge: Edge<GeoPoint>) -> (res: Result<&Ew, GraphError<GeoPoint>>) {
        MatrixGraph::edge_weight(self, edge)
    }

    fn has_edge(&self, edge: Edge<GeoPoint>) -> (present: bool) {
        MatrixGraph::has_edge(self, edge)
    }

    fn neighbors(&self, id: GeoPoint) -> (res: Result<Vec<(GeoPoint, &Ew)>, GraphError<GeoPoint>>) {
        MatrixGraph::neighbors(self, id)
    }

    fn edges(&self) -> (es: Vec<(Edge<GeoPoint>, &Ew)>) {
        MatrixGraph::edges(self)
    }

    fn add_node(&mut self, id: GeoPoint, weight: Nw) -> (res: Result<(), GraphError<GeoPoint>>) {
        let ghost before = self@;
        let res = MatrixGraph::add_node(self, id, weight);
        proof {
            if res is Ok {
                lemma_added_point_keeps_the_rest(before, self@, id, weight);
            }
        }
        res
    }

    fn remove_node(&mut self, id: GeoPoint) {
        MatrixGraph::remove_node(self, id)
    }

    fn change_node(&mut self, id: GeoPoint, weight: Nw) {
        let ghost before = self@;
        MatrixGraph::change_node(self, id, weight);
        proof {
            if before.node_map.dom().contains(id) {
                let after = self@;
                assert forall|p: GeoPoint| p != id && #[trigger] before.node_map.dom().contains(p) implies before.node_map[p] != before.node_map[id] by {
                    lemma_points_have_distinct_ids(before, p, id);
                }
                assert forall|p: GeoPoint| #[trigger] before.node_map.dom().contains(p) implies after.inner.has_node(before.node_map[p]) == before.inner.has_node(before.node_map[p]) by {
                    if p != id {
                        lemma_points_have_distinct_ids(before, p, id);
                    }
                }
            } else {
                lemma_added_point_keeps_the_rest(before, self@, id, weight);
            }
        }
    }

    fn add_edge(&mut self, edge: Edge<GeoPoint>, weight: Ew) -> (res: Result<(), GraphError<GeoPoint>>) {
        MatrixGraph::add_edge(self, edge, weight)
    }

    fn remove_edge(&mut self, edge: Edge<GeoPoint>) {
        MatrixGraph::remove_edge(self, edge)
    }

    fn change_edge(&mut self, edge: Edge<GeoPoint>, weight: Ew) -> (res: Result<(), GraphError<GeoPoint>>) {
        let ghost before = self@;
        let res = MatrixGraph::change_edge(self, edge, weight);
        proof {
            assert forall|e: Edge<GeoPoint>| e != edge && #[trigger] before.has_edge(e) implies before.inner_edge(e) != before.inner_edge(edge) by {
                if e.0 != edge.0 {
                    lemma_points_have_distinct_ids(before, e.0, edge.0);
                } else {
                    lemma_points_have_distinct_ids(before, e.1, edge.1);
                }
            }
            if res is Ok {
                let after = self@;
                let m = before.inner.matrix;
                let c = before.inner_edge(edge);
                crate::graph::counting::lemma_edge_count_set(m, c.0 as int, c.1 as int, Some(weight));
                assert(after.inner.matrix == m.update(c.0 as int, m[c.0 as int].update(c.1 as int, Some(weight))));
                assert forall|e: Edge<GeoPoint>| e != edge && #[trigger] before.has_edge(e) implies after.inner.edge_weight(after.inner_edge(e)) == before.inner.edge_weight(before.inner_edge(e)) by {
                    let d = before.inner_edge(e);
                    assert(d != c);
                    assert(after.inner_edge(e) == d);
                    if d.0 == c.0 {
                        assert(after.inner.matrix[d.0 as int] == m[c.0 as int].update(c.1 as int, Some(weight)));
                    } else {
                        assert(after.inner.matrix[d.0 as int] == m[d.0 as int]);
                    }
                }
            }
        }
        res
    }
}

} // verus!
