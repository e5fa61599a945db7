use orienteering::geo::GeoPoint;
use orienteering::graph::geo::MatrixGraph as GeoMatrixGraph;
use orienteering::graph::{GraphError, MatrixGraph};

fn valid_weighted() -> MatrixGraph<usize, usize> {
    MatrixGraph::new(
        vec![1, 2, 3],
        vec![(0, 1, 100), (1, 2, 101), (2, 1, 50), (2, 0, 200)],
    )
    .unwrap()
}

fn valid_vector_weighted() -> MatrixGraph<Vec<usize>, Vec<usize>> {
    MatrixGraph::new_usize_indexed(
        vec![vec![1, 2, 3], vec![4, 5, 6], vec![7, 8, 9]],
        vec![
            (0, 1, vec![100, 200, 300]),
            (1, 2, vec![101, 201, 301]),
            (2, 1, vec![50, 150, 250]),
            (2, 0, vec![200, 300, 400]),
        ],
    )
    .unwrap()
}

#[test]
fn matrix_graph_new_empty_weighted_works() {
    let graph = MatrixGraph::<usize, usize>::default();

    assert_eq!(
        graph.node_weights(),
        &Vec::<Option<usize>>::new(),
        "Node weight array is not empty."
    );
    assert_eq!(
        graph.adjacency_matrix(),
        &Vec::<Vec<Option<usize>>>::new(),
        "Adjacency matrix is not empty."
    );
    assert!(graph.is_empty(), "Graph is not empty.");

    geo_new_empty_weighted_works();
}

#[test]
fn matrix_graph_new_weighted_with_size_works() {
    let graph = MatrixGraph::<usize, usize>::with_size(5);

    assert!(
        graph.node_weights().capacity() >= 5,
        "Not enough space given for nodes."
    );
    for weight in graph.node_weights().iter() {
        assert!(weight.is_none(), "Node weight was initialized with a value.");
    }
    for edges in graph.adjacency_matrix().iter() {
        for edge in edges.iter() {
            assert!(edge.is_none(), "Edge weight was initialized with a value.");
        }
    }

    geo_new_weighted_with_size_works();
}

#[test]
fn matrix_graph_new_weighted_from_lists_works() {
    let graph = valid_weighted();

    assert!(
        graph.node_weights().capacity() >= 3,
        "Array was created too small."
    );
    assert_eq!(
        graph.node_weights(),
        &vec![Some(1), Some(2), Some(3)],
        "Node weights are wrong."
    );
    assert_eq!(
        graph.adjacency_matrix(),
        &vec![
            vec![None, Some(100), None],
            vec![None, None, Some(101)],
            vec![Some(200), Some(50), None]
        ],
        "Edge weights are wrong."
    );

    geo_new_weighted_from_lists_works();
}

#[test]
fn matrix_graph_new_vector_weighted_from_lists_works() {
    let graph = valid_vector_weighted();

    assert!(
        graph.node_weights().capacity() >= 3,
        "Array is to small to hold all nodes."
    );
    assert_eq!(
        graph.node_weights(),
        &vec![
            Some(vec![1, 2, 3]),
            Some(vec![4, 5, 6]),
            Some(vec![7, 8, 9])
        ],
        "Node weights are wrong."
    );
    assert_eq!(
        graph.adjacency_matrix(),
        &vec![
            vec![None, Some(vec![100, 200, 300]), None],
            vec![None, None, Some(vec![101, 201, 301])],
            vec![Some(vec![200, 300, 400]), Some(vec![50, 150, 250]), None]
        ],
        "Edge weights are wrong."
    );
}

#[test]
fn matrix_graph_new_with_missing_from_node_errors() {
    let err = MatrixGraph::new(vec![1], vec![(1, 0, 1)]).err();

    assert_eq!(
        err,
        Some(GraphError::MissingNode(1)),
        "Not missing the node it should be missing."
    );
    let err = MatrixGraph::new_usize_indexed(vec![1], vec![(1, 0, 1)]).err();
    assert_eq!(err, Some(GraphError::MissingNode(1)));

    geo_new_with_missing_from_node_errors();
}

#[test]
fn matrix_graph_new_with_missing_to_node_errors() {
    let err = MatrixGraph::new(vec![1], vec![(0, 1, 1)]).err();

    assert_eq!(
        err,
        Some(GraphError::MissingNode(1)),
        "Not missing the node it should be missing."
    );
    let err = MatrixGraph::new_usize_indexed(vec![1], vec![(0, 1, 1)]).err();
    assert_eq!(err, Some(GraphError::MissingNode(1)));

    geo_new_with_missing_to_node_errors();
}

#[test]
fn matrix_graph_is_empty_works() {
    let not_empty = valid_weighted();
    let empty = MatrixGraph::<usize, usize>::default();

    assert!(!not_empty.is_empty(), "Graph should not be empty.");
    assert!(empty.is_empty(), "Graph should be empty.");

    geo_is_empty_works();
}

#[test]
fn matrix_graph_order_works() {
    let not_empty = valid_weighted();
    let empty = MatrixGraph::<usize, usize>::default();

    assert_eq!(
        not_empty.order(),
        3,
        "Graph should have three nodes, thus order 3."
    );
    assert_eq!(
        empty.order(),
        0,
        "Graph should be empty, thus have order 0."
    );

    geo_order_works();
}

#[test]
fn matrix_graph_size_works() {
    let not_empty = valid_weighted();
    let empty = MatrixGraph::<usize, usize>::default();

    assert_eq!(
        not_empty.size(),
        4,
        "Graph should have four edges, thus size 4."
    );
    assert_eq!(empty.size(), 0, "Graph should be empty, thus have order 0.");

    geo_size_works();
}

#[test]
fn matrix_graph_nodes_works() {
    let mut graph = valid_weighted();
    let empty = MatrixGraph::<usize, usize>::default();

    assert_eq!(
        graph.node_ids(),
        vec![0, 1, 2],
        "Nodes are not the ones used to construct."
    );
    assert_eq!(
        empty.node_ids(),
        Vec::<usize>::new(),
        "Nodes should be empty, since graph is empty."
    );

    graph.add_node(4, 5).unwrap();

    assert_eq!(
        graph.node_ids(),
        vec![0, 1, 2, 4],
        "The node 4 should be in, since it was just added."
    );

    geo_nodes_works();
}

#[test]
fn matrix_graph_node_weight_works() {
    let graph = valid_weighted();

    assert_eq!(graph.node_weight(1).unwrap(), &2, "Node has wrong weight.");

    geo_node_weight_works();
}

#[test]
fn matrix_graph_node_weight_errors_for_missing() {
    let graph = valid_weighted();
    let err = graph.node_weight(5).err();

    assert_eq!(
        err,
        Some(GraphError::MissingNode(5)),
        "The node 5 should not be in the graph"
    );

    geo_node_weight_errors_for_missing();
}

#[test]
fn matrix_graph_neighbors_works() {
    let mut graph = valid_weighted();
    graph.add_node(5, 0).unwrap();

    assert_eq!(
        graph.neighbor_ids(1).unwrap(),
        vec![2],
        "Node 1 should only have 2 as neighbor."
    );
    assert_eq!(
        graph.neighbor_ids(2).unwrap().sort(),
        vec![1, 0].sort(),
        "Node 2 should have 1 and 0 as neighbor."
    );
    assert_eq!(
        graph.neighbor_ids(5).unwrap(),
        Vec::<usize>::new(),
        "Node 5 was just inserted and has no neighbors."
    );

    geo_neighbors_works();
}

#[test]
fn matrix_graph_neighbors_errors_for_missing() {
    let graph = valid_weighted();
    let err = graph.neighbor_ids(5).err();

    assert_eq!(
        err,
        Some(GraphError::MissingNode(5)),
        "The node 5 should not be in the graph, thus has no neighbors."
    );

    geo_neighbors_errors_for_missing();
}

#[test]
fn matrix_graph_has_node_works() {
    let graph = valid_weighted();

    assert!(graph.has_node(1));
    assert!(!graph.has_node(5));

    geo_has_node_works();
}

#[test]
fn matrix_graph_adding_nodes_works() {
    let mut graph = valid_weighted();
    graph.add_node(4, 5).unwrap();

    assert!(graph.has_node(4), "Node was not added.");
    assert!(!graph.has_node(3), "Incorrect node was added.");
    assert_eq!(
        graph.order(),
        4,
        "Order was not updated correctly after insertion."
    );
    assert_eq!(
        graph.size(),
        4,
        "Size should not change during node insertion."
    );
    assert_eq!(
        graph.node_ids().sort(),
        vec![0, 1, 2, 4].sort(),
        "Node list was not updated correctly after insertion."
    );
    assert_eq!(
        graph.node_weight(4).unwrap(),
        &5,
        "Incorrect weight was applied to new node."
    );
    assert!(
        graph.node_weights().len() >= 4,
        "Not enough space for all possible node weights."
    );
    assert!(
        graph.adjacency_matrix().len() >= 4,
        "Not enough space for all possible edge weights."
    );
    for edges in graph.adjacency_matrix().iter() {
        assert!(
            edges.len() >= 4,
            "Not enough space for all possible edge weights."
        );
    }

    geo_adding_nodes_works();
}

#[test]
fn matrix_graph_adding_duplicate_node_errors() {
    let mut graph = valid_weighted();
    let err = graph.add_node(1, 1).err();

    assert_eq!(
        err,
        Some(GraphError::DuplicateNode(1)),
        "The node should be a duplicate."
    );

    geo_adding_duplicate_node_errors();
}

#[test]
fn matrix_graph_removing_nodes_works() {
    let mut graph = valid_weighted();
    graph.remove_node(1);

    assert!(!graph.has_node(1), "Has removed node.");
    assert_eq!(
        graph.order(),
        2,
        "Order was updated incorrectly after removal."
    );
    assert_eq!(
        graph.size(),
        1,
        "Size was updated incorrectly after removal."
    );
    assert_eq!(
        graph.node_ids().sort(),
        vec![0, 2].sort(),
        "Nodelist was updated incorrectly after removal."
    );
    assert_eq!(
        graph.edge_ids().sort(),
        vec![(2, 0)].sort(),
        "Edgelist was updated incorrectly after removal."
    );

    geo_removing_nodes_works();
}

#[test]
fn matrix_graph_degree_works() {
    let graph = valid_weighted();

    assert_eq!(
        graph.degree(0).unwrap(),
        1,
        "Node 0 only has an edge to node 1."
    );
    assert_eq!(
        graph.degree(2).unwrap(),
        2,
        "Node 2 has an edge to node 0 and node 1."
    );

    geo_degree_works();
}

#[test]
fn matrix_graph_degree_errors_for_missing() {
    let graph = valid_weighted();
    let err = graph.degree(5).err();

    assert_eq!(
        err,
        Some(GraphError::MissingNode(5)),
        "Graph does not have node 5."
    );

    geo_degree_errors_for_missing();
}

#[test]
fn matrix_graph_edges_works() {
    let graph = valid_weighted();
    let empty = MatrixGraph::<usize, usize>::default();

    assert_eq!(
        graph.edge_ids(),
        vec![(0, 1), (1, 2), (2, 0), (2, 1)],
        "Edge list is wrong."
    );
    assert_eq!(
        empty.edge_ids(),
        vec![],
        "Edge list should be empty, since graph is empty."
    );

    geo_edges_works();
}

#[test]
fn matrix_graph_edge_weight_works() {
    let graph = valid_weighted();

    assert_eq!(
        graph.edge_weight((0, 1)).unwrap(),
        &100,
        "Edge has wrong weight."
    );

    geo_edge_weight_works();
}

#[test]
fn matrix_graph_edge_weight_errors_for_missing() {
    let graph = valid_weighted();

    assert_eq!(
        graph.edge_weight((1, 1)).err(),
        Some(GraphError::MissingEdge((1, 1))),
        "Edge (1, 1) should not be in the graph."
    );

    geo_edge_weight_errors_for_missing();
}

#[test]
fn matrix_graph_has_edge_works() {
    let graph = valid_weighted();

    assert!(
        graph.has_edge((0, 1)),
        "Graph should have an edge from node 0 to node 1."
    );
    assert!(
        graph.has_edge((2, 0)),
        "Graph should have an edge from node 2 to node 0."
    );
    assert!(
        !graph.has_edge((1, 0)),
        "Graph should not have an edge from node 1 to node 0."
    );

    geo_has_edge_works();
}

#[test]
fn matrix_graph_adding_edge_works() {
    let mut graph = valid_weighted();
    graph.add_edge((1, 0), 17).unwrap();

    assert!(graph.has_node(0), "A node was removed.");
    assert!(graph.has_node(1), "A node was removed.");
    assert!(graph.has_edge((1, 0)), "Edge was not inserted.");
    assert_eq!(
        graph.edge_weight((1, 0)).unwrap(),
        &17,
        "Edge has wrong weight."
    );

    geo_adding_edge_works();
}

#[test]
fn matrix_graph_adding_duplicate_edge_errors() {
    let mut graph = valid_weighted();
    let err = graph.add_edge((0, 1), 1000).err();

    assert_eq!(
        err,
        Some(GraphError::DuplicateEdge((0, 1))),
        "The edge should be a duplicate."
    );

    geo_adding_duplicate_edge_errors();
}

#[test]
fn matrix_graph_adding_edge_with_missing_node_errors() {
    let mut graph = valid_weighted();
    let err1 = graph.add_edge((0, 5), 1000).err();
    let err2 = graph.add_edge((5, 0), 1000).err();

    assert_eq!(
        err1,
        Some(GraphError::MissingNode(5)),
        "The node 5 should not be in the graph."
    );
    assert_eq!(
        err2,
        Some(GraphError::MissingNode(5)),
        "The node 5 should not be in the graph."
    );

    geo_adding_edge_with_missing_node_errors();
}

#[test]
fn matrix_graph_removing_edge_works() {
    let mut graph = valid_weighted();
    graph.remove_edge((0, 1));

    assert!(graph.has_node(0), "A node was removed.");
    assert!(graph.has_node(1), "A node was removed.");
    assert!(!graph.has_edge((0, 1)), "The edge is still there.");

    graph.remove_edge((0, 1));
    assert!(
        !graph.has_edge((0, 1)),
        "Multiple deletions insert the edge back."
    );

    geo_removing_edge_works();
}

fn p1() -> GeoPoint {
    GeoPoint::from_micro_degrees(12_700_000, 21_800_000)
}

fn p2() -> GeoPoint {
    GeoPoint::from_micro_degrees(9_700_000, 12_500_000)
}

fn p3() -> GeoPoint {
    GeoPoint::from_micro_degrees(11_100_000, 32_500_000)
}

fn p4() -> GeoPoint {
    GeoPoint::from_micro_degrees(2_400_000, 53_300_000)
}

fn geo_valid_weighted() -> GeoMatrixGraph<usize, usize> {
    GeoMatrixGraph::new(
        vec![(p1(), 12), (p2(), 21), (p3(), 7)],
        vec![
            ((p1(), p2()), 100),
            ((p2(), p3()), 101),
            ((p3(), p2()), 50),
            ((p3(), p1()), 200),
        ],
    )
    .unwrap()
}

fn geo_new_empty_weighted_works() {
    let graph = GeoMatrixGraph::<usize, usize>::default();

    assert!(graph.internal_graph().is_empty(), "Internal graph is not empty.");
    assert!(graph.is_empty(), "Graph is not empty.");
    assert!(graph.node_map().is_empty(), "Node map is not empty.");
    assert!(graph.inv_node_map().is_empty(), "Inverse node map is not empty.");
}

fn geo_new_weighted_with_size_works() {
    let graph = GeoMatrixGraph::<usize, usize>::with_size(5);

    assert!(
        graph.node_map().entries().capacity() >= 5,
        "Not enough space in node map."
    );
    assert!(
        graph.inv_node_map().entries().capacity() >= 5,
        "Not enough space in inverse node map."
    );
    assert_eq!(
        graph.internal_graph().node_ids().len(),
        0,
        "There is a node in the graph, which should not be there."
    );
    assert_eq!(
        graph.internal_graph().edge_ids().len(),
        0,
        "There is an edge in the graph, which should not be tehere."
    );
}

fn geo_new_weighted_from_lists_works() {
    let graph = geo_valid_weighted();

    assert_eq!(graph.internal_graph().order(), 3, "Internal graph is too small.");
    assert!(graph.node_map().contains_key(&p1()), "Node map is missing a key.");
    assert!(graph.inv_node_map().contains_key(&2), "Inverse node map is missing a key.");
}

fn geo_new_with_missing_from_node_errors() {
    let a = GeoPoint::from_micro_degrees(12_300_000, 1_200_000);
    let b = GeoPoint::from_micro_degrees(13_300_000, 1_100_000);
    let err = GeoMatrixGraph::new(vec![(a, 1)], vec![((b, a), 2)]).err();

    assert_eq!(
        err,
        Some(GraphError::MissingNode(b)),
        "Not missing the node it should be missing."
    );
}

fn geo_new_with_missing_to_node_errors() {
    let a = GeoPoint::from_micro_degrees(12_300_000, 1_200_000);
    let b = GeoPoint::from_micro_degrees(13_300_000, 1_100_000);
    let err = GeoMatrixGraph::new(vec![(a, 1)], vec![((a, b), 2)]).err();

    assert_eq!(
        err,
        Some(GraphError::MissingNode(b)),
        "Not missing the node it should be missing."
    );
}

fn geo_is_empty_works() {
    let not_empty = geo_valid_weighted();
    let empty = GeoMatrixGraph::<usize, usize>::default();

    assert!(!not_empty.is_empty(), "Graph should not be empty.");
    assert!(empty.is_empty(), "Graph should be empty.");
}

fn geo_order_works() {
    let not_empty = geo_valid_weighted();
    let empty = GeoMatrixGraph::<usize, usize>::default();

    assert_eq!(not_empty.order(), 3, "Graph should have three nodes, thus order 3.");
    assert_eq!(empty.order(), 0, "Graph should be empty, thus have order 0.");
}

fn geo_size_works() {
    let not_empty = geo_valid_weighted();
    let empty = GeoMatrixGraph::<usize, usize>::default();

    assert_eq!(not_empty.size(), 4, "Graph should have four edges, thus size 4.");
    assert_eq!(empty.size(), 0, "Graph should be empty, thus have order 0.");
}

fn geo_nodes_works() {
    let mut graph = geo_valid_weighted();
    let empty = GeoMatrixGraph::<usize, usize>::default();

    let mut nodes = graph.node_ids();
    nodes.sort();
    let mut expected = vec![p1(), p2(), p3()];
    expected.sort();
    assert_eq!(nodes, expected, "Nodes are not the ones used to construct.");
    assert_eq!(
        empty.node_ids(),
        Vec::<GeoPoint>::new(),
        "Nodes should be empty, since graph is empty."
    );

    graph.add_node(p4(), 5).unwrap();

    let mut nodes = graph.node_ids();
    nodes.sort();
    let mut expected = vec![p1(), p2(), p3(), p4()];
    expected.sort();
    assert_eq!(nodes, expected, "The node p4 should be in, since it was just added.");
}

fn geo_node_weight_works() {
    let graph = geo_valid_weighted();

    assert_eq!(graph.node_weight(p1()).unwrap(), &12, "Node has wrong weight.");
}

fn geo_node_weight_errors_for_missing() {
    let graph = geo_valid_weighted();
    let err = graph.node_weight(p4()).err();

    assert_eq!(
        err,
        Some(GraphError::MissingNode(p4())),
        "The node 5 should not be in the graph"
    );
}

fn geo_neighbors_works() {
    let mut graph = geo_valid_weighted();
    graph.add_node(p4(), 0).unwrap();

    assert_eq!(
        graph.neighbor_ids(p1()).unwrap(),
        vec![p2()],
        "Node p2 should only have p3 as neighbor."
    );
    assert_eq!(
        graph.neighbor_ids(p3()).unwrap().len(),
        vec![p1(), p2()].len(),
        "Node p3 should have p2 and p1 as neighbor."
    );
    assert_eq!(
        graph.neighbor_ids(p4()).unwrap(),
        Vec::<GeoPoint>::new(),
        "Node p4 was just inserted and has no neighbors."
    );
}

fn geo_neighbors_errors_for_missing() {
    let graph = geo_valid_weighted();
    let err = graph.neighbor_ids(p4()).err();

    assert_eq!(
        err,
        Some(GraphError::MissingNode(p4())),
        "The node p4 should not be in the graph, thus has no neighbors."
    );
}

fn geo_has_node_works() {
    let graph = geo_valid_weighted();

    assert!(graph.has_node(p1()));
    assert!(!graph.has_node(p4()));
}

fn geo_adding_nodes_works() {
    let mut graph = geo_valid_weighted();
    graph.add_node(p4(), 5).unwrap();

    assert!(graph.has_node(p4()), "Node was not added.");
    assert_eq!(graph.order(), 4, "Order was not updated correctly after insertion.");
    assert_eq!(graph.size(), 4, "Size should not change during node insertion.");
    assert_eq!(
        graph.node_weight(p4()).unwrap(),
        &5,
        "Incorrect weight was applied to new node."
    );
}

fn geo_adding_duplicate_node_errors() {
    let mut graph = geo_valid_weighted();
    let err = graph.add_node(p1(), 1).err();

    assert_eq!(
        err,
        Some(GraphError::DuplicateNode(p1())),
        "The node should be a duplicate."
    );
}

fn geo_removing_nodes_works() {
    let mut graph = geo_valid_weighted();
    graph.remove_node(p1());

    assert!(!graph.has_node(p1()), "Has removed node.");
    assert_eq!(graph.order(), 2, "Order was updated incorrectly after removal.");
    assert_eq!(graph.size(), 2, "Size was updated incorrectly after removal.");
    let mut nodes = graph.node_ids();
    nodes.sort();
    let mut expected = vec![p2(), p3()];
    expected.sort();
    assert_eq!(nodes, expected, "Nodelist was updated incorrectly after removal.");
    let mut edges = graph.edge_ids();
    edges.sort();
    let mut expected = vec![(p2(), p3()), (p3(), p2())];
    expected.sort();
    assert_eq!(edges, expected, "Edgelist was updated incorrectly after removal.");
}

fn geo_degree_works() {
    let graph = geo_valid_weighted();

    assert_eq!(graph.degree(p1()).unwrap(), 1, "Node 0 only has an edge to node 1.");
    assert_eq!(graph.degree(p3()).unwrap(), 2, "Node 2 has an edge to node 0 and node 1.");
}

fn geo_degree_errors_for_missing() {
    let graph = geo_valid_weighted();
    let err = graph.degree(p4()).err();

    assert_eq!(err, Some(GraphError::MissingNode(p4())), "Graph does not have node 5.");
}

fn geo_edges_works() {
    let graph = geo_valid_weighted();
    let empty = GeoMatrixGraph::<usize, usize>::default();
    let mut edges = graph.edge_ids();
    edges.sort();
    let mut expected = vec![(p1(), p2()), (p2(), p3()), (p3(), p2()), (p3(), p1())];
    expected.sort();

    assert_eq!(edges, expected, "Edge list is wrong.");
    assert_eq!(
        empty.edge_ids(),
        vec![],
        "Edge list should be empty, since graph is empty."
    );
}

fn geo_edge_weight_works() {
    let graph = geo_valid_weighted();

    assert_eq!(graph.edge_weight((p1(), p2())).unwrap(), &100, "Edge has wrong weight.");
}

fn geo_edge_weight_errors_for_missing() {
    let graph = geo_valid_weighted();

    assert_eq!(
        graph.edge_weight((p1(), p1())).err(),
        Some(GraphError::MissingEdge((p1(), p1()))),
        "Edge (1, 1) should not be in the graph."
    );
}

fn geo_has_edge_works() {
    let graph = geo_valid_weighted();

    assert!(graph.has_edge((p1(), p2())), "Graph should have an edge from node 0 to node 1.");
    assert!(graph.has_edge((p3(), p1())), "Graph should have an edge from node 2 to node 0.");
    assert!(!graph.has_edge((p3(), p3())), "Graph should not have an edge from node 2 to node 2.");
}

fn geo_adding_edge_works() {
    let mut graph = geo_valid_weighted();
    graph.add_edge((p1(), p3()), 17).unwrap();

    assert!(graph.has_node(p1()), "A node was removed.");
    assert!(graph.has_node(p3()), "A node was removed.");
    assert!(graph.has_edge((p1(), p3())), "Edge was not inserted.");
    assert_eq!(graph.edge_weight((p1(), p3())).unwrap(), &17, "Edge has wrong weight.")
}

fn geo_adding_duplicate_edge_errors() {
    let mut graph = geo_valid_weighted();
    let err = graph.add_edge((p3(), p1()), 1000).err();

    assert_eq!(
        err,
        Some(GraphError::DuplicateEdge((p3(), p1()))),
        "The edge should be a duplicate."
    )
}

fn geo_adding_edge_with_missing_node_errors() {
    let mut graph = geo_valid_weighted();
    let err1 = graph.add_edge((p1(), p4()), 1000).err();
    let err2 = graph.add_edge((p4(), p1()), 1000).err();

    assert_eq!(err1, Some(GraphError::MissingNode(p4())), "The node 5 should not be in the graph.");
    assert_eq!(err2, Some(GraphError::MissingNode(p4())), "The node 5 should not be in the graph.");
}

fn geo_removing_edge_works() {
    let mut graph = geo_valid_weighted();
    graph.remove_edge((p1(), p2()));

    assert!(graph.has_node(p1()), "A node was removed.");
    assert!(graph.has_node(p2()), "A node was removed.");
    assert!(!graph.has_edge((p1(), p2())), "The edge is still there.");

    graph.remove_edge((p1(), p2()));
    assert!(
        !graph.has_edge((p1(), p2())),
        "Multiple deletions should not insert the edge back."
    );
}
