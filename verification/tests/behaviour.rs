use orienteering::geo::GeoPoint;
use orienteering::graph::geo::MatrixGraph as GeoMatrixGraph;
use orienteering::graph::node_map::NodeMap;
use orienteering::graph::{GraphError, MatrixGraph};

#[test]
fn repeated_edges_are_counted_once_in_the_size() {
    let graph: MatrixGraph<usize, usize> = MatrixGraph::new(vec![0, 0], vec![(0, 1, 1), (0, 1, 2)]).unwrap();

    assert_eq!(graph.size(), 1);
    assert_eq!(graph.edge_ids(), vec![(0, 1)]);
    assert_eq!(graph.edge_weight((0, 1)), Ok(&2), "the later weight stays");
}

#[test]
fn adding_a_node_beyond_the_slots_makes_room() {
    let mut graph: MatrixGraph<usize, usize> = MatrixGraph::with_size(1);
    graph.add_node(4, 40).unwrap();

    assert_eq!(graph.node_weights().len(), 6);
    assert_eq!(graph.adjacency_matrix().len(), 6);
    for row in graph.adjacency_matrix() {
        assert_eq!(row.len(), 6);
    }
    assert_eq!(graph.node_ids(), vec![4]);
    assert_eq!(graph.order(), 1);
}

#[test]
fn changing_the_weight_of_a_missing_edge_adds_it() {
    let mut graph: MatrixGraph<usize, usize> = MatrixGraph::new(vec![0, 0], vec![]).unwrap();

    assert_eq!(graph.change_edge((1, 0), 3), Ok(()));
    assert_eq!(graph.size(), 1);
    assert_eq!(graph.change_edge((1, 0), 4), Ok(()));
    assert_eq!(graph.size(), 1);
    assert_eq!(graph.edge_weight((1, 0)), Ok(&4));
    assert_eq!(graph.change_edge((1, 7), 4), Err(GraphError::MissingNode(7)));
}

#[test]
fn adding_an_edge_reports_the_first_missing_end() {
    let mut graph: MatrixGraph<usize, usize> = MatrixGraph::new(vec![0, 0], vec![]).unwrap();

    assert_eq!(graph.add_edge((5, 6), 1), Err(GraphError::MissingNode(5)));
    assert_eq!(graph.add_edge((0, 6), 1), Err(GraphError::MissingNode(6)));
    assert_eq!(graph.size(), 0);
}

#[test]
fn changing_an_unknown_point_adds_its_node() {
    let mut graph: GeoMatrixGraph<usize, usize> = GeoMatrixGraph::default();
    let p = GeoPoint::from_micro_degrees(1, 1);
    graph.change_node(p, 5);

    assert!(graph.has_node(p));
    assert_eq!(graph.node_weight(p), Ok(&5));
    assert_eq!(graph.order(), 1);
}

#[test]
fn a_point_added_after_a_removal_takes_the_free_slot() {
    let a = GeoPoint::from_micro_degrees(1, 1);
    let b = GeoPoint::from_micro_degrees(2, 2);
    let c = GeoPoint::from_micro_degrees(3, 3);
    let d = GeoPoint::from_micro_degrees(4, 4);
    let mut graph: GeoMatrixGraph<usize, usize> =
        GeoMatrixGraph::new(vec![(a, 1), (b, 2), (c, 3)], vec![]).unwrap();
    graph.remove_node(a);

    assert_eq!(graph.add_node(d, 4), Ok(()));
    assert!(graph.has_node(d));
    assert_eq!(graph.node_weight(d), Ok(&4));
    assert_eq!(graph.node_weight(c), Ok(&3));
    assert_eq!(graph.order(), 3);
    assert_eq!(graph.node_map().get(&d), Some(0));
}

#[test]
fn removing_a_node_removes_edges_beyond_the_order() {
    let mut graph: MatrixGraph<usize, usize> = MatrixGraph::new(vec![1, 2, 3], vec![]).unwrap();
    graph.add_node(4, 5).unwrap();
    graph.add_edge((0, 4), 7).unwrap();
    graph.remove_node(0);

    assert!(!graph.has_node(0));
    assert_eq!(graph.order(), 3);
    assert_eq!(graph.size(), 0);
    assert_eq!(graph.edge_ids(), vec![]);
}

#[test]
fn a_graph_whose_nodes_are_all_removed_is_empty() {
    let mut graph: MatrixGraph<usize, usize> = MatrixGraph::with_size(5);
    assert!(graph.is_empty());
    graph.add_node(2, 1).unwrap();
    assert!(!graph.is_empty());
    graph.remove_node(2);
    assert!(graph.is_empty());
    assert_eq!(graph.order(), 0);
}

#[test]
fn node_map_keeps_distinct_keys_in_insertion_order() {
    let mut map: NodeMap<usize, GeoPoint> = NodeMap::new();
    let a = GeoPoint::from_micro_degrees(1, 1);
    let b = GeoPoint::from_micro_degrees(2, 2);
    map.insert(7, a);
    map.insert(3, b);
    map.insert(7, b);

    assert_eq!(map.len(), 2);
    assert_eq!(map.get(&7), Some(b));
    assert_eq!(map.keys(), vec![7, 3]);
    map.remove(&7);
    assert_eq!(map.get(&7), None);
    assert!(map.contains_key(&3));
    assert!(!map.is_empty());
}
