use orienteering::geo::GeoPoint;
use orienteering::graph::geo::MatrixGraph as GeoMatrixGraph;
use orienteering::graph::{GenericWeightedGraph, GraphError, MatrixGraph};
use orienteering::metaheuristic::{solution_edge_weights, solution_length, ProblemInstance, Solution};

fn line_graph() -> MatrixGraph<usize, usize> {
    MatrixGraph::new(vec![0, 0, 0, 0], vec![(0, 1, 5), (1, 2, 7), (2, 3, 11), (3, 0, 13)]).unwrap()
}

#[test]
fn solution_length_sums_the_edges_taken() {
    let graph = line_graph();
    let route = Solution::from_nodes(vec![0, 1, 2, 3, 0]);

    assert_eq!(solution_length(&route, &graph), Ok(36));
    assert_eq!(solution_edge_weights(&route, &graph), Ok(vec![5, 7, 11, 13]));
}

#[test]
fn solution_length_of_a_route_without_edges_is_zero() {
    let graph = line_graph();

    assert_eq!(solution_length(&Solution::new(), &graph), Ok(0));
    assert_eq!(solution_length(&Solution::from_nodes(vec![2]), &graph), Ok(0));
}

#[test]
fn solution_length_reports_the_first_missing_edge() {
    let graph = line_graph();
    let route = Solution::from_nodes(vec![0, 1, 3, 2, 0]);

    assert_eq!(solution_length(&route, &graph), Err(GraphError::MissingEdge((1, 3))));
    assert_eq!(solution_edge_weights(&route, &graph), Err(GraphError::MissingEdge((1, 3))));
}

#[test]
fn solution_length_through_points() {
    let a = GeoPoint::from_micro_degrees(1, 1);
    let b = GeoPoint::from_micro_degrees(2, 2);
    let c = GeoPoint::from_micro_degrees(3, 3);
    let graph = GeoMatrixGraph::new(
        vec![(a, 0usize), (b, 0), (c, 0)],
        vec![((a, b), 4usize), ((b, c), 6)],
    )
    .unwrap();

    assert_eq!(solution_length(&Solution::from_nodes(vec![a, b, c]), &graph), Ok(10));
    assert_eq!(
        solution_length(&Solution::from_nodes(vec![a, c]), &graph),
        Err(GraphError::MissingEdge((a, c)))
    );
}

#[test]
fn generic_queries_agree_with_the_graph() {
    let graph = line_graph();

    assert_eq!(GenericWeightedGraph::order(&graph), 4);
    assert_eq!(GenericWeightedGraph::size(&graph), 4);
    assert_eq!(GenericWeightedGraph::node_ids(&graph), vec![0, 1, 2, 3]);
    assert_eq!(GenericWeightedGraph::edge_weight(&graph, (2, 3)), Ok(&11));
    assert_eq!(GenericWeightedGraph::degree(&graph, 7), Err(GraphError::MissingNode(7)));
}

#[test]
fn problem_instance_keeps_its_parts() {
    let graph = line_graph();
    let problem = ProblemInstance::new(&graph, 3, 100);

    assert_eq!(*problem.goal_point(), 3);
    assert_eq!(*problem.max_time(), 100);
    assert_eq!(problem.graph().order(), 4);
}

#[test]
fn weighted_listings_pair_ids_with_weights() {
    let graph = line_graph();

    assert_eq!(graph.neighbors(1), Ok(vec![(2, &7)]));
    assert_eq!(graph.neighbors(9), Err(GraphError::MissingNode(9)));
    assert_eq!(
        graph.edges(),
        vec![((0, 1), &5), ((1, 2), &7), ((2, 3), &11), ((3, 0), &13)]
    );
}

#[test]
fn weighted_listings_through_points() {
    let a = GeoPoint::from_micro_degrees(1, 1);
    let b = GeoPoint::from_micro_degrees(2, 2);
    let c = GeoPoint::from_micro_degrees(3, 3);
    let graph = GeoMatrixGraph::new(
        vec![(a, 0usize), (b, 0), (c, 0)],
        vec![((a, b), 4usize), ((a, c), 6)],
    )
    .unwrap();

    assert_eq!(graph.neighbors(a), Ok(vec![(b, &4), (c, &6)]));
    assert_eq!(graph.edges(), vec![((a, b), &4), ((a, c), &6)]);
}

fn grow_through_trait<G: GenericWeightedGraph<NodeWeightType = usize, EdgeWeightType = usize>>(
    graph: &mut G,
    a: G::IndexType,
    b: G::IndexType,
) where
    G::IndexType: PartialEq + std::fmt::Debug,
{
    assert!(graph.add_node(a, 1).is_ok());
    assert!(graph.add_node(b, 2).is_ok());
    assert!(graph.add_node(a, 3).is_err());
    assert_eq!(graph.add_edge((a, b), 10), Ok(()));
    assert!(graph.add_edge((a, b), 11).is_err());
    assert_eq!(graph.change_edge((a, b), 12), Ok(()));
    assert_eq!(graph.edge_weight((a, b)), Ok(&12));
    graph.change_node(b, 5);
    assert_eq!(graph.node_weight(b), Ok(&5));
    graph.remove_edge((a, b));
    assert!(!graph.has_edge((a, b)));
    graph.remove_node(a);
    assert!(!graph.has_node(a));
    assert_eq!(GenericWeightedGraph::order(graph), 1);
}

#[test]
fn generic_changes_work_on_both_graphs() {
    let mut numbered: MatrixGraph<usize, usize> = MatrixGraph::with_size(2);
    grow_through_trait(&mut numbered, 0, 1);

    let mut placed: GeoMatrixGraph<usize, usize> = GeoMatrixGraph::with_size(2);
    grow_through_trait(
        &mut placed,
        GeoPoint::from_micro_degrees(5, 5),
        GeoPoint::from_micro_degrees(6, 6),
    );
}
