use orienteering::graph::MatrixGraph;
use orienteering::metaheuristic::{Solution, SolutionError};
use orienteering::util::scale::Scaler;

fn sample() -> MatrixGraph<usize, usize> {
    MatrixGraph::new(vec![1, 2, 3], vec![(0, 1, 100), (1, 2, 101), (2, 0, 200)]).unwrap()
}

#[test]
fn removing_an_added_edge_restores_the_graph() {
    let mut graph = sample();
    let before = graph.clone();
    graph.add_edge((0, 2), 9).unwrap();
    assert_eq!(graph.edge_weight((0, 2)), Ok(&9));
    graph.remove_edge((0, 2));

    assert_eq!(graph.adjacency_matrix(), before.adjacency_matrix());
    assert_eq!(graph.node_weights(), before.node_weights());
    assert_eq!(graph.size(), before.size());
    assert_eq!(graph.order(), before.order());
}

#[test]
fn adding_back_a_removed_edge_restores_the_graph() {
    let mut graph = sample();
    let before = graph.clone();
    let weight = *graph.edge_weight((1, 2)).unwrap();
    graph.remove_edge((1, 2));
    graph.add_edge((1, 2), weight).unwrap();

    assert_eq!(graph.adjacency_matrix(), before.adjacency_matrix());
    assert_eq!(graph.size(), before.size());
}

#[test]
fn order_and_size_count_the_listed_nodes_and_edges() {
    let mut graph = sample();
    graph.add_node(7, 70).unwrap();
    graph.add_edge((7, 0), 1).unwrap();
    graph.remove_node(1);

    assert_eq!(graph.order(), graph.node_ids().len());
    assert_eq!(graph.size(), graph.edge_ids().len());
    for id in 0..10 {
        assert_eq!(graph.node_ids().contains(&id), graph.has_node(id));
    }
}

#[test]
fn added_node_is_read_back() {
    let mut graph = sample();
    graph.add_node(5, 55).unwrap();

    assert_eq!(graph.node_weight(5), Ok(&55));
    assert_eq!(graph.node_weight(0), Ok(&1));
    assert_eq!(graph.node_weights().len(), 7);
}

#[test]
fn route_is_rebuilt_from_its_edges() {
    for nodes in [vec![], vec![1usize, 2], vec![4, 2, 4, 7, 1]] {
        let route = Solution::from_nodes(nodes.clone());
        let rebuilt = Solution::from_edges(route.edges()).unwrap();
        assert_eq!(rebuilt.nodes(), nodes);
    }
    let single = Solution::from_nodes(vec![3usize]);
    assert_eq!(Solution::from_edges(single.edges()).unwrap().nodes(), Vec::<usize>::new());
}

#[test]
fn reversing_twice_gives_back_the_route() {
    let route = Solution::from_nodes(vec![1usize, 5, 2, 5]);

    assert_eq!(route.reversed().reversed(), route);
}

#[test]
fn unique_nodes_hold_each_node_once() {
    let route = Solution::from_nodes(vec![3usize, 1, 3, 2, 1]);
    let unique = route.unique_nodes();

    assert_eq!(unique, vec![3, 1, 2]);
    for node in route.nodes() {
        assert!(unique.contains(&node));
    }
}

#[test]
fn rebuilding_from_edges_fails_at_the_first_break() {
    let chained = Solution::from_edges(vec![(1usize, 2usize), (2, 3), (3, 7)]).unwrap();
    assert_eq!(chained.edges(), vec![(1, 2), (2, 3), (3, 7)]);
    assert_eq!(chained.nodes(), vec![1, 2, 3, 7]);
    let broken = Solution::from_edges(vec![(1usize, 2usize), (4, 5), (6, 7)]);
    assert_eq!(broken, Err(SolutionError::InvalidStartingNode(4)));
}

#[test]
fn scaling_keeps_the_order_of_values() {
    let s = Scaler::new(-10, 30);
    let mut last = i64::MIN;
    for v in [-50i64, -10, -3, 0, 7, 29, 30, 95] {
        let scaled = s.scale(v);
        assert!(scaled >= last);
        last = scaled;
    }
}
