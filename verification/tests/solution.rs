use orienteering::graph::Edge;
use orienteering::metaheuristic::{Solution, SolutionError};

fn node_list() -> Vec<usize> {
    vec![1, 4, 3, 2, 6]
}

fn node_list_with_duplicates() -> Vec<usize> {
    vec![1, 2, 3, 2, 3, 4, 1]
}

fn valid_solution() -> Solution<usize> {
    Solution::from_nodes(node_list())
}

fn valid_solution_with_duplicates() -> Solution<usize> {
    Solution::from_nodes(node_list_with_duplicates())
}

#[test]
fn iter_nodes_works() {
    let node_list = node_list();
    let solution = valid_solution();

    assert!(solution.iter_nodes().eq(node_list.iter()));
}

#[test]
fn iter_edges_works() {
    let node_list = node_list();
    let edge_it = node_list.iter().zip(node_list.iter().skip(1));
    let solution = valid_solution();

    assert!(solution.iter_edges().eq(edge_it));
}

#[test]
fn solution_nodes_works() {
    let node_list = node_list();
    let solution = valid_solution();

    assert_eq!(solution.nodes(), node_list);
}

#[test]
fn solution_edges_works() {
    let node_list = node_list();
    let edges: Vec<Edge<usize>> = node_list
        .iter()
        .zip(node_list.iter().skip(1))
        .map(|(a, b)| (*a, *b))
        .collect();
    let solution = valid_solution();

    assert_eq!(solution.edges(), edges);
}

#[test]
fn from_edges_works() {
    let node_list = node_list();
    let edges: Vec<Edge<usize>> = node_list
        .iter()
        .zip(node_list.iter().skip(1))
        .map(|(a, b)| (*a, *b))
        .collect();
    let solution = Solution::from_edges(edges.clone()).unwrap();

    assert_eq!(solution.edges(), edges);
}

#[test]
fn from_nodes_works() {
    let list = node_list();
    let solution = Solution::from_nodes(list.clone());

    assert!(solution.iter_nodes().eq(list.iter()));
}

#[test]
fn push_node_works() {
    let mut solution = valid_solution();
    let mut node_list = node_list();
    node_list.push(3);
    solution.push_node(3);

    assert!(solution.iter_nodes().eq(node_list.iter()));
}

#[test]
fn push_edge_works() {
    let mut solution = valid_solution();
    let mut node_list = node_list();
    node_list.push(3);
    let _ = solution.push_edge((6, 3));

    assert!(solution.iter_nodes().eq(node_list.iter()));
}

#[test]
fn push_edge_errors_on_invalid_from_node() {
    let mut solution = valid_solution();
    let result = solution.push_edge((1, 3));

    assert_eq!(result, Err(SolutionError::InvalidStartingNode(1)));
}

#[test]
fn append_works() {
    let mut s1 = valid_solution();
    let mut s2 = Solution::from_nodes(vec![7, 8, 9]);
    s1.append(&mut s2);

    assert_eq!(s1, Solution::from_nodes(vec![1, 4, 3, 2, 6, 7, 8, 9]));
}

#[test]
fn unique_nodes_works() {
    let s1 = valid_solution_with_duplicates();

    assert_eq!(
        s1.unique_nodes().sort_unstable(),
        vec![1, 2, 3, 4].sort_unstable()
    );
}
