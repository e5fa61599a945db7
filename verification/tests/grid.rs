use std::cell::RefCell;
use std::rc::Rc;

use oorandom::Rand64;
use orienteering::graph::generate::grid::{generate_from_weights, grid_edge_total};
use orienteering::graph::generate::{Generate, Grid, WeightGenerator};
use orienteering::rng::os_random_seed;

struct Constant(f64);

impl WeightGenerator for Constant {
    type Weight = f64;

    fn next_weight(&mut self) -> f64 {
        self.0
    }
}

struct Random(Rand64);

impl WeightGenerator for Random {
    type Weight = f64;

    fn next_weight(&mut self) -> f64 {
        self.0.rand_float()
    }
}

struct Shared(Rc<RefCell<Rand64>>);

impl WeightGenerator for Shared {
    type Weight = f64;

    fn next_weight(&mut self) -> f64 {
        self.0.borrow_mut().rand_float()
    }
}

struct Counter(usize);

impl WeightGenerator for Counter {
    type Weight = usize;

    fn next_weight(&mut self) -> usize {
        self.0 += 1;
        self.0
    }
}

#[test]
fn constant_weighted_works() {
    let mut gen = Grid::new((5, 5), Constant(1.0), Constant(2.0));
    let graph = gen.generate();
    let nodes = graph.node_ids();
    let edges = graph.edge_ids();

    assert_eq!(nodes.len(), 25, "A 5x5 grid graph should have 25 nodes.");
    assert_eq!(
        edges.len(),
        112,
        "A 5x5 triangular grid graph should have 112 edges."
    );
    for edge in edges.iter() {
        assert_eq!(
            *graph.edge_weight(*edge).unwrap(),
            2.0,
            "All weights should have been initialized with the value 2.0."
        )
    }
    for node in nodes.iter() {
        assert_eq!(
            *graph.node_weight(*node).unwrap(),
            1.0,
            "All weights should have been initialized with the value 1.0"
        )
    }
}

#[test]
fn random_weighted_works() {
    let node_rng = Rand64::new(os_random_seed());
    let edge_rng = Rand64::new(os_random_seed());
    let mut gen = Grid::new((5, 5), Random(node_rng), Random(edge_rng));
    let graph = gen.generate();

    assert_eq!(graph.node_ids().len(), 25, "A 5x5 grid graph should have 25 nodes.");
    assert_eq!(
        graph.edge_ids().len(),
        112,
        "A 5x5 triangular grid graph should have 112 edges."
    );
}

#[test]
fn random_weighted_same_rng_works() {
    let rc = Rc::new(RefCell::new(Rand64::new(os_random_seed())));
    let mut gen = Grid::new((5, 5), Shared(rc.clone()), Shared(rc.clone()));
    let graph = gen.generate();

    assert_eq!(graph.node_ids().len(), 25, "A 5x5 grid graph should have 25 nodes.");
    assert_eq!(
        graph.edge_ids().len(),
        112,
        "A 5x5 triangular grid graph should have 112 edges."
    );
}

#[test]
fn grid_edge_count_matches_the_formula() {
    for (n, m) in [(1usize, 1usize), (1, 4), (3, 1), (2, 2), (3, 4), (4, 3), (6, 5)] {
        let mut gen = Grid::new((n, m), Constant(0.0), Constant(0.0));
        let graph = gen.generate();
        let expected = 2 * (n - 1) * m + 2 * n * (m - 1) + 2 * (n - 1) * (m - 1);
        assert_eq!(graph.edge_ids().len(), expected);
        assert_eq!(graph.size(), expected);
        assert_eq!(graph.order(), n * m);
    }
}

#[test]
fn empty_grids_have_no_nodes_or_edges() {
    for (n, m) in [(0usize, 0usize), (0, 3), (4, 0)] {
        let mut gen = Grid::new((n, m), Constant(0.0), Constant(0.0));
        let graph = gen.generate();
        assert_eq!(graph.order(), 0);
        assert_eq!(graph.size(), 0);
        assert!(graph.edge_ids().is_empty());
    }
}

#[test]
fn grid_edges_connect_neighbors() {
    // 2 rows, 3 columns: the node in row i and column j has the id 3 * i + j.
    let mut gen = Grid::new((2, 3), Constant(0.0), Constant(0.0));
    let graph = gen.generate();

    assert!(graph.has_edge((0, 3)), "right");
    assert!(graph.has_edge((3, 0)), "left");
    assert!(graph.has_edge((0, 1)), "below");
    assert!(graph.has_edge((1, 0)), "above");
    assert!(graph.has_edge((0, 4)), "right below");
    assert!(graph.has_edge((4, 0)), "left above");
    assert!(!graph.has_edge((2, 3)), "no edge between the last column and the next row");
    assert!(!graph.has_edge((1, 3)), "no edge to the left below");
    assert!(!graph.has_edge((0, 2)), "no edge over two columns");
    assert!(!graph.has_edge((0, 0)), "no loops");
}

#[test]
fn grid_weights_come_in_generation_order() {
    let mut gen = Grid::new((2, 2), Counter(0), Counter(0));
    let graph = gen.generate();

    for id in 0..4 {
        assert_eq!(*graph.node_weight(id).unwrap(), id + 1);
    }
    // Node 0 (row 0, column 0) gets its edges first: right, below, right below.
    assert_eq!(*graph.edge_weight((0, 2)).unwrap(), 1);
    assert_eq!(*graph.edge_weight((0, 1)).unwrap(), 2);
    assert_eq!(*graph.edge_weight((0, 3)).unwrap(), 3);
    // Node 1 (row 0, column 1): right, then above.
    assert_eq!(*graph.edge_weight((1, 3)).unwrap(), 4);
    assert_eq!(*graph.edge_weight((1, 0)).unwrap(), 5);
}

#[test]
fn grid_from_weights_places_each_weight() {
    let node_weights = [10, 11, 12, 13];
    let edge_weights: Vec<usize> = (0..10).collect();
    assert_eq!(grid_edge_total(2, 2), 10);
    let graph = generate_from_weights(2, 2, &node_weights, &edge_weights);

    for id in 0..4 {
        assert_eq!(*graph.node_weight(id).unwrap(), 10 + id);
    }
    let expected = [
        ((0, 2), 0),
        ((0, 1), 1),
        ((0, 3), 2),
        ((1, 3), 3),
        ((1, 0), 4),
        ((2, 0), 5),
        ((2, 3), 6),
        ((3, 1), 7),
        ((3, 2), 8),
        ((3, 0), 9),
    ];
    for (edge, weight) in expected {
        assert_eq!(*graph.edge_weight(edge).unwrap(), weight);
    }
    assert_eq!(graph.size(), 10);
}

struct Tally(Rc<RefCell<usize>>);

impl WeightGenerator for Tally {
    type Weight = usize;

    fn next_weight(&mut self) -> usize {
        *self.0.borrow_mut() += 1;
        let drawn = *self.0.borrow();
        drawn
    }
}

#[test]
fn each_generator_is_drawn_once_per_node_or_edge() {
    let node_draws = Rc::new(RefCell::new(0));
    let edge_draws = Rc::new(RefCell::new(0));
    let mut gen = Grid::new((3, 4), Tally(node_draws.clone()), Tally(edge_draws.clone()));
    let graph = gen.generate();
    assert_eq!(*node_draws.borrow(), 12);
    assert_eq!(graph.size(), 2 * (2 * 4 + 3 * 3 + 2 * 3));
    assert_eq!(*edge_draws.borrow(), graph.size());
}
