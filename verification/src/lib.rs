pub mod geo;
pub mod graph;
pub mod metaheuristic;
pub mod util;
pub mod experiment_config;
pub mod rng;
