pub mod length;
pub mod problem;
pub mod solution;

pub use length::{solution_edge_weights, solution_length};
pub use problem::ProblemInstance;
pub use solution::{Solution, SolutionError};
