pub mod counting;
pub mod error;
pub mod generate;
pub mod geo;
pub mod import;
pub mod laws;
pub mod matrix_graph;
pub mod node_map;
pub mod weighted;

pub use error::GraphError;
pub use import::ImportError;
pub use matrix_graph::{GraphView, MatrixGraph};
pub use weighted::{GenericWeightedGraph, GeoGraph, WeightedGraph};

use vstd::prelude::*;

verus! {

/// A directed edge, given as the pair (from, to).
pub type Edge<IndexType> = (IndexType, IndexType);

} // verus!

verus! {

/// Ids of graph nodes that can be told apart by value.
pub trait NodeId: Copy {
    /// Returns true if both ids name the same node.
    fn same_node(&self, other: &Self) -> (same: bool)
        ensures
            same == (*self == *other),
    ;
}

impl NodeId for usize {
    fn same_node(&self, other: &Self) -> (same: bool) {
        *self == *other
    }
}

} // verus!
