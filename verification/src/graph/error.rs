use vstd::prelude::*;

verus! {

/// The ways in which a graph operation can fail.
#[derive(Debug, PartialEq, Eq)]
pub enum GraphError<IndexType> {
    /// The edge is not in the graph.
    MissingEdge((IndexType, IndexType)),
    /// The edge is already in the graph.
    DuplicateEdge((IndexType, IndexType)),
    /// The node is not in the graph.
    MissingNode(IndexType),
    /// The node is already in the graph.
    DuplicateNode(IndexType),
}

} // verus!
