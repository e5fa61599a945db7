//! The orienteering problem on a weighted graph.
use vstd::prelude::*;

use crate::graph::GenericWeightedGraph;

verus! {

/// An orienteering problem: a route through `graph` that ends at `goal_point`
/// and takes at most `max_time`.
pub struct ProblemInstance<'a, G: GenericWeightedGraph> {
    graph: &'a G,
    goal_point: G::IndexType,
    max_time: G::EdgeWeightType,
}

impl<'a, G: GenericWeightedGraph> ProblemInstance<'a, G> {
    /// The graph the route runs through.
    pub closed spec fn spec_graph(&self) -> &'a G {
        self.graph
    }

    /// The node at which the route ends.
    pub closed spec fn spec_goal_point(&self) -> G::IndexType {
        self.goal_point
    }

    /// The time the route may take at most.
    pub closed spec fn spec_max_time(&self) -> G::EdgeWeightType {
        self.max_time
    }

    /// Creates the problem of a route through `graph` to `goal_point` within `max_time`.
    pub fn new(graph: &'a G, goal_point: G::IndexType, max_time: G::EdgeWeightType) -> (problem: Self)
        ensures
            problem.spec_graph() == graph,
            problem.spec_goal_point() == goal_point,
            problem.spec_max_time() == max_time,
    {
        ProblemInstance { graph, goal_point, max_time }
    }

    /// Returns the graph the route runs through.
    pub fn graph(&self) -> (graph: &'a G)
        ensures
            graph == self.spec_graph(),
    {
        self.graph
    }

    /// Returns the node at which the route ends.
    pub fn goal_point(&self) -> (goal: &G::IndexType)
        ensures
            *goal == self.spec_goal_point(),
    {
        &self.goal_point
    }

    /// Returns the time the route may take at most.
    pub fn max_time(&self) -> (max_time: &G::EdgeWeightType)
        ensures
            *max_time == self.spec_max_time(),
    {
        &self.max_time
    }
}

} // verus!
