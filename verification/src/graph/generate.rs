//! Generators of weighted graphs.
pub mod grid;

pub use grid::Grid;

use vstd::prelude::*;

use crate::graph::MatrixGraph;

verus! {

/// A source of weights for generated graphs: each call hands out the next weight.
pub trait WeightGenerator {
    type Weight;

    /// Whether the generator keeps the record [`drawn`](WeightGenerator::drawn) of the weights it
    /// hands out. A generator keeps none unless it says so, and then promises nothing of it.
    open spec fn keeps_record(&self) -> bool {
        false
    }

    /// The weights handed out so far, in the order of the calls, where a record is kept.
    open spec fn drawn(&self) -> Seq<Self::Weight> {
        Seq::empty()
    }

    /// Returns the next weight; a generator that keeps a record adds it to the end.
    fn next_weight(&mut self) -> (w: Self::Weight)
        ensures
            old(self).keeps_record() ==> final(self).keeps_record() && final(self).drawn() == old(self).drawn().push(w),
    ;
}

/// `after` is `before` with `count` more weights drawn.
pub open spec fn draws<W>(before: Seq<W>, after: Seq<W>, count: nat) -> bool {
    after.len() == before.len() + count && after.take(before.len() as int) == before
}

/// A generator of weighted graphs.
pub trait Generate<Nw, Ew> {
    /// The generator can build its graph without running out of ids or counters.
    spec fn can_generate(&self) -> bool;

    /// Generates a weighted graph with node weights `Nw` and edge weights `Ew`.
    fn generate(&mut self) -> MatrixGraph<Nw, Ew>
        requires
            old(self).can_generate(),
    ;
}

} // verus!
