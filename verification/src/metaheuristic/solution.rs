//! A route through a graph, kept as the list of the nodes it visits.
use vstd::prelude::*;

use crate::graph::{Edge, NodeId};

verus! {

/// The ways in which extending a route can fail.
#[derive(Debug, PartialEq, Eq)]
pub enum SolutionError<IndexType> {
    /// The edge does not start at the last node of the route.
    InvalidStartingNode(IndexType),
}

/// A route, given by the nodes it visits in order.
#[derive(Debug, Clone, PartialEq, Eq)]
pub struct Solution<IndexType> {
    node_list: Vec<IndexType>,
}

/// The route after appending `edge` to the route through `nodes`,
/// or the start of `edge` if it does not continue the route.
pub open spec fn push_edge_spec<I>(nodes: Seq<I>, edge: Edge<I>) -> Result<Seq<I>, I> {
    if nodes.len() == 0 {
        Ok(seq![edge.0, edge.1])
    } else if nodes.last() != edge.0 {
        Err(edge.0)
    } else {
        Ok(nodes.push(edge.1))
    }
}

/// The route built by appending the edges `es` one after another to an empty route,
/// or the start of the first edge that does not continue it.
pub open spec fn from_edges_spec<I>(es: Seq<Edge<I>>) -> Result<Seq<I>, I>
    decreases es.len(),
{
    if es.len() == 0 {
        Ok(Seq::empty())
    } else {
        match from_edges_spec(es.drop_last()) {
            Ok(nodes) => push_edge_spec(nodes, es.last()),
            Err(start) => Err(start),
        }
    }
}

/// The consecutive pairs of `nodes`: the edges the route takes.
pub open spec fn route_edges<I>(nodes: Seq<I>) -> Seq<Edge<I>> {
    Seq::new(
        if nodes.len() == 0 {
            0
        } else {
            (nodes.len() - 1) as nat
        },
        |k: int| (nodes[k], nodes[k + 1]),
    )
}

impl<IndexType> View for Solution<IndexType> {
    type V = Seq<IndexType>;

    closed spec fn view(&self) -> Seq<IndexType> {
        self.node_list@
    }
}

impl<IndexType: NodeId> Solution<IndexType> {
    /// Creates an empty route.
    pub fn new() -> (s: Self)
        ensures
            s@ == Seq::<IndexType>::empty(),
    {
        Solution { node_list: Vec::new() }
    }

    /// Builds a route from its edges. Fails with `InvalidStartingNode` on the first edge that
    /// does not start where the route so far ends.
    pub fn from_edges(edges: Vec<Edge<IndexType>>) -> (res: Result<Self, SolutionError<IndexType>>)
        ensures
            res is Ok <==> from_edges_spec(edges@) is Ok,
            res matches Ok(s) ==> from_edges_spec(edges@) == Ok::<Seq<IndexType>, IndexType>(s@),
            res matches Err(SolutionError::InvalidStartingNode(n)) ==> from_edges_spec(edges@) == Err::<Seq<IndexType>, IndexType>(n),
    {
        let mut solution = Solution::new();
        for k in 0..edges.len()
            invariant
                from_edges_spec(edges@.take(k as int)) == Ok::<Seq<IndexType>, IndexType>(solution@),
        {
            proof {
                assert(edges@.take(k as int + 1).drop_last() =~= edges@.take(k as int));
            }
            let edge = edges[k];
            if let Err(error) = solution.push_edge(edge) {
                proof {
                    lemma_from_edges_stays_err(edges@, k as int + 1);
                    assert(edges@.take(edges@.len() as int) =~= edges@);
                }
                return Err(error);
            }
        }
        assert(edges@.take(edges@.len() as int) =~= edges@);
        Ok(solution)
    }

    /// Builds a route that visits the given nodes in order.
    pub fn from_nodes(nodes: Vec<IndexType>) -> (s: Self)
        ensures
            s@ == nodes@,
    {
        Solution { node_list: nodes }
    }

    /// Extends the route by an edge. An empty route becomes the edge itself; otherwise the edge
    /// must start at the last node, and its end is appended. Else the route stays and the result
    /// is `InvalidStartingNode` with the start of the edge.
    pub fn push_edge(&mut self, edge: Edge<IndexType>) -> (res: Result<(), SolutionError<IndexType>>)
        ensures
            push_edge_spec(old(self)@, edge) matches Ok(nodes) ==> res is Ok && final(self)@ == nodes,
            push_edge_spec(old(self)@, edge) matches Err(n) ==> res == Err::<(), SolutionError<IndexType>>(SolutionError::InvalidStartingNode(n)) && final(self)@ == old(self)@,
            old(self)@.len() > 0 ==> (res is Ok <==> old(self)@.last() == edge.0),
            old(self)@.len() > 0 && res is Ok ==> final(self)@ == old(self)@.push(edge.1),
            old(self)@.len() == 0 ==> res is Ok && final(self)@ == seq![edge.0, edge.1],
            res is Err ==> final(self)@ == old(self)@ && res == Err::<(), SolutionError<IndexType>>(SolutionError::InvalidStartingNode(edge.0)),
    {
        let len = self.node_list.len();
        if len > 0 {
            let last = self.node_list[len - 1];
            if !last.same_node(&edge.0) {
                return Err(SolutionError::InvalidStartingNode(edge.0));
            } else {
                self.node_list.push(edge.1);
            }
        } else {
            self.node_list.push(edge.0);
            self.node_list.push(edge.1);
            assert(self.node_list@ =~= seq![edge.0, edge.1]);
        }
        Ok(())
    }

    /// Appends a node to the route.
    pub fn push_node(&mut self, node: IndexType)
        ensures
            final(self)@ == old(self)@.push(node),
    {
        self.node_list.push(node);
    }

    /// Returns the nodes of the route in order.
    pub fn nodes(&self) -> (nodes: Vec<IndexType>)
        ensures
            nodes@ == self@,
    {
        let mut nodes: Vec<IndexType> = Vec::with_capacity(self.node_list.len());
        for k in 0..self.node_list.len()
            invariant
                nodes@ == self@.take(k as int),
        {
            nodes.push(self.node_list[k]);
            assert(nodes@ =~= self@.take(k as int + 1));
        }
        assert(self@.take(self@.len() as int) =~= self@);
        nodes
    }

    /// Returns the edges the route takes, in order.
    pub fn edges(&self) -> (edges: Vec<Edge<IndexType>>)
        ensures
            edges@ == route_edges(self@),
    {
        let mut edges: Vec<Edge<IndexType>> = Vec::new();
        let len = self.node_list.len();
        if len == 0 {
            assert(edges@ =~= route_edges(self@));
            return edges;
        }
        for k in 0..len - 1
            invariant
                len == self@.len(),
                len > 0,
                edges@ == route_edges(self@).take(k as int),
        {
            edges.push((self.node_list[k], self.node_list[k + 1]));
            assert(edges@ =~= route_edges(self@).take(k as int + 1));
        }
        assert(edges@ =~= route_edges(self@));
        edges
    }

    /// Returns the route visiting the same nodes in reverse order.
    pub fn reversed(&self) -> (r: Self)
        ensures
            r@ == self@.reverse(),
    {
        let mut nodes: Vec<IndexType> = Vec::with_capacity(self.node_list.len());
        let len = self.node_list.len();
        for k in 0..len
            invariant
                len == self@.len(),
                nodes@ == self@.reverse().take(k as int),
        {
            nodes.push(self.node_list[len - 1 - k]);
            assert(nodes@ =~= self@.reverse().take(k as int + 1));
        }
        assert(nodes@ =~= self@.reverse());
        Solution { node_list: nodes }
    }

    /// Reverses the route in place.
    pub fn reverse(&mut self)
        ensures
            final(self)@ == old(self)@.reverse(),
    {
        *self = self.reversed();
    }

    /// Moves all nodes of `other` to the end of this route, leaving `other` empty.
    pub fn append(&mut self, other: &mut Self)
        ensures
            final(self)@ == old(self)@ + old(other)@,
            final(other)@ == Seq::<IndexType>::empty(),
    {
        self.node_list.append(&mut other.node_list);
    }
}

/// The elements of `s` in the order of their first occurrence, each once.
pub open spec fn first_occurrences<T>(s: Seq<T>) -> Seq<T>
    decreases s.len(),
{
    if s.len() == 0 {
        Seq::empty()
    } else {
        let u = first_occurrences(s.drop_last());
        if u.contains(s.last()) {
            u
        } else {
            u.push(s.last())
        }
    }
}

/// Returns true if `v` holds `x`.
fn contains_node<I: NodeId>(v: &Vec<I>, x: &I) -> (found: bool)
    ensures
        found == v@.contains(*x),
{
    for k in 0..v.len()
        invariant
            forall|j: int| 0 <= j < k ==> v@[j] != *x,
    {
        if v[k].same_node(x) {
            return true;
        }
    }
    false
}

/// Returns true if `v` holds the pair `(a, b)`.
fn contains_pair<'a, I: NodeId>(v: &Vec<(&'a I, &'a I)>, a: &I, b: &I) -> (found: bool)
    ensures
        found == v@.unref().contains((*a, *b)),
{
    for k in 0..v.len()
        invariant
            forall|j: int| 0 <= j < k ==> v@.unref()[j] != (*a, *b),
    {
        let (x, y) = v[k];
        if x.same_node(a) && y.same_node(b) {
            assert(v@.unref()[k as int] == (*a, *b));
            return true;
        }
    }
    false
}

impl<IndexType: NodeId> Solution<IndexType> {
    /// Returns an iterator over the nodes of the route, in order.
    pub fn iter_nodes(&self) -> (it: std::slice::Iter<'_, IndexType>)
        ensures
            vstd::std_specs::iter::IteratorSpec::remaining(&it).unref() == self@,
    {
        let it = self.node_list.as_slice().iter();
        assert(vstd::std_specs::iter::IteratorSpec::remaining(&it).unref() =~= self@);
        it
    }

    /// Returns an iterator over the edges the route takes, in order.
    pub fn iter_edges(&self) -> (it: std::vec::IntoIter<(&IndexType, &IndexType)>)
        ensures
            vstd::std_specs::iter::IteratorSpec::remaining(&it).unref() == route_edges(self@),
    {
        let mut pairs: Vec<(&IndexType, &IndexType)> = Vec::new();
        let len = self.node_list.len();
        if len > 0 {
            for k in 0..len - 1
                invariant
                    len == self@.len(),
                    len > 0,
                    pairs@.unref() == route_edges(self@).take(k as int),
            {
                let a = &self.node_list[k];
                let b = &self.node_list[k + 1];
                let ghost before = pairs@;
                pairs.push((a, b));
                assert(pairs@.unref() =~= before.unref().push((*a, *b)));
                assert(route_edges(self@).take(k as int + 1) =~= route_edges(self@).take(k as int).push((*a, *b)));
            }
        }
        assert(pairs@.unref() =~= route_edges(self@));
        pairs.into_iter()
    }

    /// Returns every node the route visits once, in the order of first visit.
    pub fn unique_nodes(&self) -> (nodes: Vec<IndexType>)
        ensures
            nodes@ == first_occurrences(self@),
    {
        let mut nodes: Vec<IndexType> = Vec::new();
        for k in 0..self.node_list.len()
            invariant
                nodes@ == first_occurrences(self@.take(k as int)),
        {
            proof {
                assert(self@.take(k as int + 1).drop_last() =~= self@.take(k as int));
            }
            let node = self.node_list[k];
            if !contains_node(&nodes, &node) {
                nodes.push(node);
            }
        }
        assert(self@.take(self@.len() as int) =~= self@);
        nodes
    }

    /// Returns an iterator over every node the route visits, each once, in the order of first visit.
    pub fn iter_unique_nodes(&self) -> (it: std::vec::IntoIter<IndexType>)
        ensures
            vstd::std_specs::iter::IteratorSpec::remaining(&it) == first_occurrences(self@),
    {
        self.unique_nodes().into_iter()
    }

    /// Returns every edge the route takes once, in the order of first use.
    pub fn unique_edges(&self) -> (edges: Vec<(&IndexType, &IndexType)>)
        ensures
            edges@.unref() == first_occurrences(route_edges(self@)),
    {
        let mut edges: Vec<(&IndexType, &IndexType)> = Vec::new();
        let len = self.node_list.len();
        let ghost all = route_edges(self@);
        if len > 0 {
            for k in 0..len - 1
                invariant
                    len == self@.len(),
                    len > 0,
                    all == route_edges(self@),
                    edges@.unref() == first_occurrences(all.take(k as int)),
            {
                proof {
                    assert(all.take(k as int + 1).drop_last() =~= all.take(k as int));
                }
                let a = &self.node_list[k];
                let b = &self.node_list[k + 1];
                if !contains_pair(&edges, a, b) {
                    edges.push((a, b));
                    assert(edges@.unref() =~= first_occurrences(all.take(k as int)).push((*a, *b)));
                }
            }
        }
        assert(all.take(all.len() as int) =~= all);
        edges
    }

    /// Returns an iterator over every edge the route takes, each once, in the order of first use.
    pub fn iter_unique_edges(&self) -> (it: std::vec::IntoIter<(&IndexType, &IndexType)>)
        ensures
            vstd::std_specs::iter::IteratorSpec::remaining(&it).unref() == first_occurrences(route_edges(self@)),
    {
        self.unique_edges().into_iter()
    }
}

/// Once a prefix of the edges fails to form a route, the whole list fails with the same error.
proof fn lemma_from_edges_stays_err<I>(es: Seq<Edge<I>>, k: int)
    requires
        0 < k <= es.len(),
        from_edges_spec(es.take(k)) is Err,
    ensures
        from_edges_spec(es) == from_edges_spec(es.take(k)),
    decreases es.len() - k,
{
    if k < es.len() {
        assert(es.take(k + 1).drop_last() =~= es.take(k));
        lemma_from_edges_stays_err(es, k + 1);
    } else {
        assert(es.take(k) =~= es);
    }
}

/// Pushing an edge onto a route succeeds exactly when the route is empty or ends where the edge
/// starts. Then the route takes the edges it took before and this edge after them, and it keeps
/// its nodes in front: an empty route becomes the edge's two nodes, and any other route, a route
/// of one node included, gains exactly the edge's end. A failure reports the edge's start.
pub proof fn law_push_edge_appends_the_edge<I>(nodes: Seq<I>, edge: Edge<I>)
    ensures
        push_edge_spec(nodes, edge) is Ok <==> (nodes.len() == 0 || nodes.last() == edge.0),
        push_edge_spec(nodes, edge) matches Ok(after) ==> {
            &&& route_edges(after) == route_edges(nodes).push(edge)
            &&& after.len() == if nodes.len() == 0 { 2 } else { nodes.len() + 1 }
            &&& after.take(nodes.len() as int) == nodes
            &&& after[0] == if nodes.len() == 0 { edge.0 } else { nodes[0] }
            &&& after.last() == edge.1
        },
        push_edge_spec(nodes, edge) matches Err(start) ==> start == edge.0,
{
    if let Ok(after) = push_edge_spec(nodes, edge) {
        if nodes.len() == 0 {
            assert(route_edges(after) =~= route_edges(nodes).push(edge));
            assert(after.take(0) =~= nodes);
        } else {
            assert(route_edges(after) =~= route_edges(nodes).push(edge));
            assert(after.take(nodes.len() as int) =~= nodes);
        }
    }
}

/// Building a route from the edges that a route takes gives back that route,
/// unless the route is a single node, which takes no edge.
pub proof fn law_from_edges_rebuilds_route<I>(nodes: Seq<I>)
    requires
        nodes.len() != 1,
    ensures
        from_edges_spec(route_edges(nodes)) == Ok::<Seq<I>, I>(nodes),
    decreases nodes.len(),
{
    let es = route_edges(nodes);
    if nodes.len() == 0 {
        assert(es =~= Seq::<Edge<I>>::empty());
        assert(nodes =~= Seq::<I>::empty());
    } else if nodes.len() == 2 {
        assert(es.drop_last() =~= Seq::<Edge<I>>::empty());
        assert(from_edges_spec(es.drop_last()) == Ok::<Seq<I>, I>(Seq::empty()));
        assert(es.last() == (nodes[0], nodes[1]));
        assert(seq![nodes[0], nodes[1]] =~= nodes);
    } else {
        let rest = nodes.drop_last();
        law_from_edges_rebuilds_route(rest);
        assert(es.drop_last() =~= route_edges(rest));
        assert(es.last() == (nodes[nodes.len() - 2], nodes[nodes.len() - 1]));
        assert(rest.last() == nodes[nodes.len() - 2]);
        assert(rest.push(nodes.last()) =~= nodes);
        assert(from_edges_spec(es.drop_last()) == Ok::<Seq<I>, I>(rest));
        assert(push_edge_spec(rest, es.last()) == Ok::<Seq<I>, I>(nodes));
    }
}

/// Each edge of `es` starts where the one before it ends.
pub open spec fn chained<I>(es: Seq<Edge<I>>) -> bool {
    forall|k: int| 0 <= k < es.len() - 1 ==> #[trigger] es[k].1 == es[k + 1].0
}

/// Building a route from a chain of edges succeeds with a route that takes exactly those edges,
/// one node more than there are edges (none for no edge). Building it from edges that do not
/// form a chain fails with the start of the first edge that does not continue the one before.
pub proof fn law_from_edges_follows_the_chain<I>(es: Seq<Edge<I>>)
    ensures
        chained(es) ==> from_edges_spec(es) is Ok,
        from_edges_spec(es) matches Ok(nodes) ==> {
            &&& route_edges(nodes) == es
            &&& nodes.len() == if es.len() == 0 {
                0
            } else {
                es.len() + 1
            }
        },
        !chained(es) ==> exists|k: int|
            0 <= k < es.len() - 1 && #[trigger] es[k].1 != es[k + 1].0 && (forall|l: int|
                0 <= l < k ==> #[trigger] es[l].1 == es[l + 1].0) && from_edges_spec(es) == Err::<Seq<I>, I>(
                es[k + 1].0,
            ),
    decreases es.len(),
{
    if es.len() > 0 {
        let rest = es.drop_last();
        let e = es.last();
        law_from_edges_follows_the_chain(rest);
        if chained(es) {
            assert forall|k: int| 0 <= k < rest.len() - 1 implies #[trigger] rest[k].1 == rest[k + 1].0 by {
                assert(es[k].1 == es[k + 1].0);
            }
        }
        if !chained(rest) {
            let k = choose|k: int|
                0 <= k < rest.len() - 1 && #[trigger] rest[k].1 != rest[k + 1].0 && (forall|l: int|
                    0 <= l < k ==> #[trigger] rest[l].1 == rest[l + 1].0) && from_edges_spec(rest) == Err::<Seq<I>, I>(
                    rest[k + 1].0,
                );
            assert(es[k] == rest[k] && es[k + 1] == rest[k + 1]);
            assert forall|l: int| 0 <= l < k implies #[trigger] es[l].1 == es[l + 1].0 by {
                assert(rest[l].1 == rest[l + 1].0);
            }
            assert(!chained(es));
        } else {
            let nodes = from_edges_spec(rest)->Ok_0;
            if rest.len() == 0 {
                assert(nodes.len() == 0);
                assert(route_edges(seq![e.0, e.1]) =~= es);
                assert(chained(es));
            } else {
                let n = nodes.len();
                assert(rest[rest.len() - 1] == (nodes[n - 2], nodes[n - 1]));
                assert(nodes.last() == rest.last().1);
                if rest.last().1 == e.0 {
                    assert(route_edges(nodes.push(e.1)) =~= es) by {
                        assert forall|k: int| 0 <= k < es.len() implies #[trigger] route_edges(nodes.push(e.1))[k] == es[k] by {
                            if k < rest.len() {
                                assert(route_edges(nodes)[k] == rest[k]);
                            }
                        }
                    }
                    assert forall|k: int| 0 <= k < es.len() - 1 implies #[trigger] es[k].1 == es[k + 1].0 by {
                        if k < rest.len() - 1 {
                            assert(rest[k].1 == rest[k + 1].0);
                        }
                    }
                } else {
                    let k = es.len() - 2;
                    assert(es[k] == rest.last());
                    assert forall|l: int| 0 <= l < k implies #[trigger] es[l].1 == es[l + 1].0 by {
                        assert(rest[l].1 == rest[l + 1].0);
                    }
                    assert(es[k].1 != es[k + 1].0);
                    assert(!chained(es));
                }
            }
        }
    }
}

/// Reversing a route twice gives back the route.
pub proof fn law_reverse_twice<I>(nodes: Seq<I>)
    ensures
        nodes.reverse().reverse() == nodes,
{
    assert(nodes.reverse().reverse() =~= nodes);
}

/// The unique nodes of a route hold each node of the route exactly once.
pub proof fn law_unique_nodes<T>(s: Seq<T>)
    ensures
        first_occurrences(s).no_duplicates(),
        forall|x: T| first_occurrences(s).contains(x) <==> s.contains(x),
    decreases s.len(),
{
    if s.len() > 0 {
        let rest = s.drop_last();
        law_unique_nodes(rest);
        assert forall|x: T| first_occurrences(s).contains(x) <==> s.contains(x) by {
            if s.contains(x) {
                let k = choose|k: int| 0 <= k < s.len() && s[k] == x;
                if k < s.len() - 1 {
                    assert(rest[k] == x);
                }
            }
            if rest.contains(x) {
                let k = choose|k: int| 0 <= k < rest.len() && rest[k] == x;
                assert(s[k] == x);
            }
            let u = first_occurrences(rest);
            if !u.contains(s.last()) && u.push(s.last()).contains(x) {
                let k = choose|k: int| 0 <= k < u.push(s.last()).len() && u.push(s.last())[k] == x;
                if k < u.len() {
                    assert(u[k] == x);
                }
            }
            if !u.contains(s.last()) && x == s.last() {
                assert(u.push(s.last())[u.len() as int] == x);
            }
            if !u.contains(s.last()) && u.contains(x) {
                let k = choose|k: int| 0 <= k < u.len() && u[k] == x;
                assert(u.push(s.last())[k] == x);
            }
        }
    }
}

} // verus!
