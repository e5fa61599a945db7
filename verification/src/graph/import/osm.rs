//! Road networks from OpenStreetMap data: the nodes and ways of a map, and the network in which
//! every path of nodes that merely pass a road on is contracted into one edge.
use vstd::prelude::*;


verus! {

/// A node of the map: its id and its position in units of 1e-7 degrees.
#[derive(Clone, Copy, Debug, PartialEq, Eq, Structural)]
pub struct OsmNode {
    pub id: i64,
    pub decimicro_lat: i32,
    pub decimicro_lon: i32,
}

/// A way of the map: the ids of the nodes it passes, in order, and the bytes of its road type.
#[derive(Clone, Debug)]
pub struct OsmWay {
    pub nodes: Vec<i64>,
    pub highway: Option<Vec<u8>>,
}

/// The hops of a way: each node it passes to the next.
pub open spec fn way_hops(ns: Seq<i64>) -> Seq<(i64, i64)> {
    Seq::new(if ns.len() == 0 { 0 } else { (ns.len() - 1) as nat }, |k: int| (ns[k], ns[k + 1]))
}

/// The node lists of the ways.
pub open spec fn way_lists(ways: Seq<OsmWay>) -> Seq<Seq<i64>> {
    ways.map_values(|w: OsmWay| w.nodes@)
}

/// The hops of all ways, way after way.
pub open spec fn hops_of(ways: Seq<Seq<i64>>) -> Seq<(i64, i64)>
    decreases ways.len(),
{
    if ways.len() == 0 {
        Seq::empty()
    } else {
        hops_of(ways.drop_last()) + way_hops(ways.last())
    }
}

/// The nodes of the map by id; where an id is listed twice, the later node stays.
pub open spec fn node_table(nodes: Seq<OsmNode>) -> Map<i64, OsmNode>
    decreases nodes.len(),
{
    if nodes.len() == 0 {
        Map::empty()
    } else {
        node_table(nodes.drop_last()).insert(nodes.last().id, nodes.last())
    }
}

/// Every way passes only nodes of the map.
pub open spec fn ways_known(nodes: Seq<OsmNode>, ways: Seq<OsmWay>) -> bool {
    forall|w: int, k: int|
        0 <= w < ways.len() && 0 <= k < ways[w].nodes@.len() ==> node_table(nodes).contains_key(
            #[trigger] ways[w].nodes@[k],
        )
}

/// The nodes that a hop leads to from `a`.
pub open spec fn successors(hops: Seq<(i64, i64)>, a: i64) -> Set<i64> {
    Set::new(|b: i64| hops.contains((a, b)))
}

/// The hop arrives at `b`.
pub open spec fn arrives_at(b: i64) -> spec_fn((i64, i64)) -> bool {
    |e: (i64, i64)| e.1 == b
}

/// The number of hops that arrive at `b`, each hop counted as often as it occurs.
pub open spec fn arrivals(hops: Seq<(i64, i64)>, b: i64) -> nat {
    hops.filter(arrives_at(b)).len()
}

/// The node stays in the contracted network: it is a node of the map, some hop leaves or
/// reaches it, and it is not a node that exactly one hop reaches and that leads to exactly one node.
#[verifier::opaque]
pub open spec fn kept(nodes: Seq<OsmNode>, hops: Seq<(i64, i64)>, id: i64) -> bool {
    &&& node_table(nodes).contains_key(id)
    &&& !(successors(hops, id).len() == 1 && arrivals(hops, id) == 1)
    &&& (successors(hops, id).len() > 0 || arrivals(hops, id) > 0)
}

/// The node that the first hop from `a` leads to; a node that is not kept and that some hop
/// reaches has exactly one.
pub open spec fn next_node(hops: Seq<(i64, i64)>, a: i64) -> i64 {
    successors(hops, a).choose()
}

/// Following hops from `cur` through nodes that are not kept, for at most `fuel` hops: the node
/// where the walk stops, and the hops taken. The walk stops at a kept node, or where the next
/// node is the node itself.
#[verifier::opaque]
pub open spec fn walk(nodes: Seq<OsmNode>, hops: Seq<(i64, i64)>, cur: i64, fuel: nat) -> (i64, Seq<(i64, i64)>)
    decreases fuel,
{
    if fuel == 0 || kept(nodes, hops, cur) {
        (cur, Seq::empty())
    } else {
        let next = next_node(hops, cur);
        if next == cur {
            (cur, Seq::empty())
        } else {
            let rest = walk(nodes, hops, next, (fuel - 1) as nat);
            (rest.0, seq![(cur, next)] + rest.1)
        }
    }
}

/// The route that leaves `u` by the hop to `v` and goes on through nodes that are not kept:
/// where it ends, and all hops it takes. No route takes more hops than there are.
#[verifier::opaque]
pub open spec fn route_from(nodes: Seq<OsmNode>, hops: Seq<(i64, i64)>, u: i64, v: i64) -> (i64, Seq<(i64, i64)>) {
    let rest = walk(nodes, hops, v, hops.len());
    (rest.0, seq![(u, v)] + rest.1)
}

/// The route that leaves `u` by the hop to `v` ends at `e`.
pub open spec fn leads_to(nodes: Seq<OsmNode>, hops: Seq<(i64, i64)>, u: i64, v: i64, e: i64) -> bool {
    successors(hops, u).contains(v) && route_from(nodes, hops, u, v).0 == e
}

/// The contracted network has an edge from `u` to `e`: both are kept, they differ, and a route
/// from `u` ends at `e`.
#[verifier::opaque]
pub open spec fn contracted_edge(nodes: Seq<OsmNode>, hops: Seq<(i64, i64)>, u: i64, e: i64) -> bool {
    &&& kept(nodes, hops, u)
    &&& kept(nodes, hops, e)
    &&& u != e
    &&& exists|v: i64| leads_to(nodes, hops, u, v, e)
}

/// Of the nodes through which routes from `u` to `e` leave `u`, the one with the largest id.
#[verifier::opaque]
pub open spec fn first_hop_of(nodes: Seq<OsmNode>, hops: Seq<(i64, i64)>, u: i64, e: i64) -> i64 {
    choose|v: i64| leads_to(nodes, hops, u, v, e) && forall|w: i64| #[trigger] leads_to(nodes, hops, u, w, e) ==> w <= v
}

/// The hops that the contracted edge from `u` to `e` replaces: those of the route from `u` to `e`
/// that leaves `u` through the node with the largest id.
#[verifier::opaque]
pub open spec fn contracted_hops(nodes: Seq<OsmNode>, hops: Seq<(i64, i64)>, u: i64, e: i64) -> Seq<(i64, i64)> {
    route_from(nodes, hops, u, first_hop_of(nodes, hops, u, e)).1
}

/// The ids of the nodes strictly increase along the list.
pub open spec fn ids_increasing(s: Seq<OsmNode>) -> bool {
    forall|a: int, b: int| 0 <= a < b < s.len() ==> #[trigger] s[a].id < #[trigger] s[b].id
}

/// The list holds each node of the table once, in increasing order of the ids.
pub open spec fn lists_table(s: Seq<OsmNode>, table: Map<i64, OsmNode>) -> bool {
    &&& ids_increasing(s)
    &&& forall|j: int| 0 <= j < s.len() ==> table.contains_key(#[trigger] s[j].id) && table[s[j].id] == s[j]
    &&& forall|id: i64| #[trigger] table.contains_key(id) ==> exists|j: int| 0 <= j < s.len() && #[trigger] s[j].id == id
}

/// Finds `id` among nodes listed in increasing order of their ids: its position, or else
/// the position at which it would stand.
pub fn find_id(sorted: &[OsmNode], id: i64) -> (res: Result<usize, usize>)
    requires
        ids_increasing(sorted@),
    ensures
        res matches Ok(p) ==> p < sorted@.len() && sorted@[p as int].id == id,
        res matches Err(p) ==> p <= sorted@.len() && (forall|j: int| 0 <= j < p ==> #[trigger] sorted@[j].id < id)
            && (forall|j: int| p <= j < sorted@.len() ==> #[trigger] sorted@[j].id > id),
{
    let mut lo: usize = 0;
    let mut hi: usize = sorted.len();
    while lo < hi
        invariant
            lo <= hi <= sorted@.len(),
            ids_increasing(sorted@),
            forall|j: int| 0 <= j < lo ==> #[trigger] sorted@[j].id < id,
            forall|j: int| hi <= j < sorted@.len() ==> #[trigger] sorted@[j].id > id,
        decreases hi - lo,
    {
        let mid = lo + (hi - lo) / 2;
        let here = sorted[mid].id;
        if here == id {
            return Ok(mid);
        } else if here < id {
            lo = mid + 1;
        } else {
            hi = mid;
        }
    }
    Err(lo)
}

/// The nodes of the map, each id once with the node listed last for it, in increasing order of the ids.
pub fn sorted_nodes(nodes: &[OsmNode]) -> (sorted: Vec<OsmNode>)
    ensures
        lists_table(sorted@, node_table(nodes@)),
{
    let mut sorted: Vec<OsmNode> = Vec::new();
    for k in 0..nodes.len()
        invariant
            lists_table(sorted@, node_table(nodes@.take(k as int))),
    {
        let ghost before = sorted@;
        let ghost table = node_table(nodes@.take(k as int));
        assert(nodes@.take(k as int + 1).drop_last() =~= nodes@.take(k as int));
        let node = nodes[k];
        let ghost next = node_table(nodes@.take(k as int + 1));
        assert(next == table.insert(node.id, node));
        match find_id(sorted.as_slice(), node.id) {
            Ok(p) => {
                sorted.set(p, node);
                assert forall|id: i64| #[trigger] next.contains_key(id) implies exists|j: int|
                    0 <= j < sorted@.len() && #[trigger] sorted@[j].id == id by {
                    if id != node.id {
                        let j = choose|j: int| 0 <= j < before.len() && #[trigger] before[j].id == id;
                        assert(sorted@[j].id == id);
                    } else {
                        assert(sorted@[p as int].id == id);
                    }
                }
            },
            Err(p) => {
                sorted.insert(p, node);
                assert forall|a: int, b: int| 0 <= a < b < sorted@.len() implies #[trigger] sorted@[a].id
                    < #[trigger] sorted@[b].id by {
                    if a < p && b > p {
                        assert(sorted@[a] == before[a] && sorted@[b] == before[b - 1]);
                    } else if a < p && b < p {
                        assert(sorted@[a] == before[a] && sorted@[b] == before[b]);
                    } else if a > p {
                        assert(sorted@[a] == before[a - 1] && sorted@[b] == before[b - 1]);
                    } else if a == p {
                        assert(sorted@[b] == before[b - 1]);
                    } else {
                        assert(sorted@[a] == before[a]);
                    }
                }
                assert forall|j: int| 0 <= j < sorted@.len() implies next.contains_key(#[trigger] sorted@[j].id)
                    && next[sorted@[j].id] == sorted@[j] by {
                    if j < p {
                        assert(sorted@[j] == before[j]);
                    } else if j > p {
                        assert(sorted@[j] == before[j - 1]);
                    }
                }
                assert forall|id: i64| #[trigger] next.contains_key(id) implies exists|j: int|
                    0 <= j < sorted@.len() && #[trigger] sorted@[j].id == id by {
                    if id != node.id {
                        let j = choose|j: int| 0 <= j < before.len() && #[trigger] before[j].id == id;
                        if j < p {
                            assert(sorted@[j].id == id);
                        } else {
                            assert(sorted@[j + 1].id == id);
                        }
                    } else {
                        assert(sorted@[p as int].id == id);
                    }
                }
            },
        }
    }
    assert(nodes@.take(nodes@.len() as int) =~= nodes@);
    sorted
}

/// The hops between nodes of `sorted`, by positions: the successor lists hold the positions of
/// the nodes a hop leads to, each once, and the counts the number of hops arriving at each node.
pub open spec fn degrees_match(
    sorted: Seq<OsmNode>,
    succ: Seq<Seq<usize>>,
    arrive: Seq<usize>,
    hops: Seq<(i64, i64)>,
) -> bool {
    &&& succ.len() == sorted.len()
    &&& arrive.len() == sorted.len()
    &&& forall|p: int| 0 <= p < sorted.len() ==> (#[trigger] succ[p]).no_duplicates()
    &&& forall|p: int, j: int| 0 <= p < sorted.len() && 0 <= j < succ[p].len() ==> #[trigger] succ[p][j] < sorted.len()
    &&& forall|p: int, q: int|
        0 <= p < sorted.len() && 0 <= q < sorted.len() ==> (#[trigger] succ[p].contains(q as usize) <==> hops.contains(
            (sorted[p].id, #[trigger] sorted[q].id),
        ))
    &&& forall|p: int| 0 <= p < sorted.len() ==> #[trigger] arrive[p] == arrivals(hops, sorted[p].id)
}

/// Every hop joins two nodes of the table.
pub open spec fn hops_known(hops: Seq<(i64, i64)>, table: Map<i64, OsmNode>) -> bool {
    forall|k: int| #![trigger hops[k]] 0 <= k < hops.len() ==> table.contains_key(hops[k].0) && table.contains_key(hops[k].1)
}

/// Records the hop from position `p` to position `q`.
fn add_hop(succ: &mut Vec<Vec<usize>>, arrive: &mut Vec<usize>, p: usize, q: usize, sorted: Ghost<Seq<OsmNode>>, hops: Ghost<Seq<(i64, i64)>>)
    requires
        degrees_match(sorted@, old(succ)@.map_values(|v: Vec<usize>| v@), old(arrive)@, hops@),
        p < sorted@.len(),
        q < sorted@.len(),
        sorted@.len() <= usize::MAX,
        ids_increasing(sorted@),
        hops@.len() + 1 < usize::MAX,
        forall|r: int| 0 <= r < sorted@.len() ==> #[trigger] old(arrive)@[r] <= hops@.len(),
    ensures
        degrees_match(
            sorted@,
            final(succ)@.map_values(|v: Vec<usize>| v@),
            final(arrive)@,
            hops@.push((sorted@[p as int].id, sorted@[q as int].id)),
        ),
        forall|r: int| 0 <= r < sorted@.len() ==> #[trigger] final(arrive)@[r] <= hops@.len() + 1,
{
    let ghost e = (sorted@[p as int].id, sorted@[q as int].id);
    let ghost nh = hops@.push(e);
    let ghost before = succ@.map_values(|v: Vec<usize>| v@);
    let ghost old_arrive = arrive@;
    let mut present = false;
    let row_len = succ[p].len();
    for j in 0..row_len
        invariant
            row_len == succ@[p as int]@.len(),
            p < succ@.len(),
            present <==> exists|i: int| 0 <= i < j && succ@[p as int]@[i] == q,
    {
        if succ[p][j] == q {
            present = true;
        }
    }
    proof {
        assert(before[p as int] == succ@[p as int]@);
        assert(present <==> before[p as int].contains(q));
    }
    if !present {
        succ[p].push(q);
    }
    let ghost after = succ@.map_values(|v: Vec<usize>| v@);
    proof {
        assert(after.len() == before.len());
        assert forall|a: int| 0 <= a < after.len() && a != p implies #[trigger] after[a] == before[a] by {}
        if present {
            assert(after[p as int] == before[p as int]);
        } else {
            assert(after[p as int] == before[p as int].push(q));
        }
    }
    let count = arrive[q];
    arrive.set(q, count + 1);
    proof {
        assert(nh.drop_last() =~= hops@);
        assert forall|r: int| 0 <= r < sorted@.len() implies #[trigger] arrive@[r] == arrivals(nh, sorted@[r].id) by {
            hops@.lemma_filter_push(e, arrives_at(sorted@[r].id));
            assert(old_arrive[r] == arrivals(hops@, sorted@[r].id));
            if r != q {
                assert(sorted@[r].id != sorted@[q as int].id) by {
                    if r < q {} else {}
                }
                assert(arrive@[r] == old_arrive[r]);
            } else {
                assert(arrive@[r] == old_arrive[r] + 1);
            }
        }
        assert forall|a: int, b: int|
            0 <= a < sorted@.len() && 0 <= b < sorted@.len() implies (#[trigger] after[a].contains(b as usize) <==> nh.contains(
                (sorted@[a].id, #[trigger] sorted@[b].id),
            )) by {
            assert(before[a].contains(b as usize) <==> hops@.contains((sorted@[a].id, sorted@[b].id)));
            if nh.contains((sorted@[a].id, sorted@[b].id)) && !hops@.contains((sorted@[a].id, sorted@[b].id)) {
                let i = choose|i: int| 0 <= i < nh.len() && nh[i] == (sorted@[a].id, sorted@[b].id);
                assert(i == hops@.len());
                assert(a == p) by { if a < p {} else if a > p {} }
                assert(b == q) by { if b < q {} else if b > q {} }
                if !present {
                    assert(after[a][after[a].len() - 1] == q);
                }
            }
            if hops@.contains((sorted@[a].id, sorted@[b].id)) {
                let i = choose|i: int| 0 <= i < hops@.len() && hops@[i] == (sorted@[a].id, sorted@[b].id);
                assert(nh[i] == hops@[i]);
                if a == p && !present {
                    let k = choose|k: int| 0 <= k < before[a].len() && before[a][k] == b as usize;
                    assert(after[a][k] == b as usize);
                }
            }
            if after[a].contains(b as usize) {
                let k = choose|k: int| 0 <= k < after[a].len() && after[a][k] == b as usize;
                if a == p && !present && k == before[a].len() {
                    assert(b as usize == q);
                    assert(nh[hops@.len() as int] == e);
                } else {
                    assert(before[a][k] == b as usize);
                    let i = choose|i: int| 0 <= i < hops@.len() && hops@[i] == (sorted@[a].id, sorted@[b].id);
                    assert(nh[i] == hops@[i]);
                }
            }
        }
        assert forall|a: int| 0 <= a < sorted@.len() implies (#[trigger] after[a]).no_duplicates() by {
            if a == p && !present {
                assert(before[a].no_duplicates());
            }
        }
        assert forall|a: int, j: int| 0 <= a < sorted@.len() && 0 <= j < after[a].len() implies #[trigger] after[a][j] < sorted@.len() by {
            if a == p && !present && j == before[a].len() {
            } else {
                assert(after[a][j] == before[a][j]);
            }
        }
    }
}

/// The hops of the first `w + 1` ways are those of the first `w` ways and then those of way `w`.
pub proof fn lemma_hops_take(ways: Seq<Seq<i64>>, w: int)
    requires
        0 <= w < ways.len(),
    ensures
        hops_of(ways.take(w + 1)) == hops_of(ways.take(w)) + way_hops(ways[w]),
{
    assert(ways.take(w + 1).drop_last() =~= ways.take(w));
}

/// The hops of the first `w` ways are no more than those of all ways.
pub proof fn lemma_hops_take_len(ways: Seq<Seq<i64>>, w: int)
    requires
        0 <= w <= ways.len(),
    ensures
        hops_of(ways.take(w)).len() <= hops_of(ways).len(),
    decreases ways.len() - w,
{
    if w < ways.len() {
        lemma_hops_take(ways, w);
        lemma_hops_take_len(ways, w + 1);
    } else {
        assert(ways.take(w) =~= ways);
    }
}

/// The position of a node that the table holds.
fn position_of(sorted: &Vec<OsmNode>, id: i64, table: Ghost<Map<i64, OsmNode>>) -> (p: usize)
    requires
        lists_table(sorted@, table@),
        table@.contains_key(id),
    ensures
        p < sorted@.len(),
        sorted@[p as int].id == id,
{
    match find_id(sorted.as_slice(), id) {
        Ok(p) => p,
        Err(p) => {
            proof {
                let j = choose|j: int| 0 <= j < sorted@.len() && #[trigger] sorted@[j].id == id;
                if j < p {
                } else {
                }
            }
            0
        },
    }
}

/// The successor lists and the arrival counts of the map's nodes, by their positions in `sorted`.
fn hop_degrees(sorted: &Vec<OsmNode>, ways: &[OsmWay], table: Ghost<Map<i64, OsmNode>>) -> (res: (Vec<Vec<usize>>, Vec<usize>))
    requires
        lists_table(sorted@, table@),
        forall|w: int, k: int|
            0 <= w < ways@.len() && 0 <= k < ways@[w].nodes@.len() ==> table@.contains_key(#[trigger] ways@[w].nodes@[k]),
        hops_of(way_lists(ways@)).len() + 1 < usize::MAX,
    ensures
        degrees_match(sorted@, res.0@.map_values(|v: Vec<usize>| v@), res.1@, hops_of(way_lists(ways@))),
{
    let n = sorted.len();
    let ghost all = way_lists(ways@);
    let mut succ: Vec<Vec<usize>> = Vec::new();
    let mut arrive: Vec<usize> = Vec::new();
    for p in 0..n
        invariant
            n == sorted@.len(),
            succ@.len() == p,
            arrive@.len() == p,
            forall|r: int| 0 <= r < p ==> #[trigger] succ@[r]@ == Seq::<usize>::empty(),
            forall|r: int| 0 <= r < p ==> #[trigger] arrive@[r] == 0,
    {
        succ.push(Vec::new());
        arrive.push(0);
    }
    proof {
        let e = Seq::<(i64, i64)>::empty();
        assert forall|r: int| 0 <= r < n implies #[trigger] arrive@[r] == arrivals(e, sorted@[r].id) by {
            assert(e.filter(arrives_at(sorted@[r].id)) =~= e);
        }
        assert(all.take(0) =~= Seq::<Seq<i64>>::empty());
    }
    let ghost mut done = Seq::<(i64, i64)>::empty();
    for w in 0..ways.len()
        invariant
            n == sorted@.len(),
            all == way_lists(ways@),
            lists_table(sorted@, table@),
            forall|w2: int, k: int|
                0 <= w2 < ways@.len() && 0 <= k < ways@[w2].nodes@.len() ==> table@.contains_key(#[trigger] ways@[w2].nodes@[k]),
            hops_of(all).len() + 1 < usize::MAX,
            done == hops_of(all.take(w as int)),
            degrees_match(sorted@, succ@.map_values(|v: Vec<usize>| v@), arrive@, done),
            forall|r: int| 0 <= r < n ==> #[trigger] arrive@[r] <= done.len(),
    {
        let way_nodes = &ways[w].nodes;
        let len = way_nodes.len();
        let ghost start = done;
        proof {
            lemma_hops_take(all, w as int);
            lemma_hops_take_len(all, w as int + 1);
            assert(all[w as int] == way_nodes@);
        }
        if len > 0 {
            for k in 1..len
                invariant
                    n == sorted@.len(),
                    len == way_nodes@.len(),
                    way_nodes@ == ways@[w as int].nodes@,
                    w < ways@.len(),
                    lists_table(sorted@, table@),
                    forall|w2: int, k2: int|
                        0 <= w2 < ways@.len() && 0 <= k2 < ways@[w2].nodes@.len() ==> table@.contains_key(#[trigger] ways@[w2].nodes@[k2]),
                    start.len() + way_hops(way_nodes@).len() <= hops_of(all).len(),
                    hops_of(all).len() + 1 < usize::MAX,
                    done == start + way_hops(way_nodes@).take(k - 1),
                    degrees_match(sorted@, succ@.map_values(|v: Vec<usize>| v@), arrive@, done),
                    forall|r: int| 0 <= r < n ==> #[trigger] arrive@[r] <= done.len(),
            {
                let from = way_nodes[k - 1];
                let to = way_nodes[k];
                let p = position_of(sorted, from, table);
                let q = position_of(sorted, to, table);
                add_hop(&mut succ, &mut arrive, p, q, Ghost(sorted@), Ghost(done));
                proof {
                    assert(way_hops(way_nodes@).take(k as int) =~= way_hops(way_nodes@).take(k - 1).push((from, to)));
                    done = done.push((from, to));
                }
            }
            proof {
                assert(way_hops(way_nodes@).take(len - 1) =~= way_hops(way_nodes@));
            }
        } else {
            proof {
                assert(way_hops(way_nodes@) =~= Seq::<(i64, i64)>::empty());
                assert(done =~= start + way_hops(way_nodes@));
            }
        }
    }
    proof {
        assert(all.take(ways@.len() as int) =~= all);
    }
    (succ, arrive)
}

/// Both ends of every hop of the ways are nodes of the table.
proof fn lemma_hops_known(ways: Seq<Seq<i64>>, table: Map<i64, OsmNode>)
    requires
        forall|w: int, k: int| 0 <= w < ways.len() && 0 <= k < ways[w].len() ==> table.contains_key(#[trigger] ways[w][k]),
    ensures
        hops_known(hops_of(ways), table),
    decreases ways.len(),
{
    if ways.len() > 0 {
        let rest = ways.drop_last();
        assert forall|w: int, k: int| 0 <= w < rest.len() && 0 <= k < rest[w].len() implies table.contains_key(#[trigger] rest[w][k]) by {
            assert(rest[w] == ways[w]);
        }
        lemma_hops_known(rest, table);
        let last = ways.last();
        let h = hops_of(ways);
        assert forall|k: int| #![trigger h[k]] 0 <= k < h.len() implies table.contains_key(h[k].0) && table.contains_key(h[k].1) by {
            if k >= hops_of(rest).len() {
                let i = k - hops_of(rest).len();
                assert(h[k] == way_hops(last)[i]);
                assert(last == ways[ways.len() - 1]);
                assert(table.contains_key(last[i]) && table.contains_key(last[i + 1]));
            } else {
                assert(h[k] == hops_of(rest)[k]);
            }
        }
    }
}

/// The successors of the node at position `p` are the ids of the positions in its list,
/// and there are as many as the list is long.
proof fn lemma_successor_set(
    sorted: Seq<OsmNode>,
    table: Map<i64, OsmNode>,
    succ: Seq<Seq<usize>>,
    arrive: Seq<usize>,
    hops: Seq<(i64, i64)>,
    p: int,
)
    requires
        lists_table(sorted, table),
        hops_known(hops, table),
        degrees_match(sorted, succ, arrive, hops),
        0 <= p < sorted.len(),
        sorted.len() <= usize::MAX,
    ensures
        successors(hops, sorted[p].id) == succ[p].map_values(|q: usize| sorted[q as int].id).to_set(),
        successors(hops, sorted[p].id).len() == succ[p].len(),
{
    let a = sorted[p].id;
    let mapped = succ[p].map_values(|q: usize| sorted[q as int].id);
    assert forall|b: i64| successors(hops, a).contains(b) <==> mapped.to_set().contains(b) by {
        if successors(hops, a).contains(b) {
            assert(hops.contains((a, b)));
            let i = choose|i: int| 0 <= i < hops.len() && hops[i] == (a, b);
            assert(table.contains_key(hops[i].0) && table.contains_key(hops[i].1));
            assert(table.contains_key(b));
            let q = choose|q: int| 0 <= q < sorted.len() && #[trigger] sorted[q].id == b;
            assert(succ[p].contains(q as usize));
            let j = choose|j: int| 0 <= j < succ[p].len() && succ[p][j] == q as usize;
            assert(mapped[j] == b);
        }
        if mapped.to_set().contains(b) {
            let j = choose|j: int| 0 <= j < mapped.len() && mapped[j] == b;
            let q = succ[p][j] as int;
            assert(q < sorted.len());
            assert(succ[p].contains(q as usize));
            assert(hops.contains((sorted[p].id, sorted[q].id)));
        }
    }
    assert(successors(hops, a) =~= mapped.to_set());
    assert forall|x: int, y: int| 0 <= x < y < mapped.len() implies mapped[x] != mapped[y] by {
        let qx = succ[p][x] as int;
        let qy = succ[p][y] as int;
        assert(qx != qy);
        if qx < qy {
            assert(sorted[qx].id < sorted[qy].id);
        } else {
            assert(sorted[qy].id < sorted[qx].id);
        }
    }
    mapped.unique_seq_to_set();
}

/// A hop that occurs arrives at its end at least once.
proof fn lemma_arrival(hops: Seq<(i64, i64)>, i: int)
    requires
        0 <= i < hops.len(),
    ensures
        arrivals(hops, hops[i].1) >= 1,
{
    broadcast use vstd::seq_lib::group_filter_ensures;
    let f = hops.filter(arrives_at(hops[i].1));
    assert(f.contains(hops[i]));
}

/// Whether each node of `sorted` is kept.
fn kept_flags(
    nodes: &[OsmNode],
    sorted: &Vec<OsmNode>,
    succ: &Vec<Vec<usize>>,
    arrive: &Vec<usize>,
    hops: Ghost<Seq<(i64, i64)>>,
) -> (flags: Vec<bool>)
    requires
        lists_table(sorted@, node_table(nodes@)),
        hops_known(hops@, node_table(nodes@)),
        degrees_match(sorted@, succ@.map_values(|v: Vec<usize>| v@), arrive@, hops@),
    ensures
        flags@.len() == sorted@.len(),
        forall|p: int| 0 <= p < sorted@.len() ==> #[trigger] flags@[p] == kept(nodes@, hops@, sorted@[p].id),
{
    reveal(kept);
    let mut flags: Vec<bool> = Vec::new();
    for p in 0..sorted.len()
        invariant
            lists_table(sorted@, node_table(nodes@)),
            hops_known(hops@, node_table(nodes@)),
            degrees_match(sorted@, succ@.map_values(|v: Vec<usize>| v@), arrive@, hops@),
            flags@.len() == p,
            forall|r: int| 0 <= r < p ==> #[trigger] flags@[r] == kept(nodes@, hops@, sorted@[r].id),
    {
        let outs = succ[p].len();
        let ins = arrive[p];
        proof {
            reveal(kept);
            lemma_successor_set(sorted@, node_table(nodes@), succ@.map_values(|v: Vec<usize>| v@), arrive@, hops@, p as int);
            assert(node_table(nodes@).contains_key(sorted@[p as int].id));
        }
        flags.push(!(outs == 1 && ins == 1) && (outs > 0 || ins > 0));
    }
    flags
}

/// The facts about the map's nodes and hops that the contraction works from.
pub open spec fn network_facts(
    nodes: Seq<OsmNode>,
    sorted: Seq<OsmNode>,
    succ: Seq<Seq<usize>>,
    arrive: Seq<usize>,
    flags: Seq<bool>,
    hops: Seq<(i64, i64)>,
) -> bool {
    &&& lists_table(sorted, node_table(nodes))
    &&& hops_known(hops, node_table(nodes))
    &&& degrees_match(sorted, succ, arrive, hops)
    &&& sorted.len() <= usize::MAX
    &&& flags.len() == sorted.len()
    &&& forall|p: int| 0 <= p < sorted.len() ==> #[trigger] flags[p] == kept(nodes, hops, sorted[p].id)
}

/// Follows the route that leaves the node at position `u` by the hop to the node at position `v`:
/// the position where it ends, and the hops it takes.
fn follow_route(
    nodes: Ghost<Seq<OsmNode>>,
    sorted: &Vec<OsmNode>,
    succ: &Vec<Vec<usize>>,
    arrive: Ghost<Seq<usize>>,
    flags: &Vec<bool>,
    hops: Ghost<Seq<(i64, i64)>>,
    fuel: usize,
    u: usize,
    v: usize,
) -> (res: (usize, Vec<(i64, i64)>))
    requires
        network_facts(nodes@, sorted@, succ@.map_values(|r: Vec<usize>| r@), arrive@, flags@, hops@),
        fuel == hops@.len(),
        u < sorted@.len(),
        v < sorted@.len(),
        hops@.contains((sorted@[u as int].id, sorted@[v as int].id)),
    ensures
        res.0 < sorted@.len(),
        sorted@[res.0 as int].id == route_from(nodes@, hops@, sorted@[u as int].id, sorted@[v as int].id).0,
        res.1@ == route_from(nodes@, hops@, sorted@[u as int].id, sorted@[v as int].id).1,
{
    reveal(kept);
    reveal(walk);
    reveal(route_from);
    let ghost ids = sorted@.map_values(|n: OsmNode| n.id);
    let ghost target = route_from(nodes@, hops@, sorted@[u as int].id, sorted@[v as int].id);
    let ghost succ_view = succ@.map_values(|r: Vec<usize>| r@);
    let mut cur = v;
    let mut path: Vec<(i64, i64)> = Vec::new();
    path.push((sorted[u].id, sorted[v].id));
    let mut steps: usize = 0;
    proof {
        let i = choose|i: int| 0 <= i < hops@.len() && hops@[i] == (sorted@[u as int].id, sorted@[v as int].id);
        lemma_arrival(hops@, i);
        assert(path@ =~= seq![(sorted@[u as int].id, sorted@[v as int].id)]);
    }
    loop
        invariant
            network_facts(nodes@, sorted@, succ_view, arrive@, flags@, hops@),
            succ_view == succ@.map_values(|r: Vec<usize>| r@),
            fuel == hops@.len(),
            cur < sorted@.len(),
            steps <= fuel,
            arrivals(hops@, sorted@[cur as int].id) >= 1,
            target.0 == walk(nodes@, hops@, sorted@[cur as int].id, (fuel - steps) as nat).0,
            target.1 == path@ + walk(nodes@, hops@, sorted@[cur as int].id, (fuel - steps) as nat).1,
        ensures
            cur < sorted@.len(),
            target.0 == sorted@[cur as int].id,
            target.1 == path@,
        decreases fuel - steps,
    {
        let ghost f = (fuel - steps) as nat;
        let ghost c = sorted@[cur as int].id;
        proof {
            reveal(kept);
            reveal(walk);
        }
        if steps >= fuel || flags[cur] {
            assert(walk(nodes@, hops@, c, f).1 =~= Seq::<(i64, i64)>::empty());
            assert(path@ + Seq::<(i64, i64)>::empty() =~= path@);
            break;
        }
        proof {
            lemma_successor_set(sorted@, node_table(nodes@), succ_view, arrive@, hops@, cur as int);
            assert(node_table(nodes@).contains_key(c));
            assert(succ_view[cur as int].len() == 1);
        }
        let next = succ[cur][0];
        proof {
            let mapped = succ_view[cur as int].map_values(|q: usize| sorted@[q as int].id);
            assert(mapped[0] == sorted@[next as int].id);
            assert(mapped.to_set() =~= set![sorted@[next as int].id]);
            assert(successors(hops@, c).contains(sorted@[next as int].id));
            assert(next_node(hops@, c) == sorted@[next as int].id);
            assert(next < sorted@.len());
        }
        if next == cur {
            assert(walk(nodes@, hops@, c, f).1 =~= Seq::<(i64, i64)>::empty());
            assert(path@ + Seq::<(i64, i64)>::empty() =~= path@);
            break;
        }
        let ghost n_id = sorted@[next as int].id;
        proof {
            assert(n_id != c) by {
                if next < cur {} else {}
            }
            assert(succ_view[cur as int].contains(next));
            assert(hops@.contains((c, n_id)));
            let i = choose|i: int| 0 <= i < hops@.len() && hops@[i] == (c, n_id);
            lemma_arrival(hops@, i);
            let rest = walk(nodes@, hops@, n_id, (f - 1) as nat);
            assert(walk(nodes@, hops@, c, f) == (rest.0, seq![(c, n_id)] + rest.1));
            assert(path@.push((c, n_id)) + rest.1 =~= path@ + (seq![(c, n_id)] + rest.1));
        }
        path.push((sorted[cur].id, sorted[next].id));
        steps = steps + 1;
        cur = next;
    }
    (cur, path)
}

/// Different positions hold different ids.
proof fn lemma_ids_injective(sorted: Seq<OsmNode>, a: int, b: int)
    requires
        ids_increasing(sorted),
        0 <= a < sorted.len(),
        0 <= b < sorted.len(),
    ensures
        sorted[a].id == sorted[b].id <==> a == b,
{
    if a < b {
        assert(sorted[a].id < sorted[b].id);
    } else if b < a {
        assert(sorted[b].id < sorted[a].id);
    }
}

/// An edge found from a kept node: the position of its end, the position of the node through
/// which its route leaves, and the route's hops.
pub type FoundEdge = (usize, usize, Vec<(i64, i64)>);

/// The found edges from `u` are the routes from `u` through the first `j` entries of its
/// successor list that end at another kept node, one per end, each through the largest first node.
pub open spec fn found_so_far(
    nodes: Seq<OsmNode>,
    sorted: Seq<OsmNode>,
    list: Seq<usize>,
    hops: Seq<(i64, i64)>,
    u: int,
    j: int,
    found: Seq<FoundEdge>,
) -> bool {
    &&& forall|i: int| #![trigger found[i]] 0 <= i < found.len() ==> {
        let (pe, pb, path) = found[i];
        &&& pe < sorted.len()
        &&& pb < sorted.len()
        &&& kept(nodes, hops, sorted[pe as int].id)
        &&& sorted[pe as int].id != sorted[u].id
        &&& list.take(j).contains(pb)
        &&& leads_to(nodes, hops, sorted[u].id, sorted[pb as int].id, sorted[pe as int].id)
        &&& path@ == route_from(nodes, hops, sorted[u].id, sorted[pb as int].id).1
        &&& forall|i2: int| 0 <= i2 < j && #[trigger] leads_to(nodes, hops, sorted[u].id, sorted[list[i2] as int].id, sorted[pe as int].id) ==> list[i2] <= pb
    }
    &&& forall|a: int, b: int| 0 <= a < b < found.len() ==> (#[trigger] found[a]).0 != (#[trigger] found[b]).0
    &&& forall|i2: int| #![trigger list[i2]] 0 <= i2 < j ==> {
        let e = route_from(nodes, hops, sorted[u].id, sorted[list[i2] as int].id).0;
        kept(nodes, hops, e) && e != sorted[u].id ==> exists|i: int| 0 <= i < found.len() && #[trigger] sorted[found[i].0 as int].id == e
    }
}

/// One more entry of the successor list processed: the found edges stay as they were, or the
/// entry of the route's end is replaced by this route, or this route is added.
#[verifier::rlimit(100)]
proof fn lemma_found_step(
    nodes: Seq<OsmNode>,
    sorted: Seq<OsmNode>,
    list: Seq<usize>,
    hops: Seq<(i64, i64)>,
    u: int,
    j: int,
    v: usize,
    pe: usize,
    before: Seq<FoundEdge>,
    found: Seq<FoundEdge>,
    slot: int,
)
    requires
        ids_increasing(sorted),
        0 <= u < sorted.len(),
        0 <= j < list.len(),
        list[j] == v,
        v < sorted.len(),
        pe < sorted.len(),
        successors(hops, sorted[u].id).contains(sorted[v as int].id),
        route_from(nodes, hops, sorted[u].id, sorted[v as int].id).0 == sorted[pe as int].id,
        found_so_far(nodes, sorted, list, hops, u, j, before),
        !(pe != u && kept(nodes, hops, sorted[pe as int].id)) ==> found == before,
        pe != u && kept(nodes, hops, sorted[pe as int].id) ==> {
            &&& 0 <= slot <= before.len()
            &&& forall|i: int| 0 <= i < slot ==> (#[trigger] before[i]).0 != pe
            &&& slot < before.len() ==> before[slot].0 == pe
            &&& slot < before.len() && v <= before[slot].1 ==> found == before
            &&& slot < before.len() && v > before[slot].1 ==> found.len() == before.len() && found[slot].0 == pe
                && found[slot].1 == v && found[slot].2@ == route_from(nodes, hops, sorted[u].id, sorted[v as int].id).1
                && forall|i: int| 0 <= i < before.len() && i != slot ==> #[trigger] found[i] == before[i]
            &&& slot == before.len() ==> found.len() == before.len() + 1 && found[slot].0 == pe && found[slot].1 == v
                && found[slot].2@ == route_from(nodes, hops, sorted[u].id, sorted[v as int].id).1
                && forall|i: int| 0 <= i < before.len() ==> #[trigger] found[i] == before[i]
        },
    ensures
        found_so_far(nodes, sorted, list, hops, u, j + 1, found),
{
    let uid = sorted[u].id;
    let eid = sorted[pe as int].id;
    let take_next = list.take(j + 1);
    assert forall|x: usize| list.take(j).contains(x) implies take_next.contains(x) by {
        let k = choose|k: int| 0 <= k < j && list.take(j)[k] == x;
        assert(take_next[k] == x);
    }
    assert(take_next[j] == v);
    assert(take_next.contains(v));
    let kept_end = pe != u && kept(nodes, hops, eid);
    lemma_ids_injective(sorted, pe as int, u as int);
    assert(leads_to(nodes, hops, uid, sorted[v as int].id, eid));
    assert forall|i: int| #![trigger found[i]] 0 <= i < found.len() implies {
        let (pe2, pb2, path2) = found[i];
        &&& pe2 < sorted.len()
        &&& pb2 < sorted.len()
        &&& kept(nodes, hops, sorted[pe2 as int].id)
        &&& sorted[pe2 as int].id != sorted[u].id
        &&& list.take(j + 1).contains(pb2)
        &&& leads_to(nodes, hops, sorted[u].id, sorted[pb2 as int].id, sorted[pe2 as int].id)
        &&& path2@ == route_from(nodes, hops, sorted[u].id, sorted[pb2 as int].id).1
        &&& forall|i2: int| 0 <= i2 < j + 1 && #[trigger] leads_to(nodes, hops, sorted[u].id, sorted[list[i2] as int].id, sorted[pe2 as int].id) ==> list[i2] <= pb2
    } by {
        let (pe2, pb2, path2) = found[i];
        if i < before.len() && found[i] == before[i] {
            assert(before[i] == found[i]);
            assert(list.take(j).contains(pb2));
            assert forall|i2: int| 0 <= i2 < j + 1 && #[trigger] leads_to(nodes, hops, sorted[u].id, sorted[list[i2] as int].id, sorted[pe2 as int].id) implies list[i2] <= pb2 by {
                if i2 == j {
                    lemma_ids_injective(sorted, pe as int, pe2 as int);
                    assert(pe2 == pe);
                    assert(kept_end);
                    if slot < i {
                        assert(before[slot].0 == pe);
                    } else if i < slot {
                        assert(before[i].0 != pe);
                    }
                }
            }
        } else {
            assert(kept_end);
            assert(pe2 == pe && pb2 == v);
            assert forall|i2: int| 0 <= i2 < j + 1 && #[trigger] leads_to(nodes, hops, sorted[u].id, sorted[list[i2] as int].id, sorted[pe2 as int].id) implies list[i2] <= pb2 by {
                if i2 < j {
                    if slot < before.len() {
                        let e1 = before[slot];
                        assert(before[slot].0 == pe);
                        assert(leads_to(nodes, hops, uid, sorted[list[i2] as int].id, sorted[e1.0 as int].id));
                        assert(list[i2] <= e1.1);
                    } else {
                        assert(list[i2] == list[i2]);
                        let e2 = route_from(nodes, hops, uid, sorted[list[i2] as int].id).0;
                        assert(e2 == eid);
                        let i3 = choose|i3: int| 0 <= i3 < before.len() && #[trigger] sorted[before[i3].0 as int].id == e2;
                        lemma_ids_injective(sorted, pe as int, before[i3].0 as int);
                        assert(before[i3].0 != pe);
                    }
                }
            }
        }
    }
    assert forall|a: int, b: int| 0 <= a < b < found.len() implies (#[trigger] found[a]).0 != (#[trigger] found[b]).0 by {
        if kept_end && slot == before.len() && b == before.len() {
            assert(found[a] == before[a]);
        } else if kept_end && slot < before.len() && v > before[slot].1 {
            if a == slot {
                assert(found[b] == before[b]);
                assert(before[b].0 != before[a].0);
            } else if b == slot {
                assert(found[a] == before[a]);
                assert(before[b].0 != before[a].0);
            } else {
                assert(found[a] == before[a] && found[b] == before[b]);
            }
        } else {
            assert(found[a] == before[a] && found[b] == before[b]);
        }
    }
    assert forall|i2: int| #![trigger list[i2]] 0 <= i2 < j + 1 implies {
        let e = route_from(nodes, hops, sorted[u].id, sorted[list[i2] as int].id).0;
        kept(nodes, hops, e) && e != sorted[u].id ==> exists|i: int| 0 <= i < found.len() && #[trigger] sorted[found[i].0 as int].id == e
    } by {
        let e = route_from(nodes, hops, uid, sorted[list[i2] as int].id).0;
        if kept(nodes, hops, e) && e != uid {
            if i2 == j {
                assert(e == eid);
                assert(kept_end);
                if slot < before.len() && v <= before[slot].1 {
                    assert(found[slot] == before[slot]);
                }
                assert(found[slot].0 == pe);
            } else {
                let i = choose|i: int| 0 <= i < before.len() && #[trigger] sorted[before[i].0 as int].id == e;
                if kept_end && slot < before.len() && v > before[slot].1 && i == slot {
                    assert(found[i].0 == pe);
                    assert(before[slot].0 == pe);
                } else {
                    assert(found[i] == before[i]);
                }
            }
        }
    }
}

/// The contracted edges that leave the kept node at position `u`.
fn node_edges(
    nodes: Ghost<Seq<OsmNode>>,
    sorted: &Vec<OsmNode>,
    succ: &Vec<Vec<usize>>,
    arrive: Ghost<Seq<usize>>,
    flags: &Vec<bool>,
    hops: Ghost<Seq<(i64, i64)>>,
    fuel: usize,
    u: usize,
) -> (found: Vec<FoundEdge>)
    requires
        network_facts(nodes@, sorted@, succ@.map_values(|r: Vec<usize>| r@), arrive@, flags@, hops@),
        fuel == hops@.len(),
        u < sorted@.len(),
        flags@[u as int],
    ensures
        found_so_far(nodes@, sorted@, succ@[u as int]@, hops@, u as int, succ@[u as int]@.len() as int, found@),
{
    let ghost succ_view = succ@.map_values(|r: Vec<usize>| r@);
    let ghost list = succ_view[u as int];
    let ghost uid = sorted@[u as int].id;
    let mut found: Vec<FoundEdge> = Vec::new();
    let len = succ[u].len();
    assert(list == succ@[u as int]@);
    for j in 0..len
        invariant
            network_facts(nodes@, sorted@, succ_view, arrive@, flags@, hops@),
            succ_view == succ@.map_values(|r: Vec<usize>| r@),
            list == succ_view[u as int],
            list == succ@[u as int]@,
            len == list.len(),
            fuel == hops@.len(),
            u < sorted@.len(),
            uid == sorted@[u as int].id,
            found_so_far(nodes@, sorted@, list, hops@, u as int, j as int, found@),
    {
        let v = succ[u][j];
        proof {
            assert(list[j as int] == v);
            assert(list.contains(v));
            assert(v < sorted@.len());
            assert(succ_view[u as int].contains((v as int) as usize));
            assert(hops@.contains((sorted@[u as int].id, sorted@[v as int].id)));
            assert(list.take(j as int + 1)[j as int] == v);
        }
        let (pe, path) = follow_route(nodes, sorted, succ, arrive, flags, hops, fuel, u, v);
        let ghost eid = sorted@[pe as int].id;
        proof {
            assert(successors(hops@, uid).contains(sorted@[v as int].id));
            assert(leads_to(nodes@, hops@, uid, sorted@[v as int].id, eid));
        }
        let ghost before = found@;
        let ghost mut slot: int = found@.len() as int;
        if pe != u && flags[pe] {
            let mut idx: usize = 0;
            let count = found.len();
            while idx < count && found[idx].0 != pe
                invariant
                    idx <= count,
                    count == found@.len(),
                    forall|i: int| 0 <= i < idx ==> (#[trigger] found@[i]).0 != pe,
                decreases count - idx,
            {
                idx = idx + 1;
            }
            proof {
                slot = idx as int;
            }
            if idx < count {
                let best = found[idx].1;
                if v > best {
                    found.set(idx, (pe, v, path));
                }
            } else {
                found.push((pe, v, path));
            }
        }
        proof {
            lemma_found_step(nodes@, sorted@, list, hops@, u as int, j as int, v, pe, before, found@, slot);
        }
    }
    proof {
        assert(list.take(len as int) =~= list);
    }
    found
}

/// The found edge is a contracted edge from the node at position `u`, with the hops it replaces.
pub open spec fn entry_exact(nodes: Seq<OsmNode>, sorted: Seq<OsmNode>, hops: Seq<(i64, i64)>, u: int, entry: FoundEdge) -> bool {
    &&& entry.0 < sorted.len()
    &&& contracted_edge(nodes, hops, sorted[u].id, sorted[entry.0 as int].id)
    &&& entry.2@ == contracted_hops(nodes, hops, sorted[u].id, sorted[entry.0 as int].id)
}

/// The edges found from the node at position `u` are exactly the contracted edges that leave it,
/// one per end, each with the hops it replaces.
pub open spec fn node_edges_exact(
    nodes: Seq<OsmNode>,
    sorted: Seq<OsmNode>,
    hops: Seq<(i64, i64)>,
    u: int,
    found: Seq<FoundEdge>,
) -> bool {
    &&& forall|i: int| 0 <= i < found.len() ==> entry_exact(nodes, sorted, hops, u, #[trigger] found[i])
    &&& forall|a: int, b: int| 0 <= a < b < found.len() ==> (#[trigger] found[a]).0 != (#[trigger] found[b]).0
    &&& forall|e: i64| #[trigger] contracted_edge(nodes, hops, sorted[u].id, e) ==> exists|i: int|
        0 <= i < found.len() && #[trigger] sorted[found[i].0 as int].id == e
}

/// Of the nodes through which routes from `u` to the end of a found edge leave `u`, the edge's
/// first node is the largest, once the whole successor list is processed.
#[verifier::rlimit(100)]
proof fn lemma_best_first(
    nodes: Seq<OsmNode>,
    sorted: Seq<OsmNode>,
    succ: Seq<Seq<usize>>,
    arrive: Seq<usize>,
    flags: Seq<bool>,
    hops: Seq<(i64, i64)>,
    u: int,
    found: Seq<FoundEdge>,
    i: int,
)
    requires
        network_facts(nodes, sorted, succ, arrive, flags, hops),
        0 <= u < sorted.len(),
        found_so_far(nodes, sorted, succ[u], hops, u, succ[u].len() as int, found),
        0 <= i < found.len(),
    ensures
        found[i].0 < sorted.len(),
        found[i].1 < sorted.len(),
        kept(nodes, hops, sorted[found[i].0 as int].id),
        sorted[found[i].0 as int].id != sorted[u].id,
        leads_to(nodes, hops, sorted[u].id, sorted[found[i].1 as int].id, sorted[found[i].0 as int].id),
        found[i].2@ == route_from(nodes, hops, sorted[u].id, sorted[found[i].1 as int].id).1,
        forall|w: i64| #[trigger] leads_to(nodes, hops, sorted[u].id, w, sorted[found[i].0 as int].id) ==> w <= sorted[found[i].1 as int].id,
{
    let uid = sorted[u].id;
    let list = succ[u];
    let (pe, pb, path) = found[i];
    let eid = sorted[pe as int].id;
    lemma_successor_set(sorted, node_table(nodes), succ, arrive, hops, u);
    assert(list.take(list.len() as int) =~= list);
    assert forall|w: i64| #[trigger] leads_to(nodes, hops, uid, w, eid) implies w <= sorted[pb as int].id by {
        let mapped = list.map_values(|q: usize| sorted[q as int].id);
        assert(mapped.to_set().contains(w));
        let i2 = choose|i2: int| 0 <= i2 < mapped.len() && mapped[i2] == w;
        assert(sorted[list[i2] as int].id == w);
        assert(leads_to(nodes, hops, uid, sorted[list[i2] as int].id, eid));
        assert(list[i2] <= pb);
        if list[i2] < pb {
            assert(sorted[list[i2] as int].id < sorted[pb as int].id);
        }
    }
}

/// The largest node through which routes from `u` to `e` leave `u` is the one `first_hop_of` names.
proof fn lemma_first_hop_is(nodes: Seq<OsmNode>, hops: Seq<(i64, i64)>, u: i64, e: i64, best: i64)
    requires
        leads_to(nodes, hops, u, best, e),
        forall|w: i64| #[trigger] leads_to(nodes, hops, u, w, e) ==> w <= best,
    ensures
        first_hop_of(nodes, hops, u, e) == best,
{
    reveal(first_hop_of);
    let chosen = first_hop_of(nodes, hops, u, e);
    assert(leads_to(nodes, hops, u, chosen, e) && forall|w: i64| #[trigger] leads_to(nodes, hops, u, w, e) ==> w <= chosen);
}

/// A found edge, once the whole successor list is processed, is a contracted edge through the
/// largest first node, with the hops it replaces.
proof fn lemma_entry_exact(
    nodes: Seq<OsmNode>,
    sorted: Seq<OsmNode>,
    succ: Seq<Seq<usize>>,
    arrive: Seq<usize>,
    flags: Seq<bool>,
    hops: Seq<(i64, i64)>,
    u: int,
    found: Seq<FoundEdge>,
    i: int,
)
    requires
        network_facts(nodes, sorted, succ, arrive, flags, hops),
        0 <= u < sorted.len(),
        flags[u],
        found_so_far(nodes, sorted, succ[u], hops, u, succ[u].len() as int, found),
        0 <= i < found.len(),
    ensures
        entry_exact(nodes, sorted, hops, u, found[i]),
{
    lemma_best_first(nodes, sorted, succ, arrive, flags, hops, u, found, i);
    let uid = sorted[u].id;
    let eid = sorted[found[i].0 as int].id;
    let best = sorted[found[i].1 as int].id;
    lemma_first_hop_is(nodes, hops, uid, eid, best);
    reveal(contracted_edge);
    reveal(contracted_hops);
    assert(kept(nodes, hops, uid));
    assert(contracted_edge(nodes, hops, uid, eid));
}

/// Once the whole successor list is processed, the found edges are exactly the contracted edges.
#[verifier::rlimit(100)]
proof fn lemma_node_edges_exact(
    nodes: Seq<OsmNode>,
    sorted: Seq<OsmNode>,
    succ: Seq<Seq<usize>>,
    arrive: Seq<usize>,
    flags: Seq<bool>,
    hops: Seq<(i64, i64)>,
    u: int,
    found: Seq<FoundEdge>,
)
    requires
        network_facts(nodes, sorted, succ, arrive, flags, hops),
        0 <= u < sorted.len(),
        flags[u],
        found_so_far(nodes, sorted, succ[u], hops, u, succ[u].len() as int, found),
    ensures
        node_edges_exact(nodes, sorted, hops, u, found),
{
    reveal(contracted_edge);
    let uid = sorted[u].id;
    let list = succ[u];
    lemma_successor_set(sorted, node_table(nodes), succ, arrive, hops, u);
    assert(list.take(list.len() as int) =~= list);
    // Every node through which a route leaves `u` is an entry of its successor list.
    assert forall|w: i64| successors(hops, uid).contains(w) implies exists|i2: int|
        0 <= i2 < list.len() && #[trigger] sorted[list[i2] as int].id == w by {
        let mapped = list.map_values(|q: usize| sorted[q as int].id);
        assert(mapped.to_set().contains(w));
        let i2 = choose|i2: int| 0 <= i2 < mapped.len() && mapped[i2] == w;
        assert(sorted[list[i2] as int].id == w);
    }
    assert forall|i: int| 0 <= i < found.len() implies entry_exact(nodes, sorted, hops, u, #[trigger] found[i]) by {
        lemma_entry_exact(nodes, sorted, succ, arrive, flags, hops, u, found, i);
    }
    assert forall|e: i64| #[trigger] contracted_edge(nodes, hops, uid, e) implies exists|i: int|
        0 <= i < found.len() && #[trigger] sorted[found[i].0 as int].id == e by {
        let w = choose|w: i64| leads_to(nodes, hops, uid, w, e);
        let i2 = choose|i2: int| 0 <= i2 < list.len() && #[trigger] sorted[list[i2] as int].id == w;
        assert(list[i2] == list[i2]);
    }
}

/// An edge of the contracted network. A reversed edge runs against a contracted edge whose own
/// reverse is not one, and replaces the hops of that edge.
#[derive(Clone, Debug)]
pub struct ContractedEdge {
    pub from: i64,
    pub to: i64,
    pub hops: Vec<(i64, i64)>,
    pub reversed: bool,
}

/// The road network after contraction: its nodes and its edges.
#[derive(Clone, Debug)]
pub struct ContractedNetwork {
    pub nodes: Vec<OsmNode>,
    pub edges: Vec<ContractedEdge>,
}

/// The edge is a contracted edge with the hops it replaces, or the reverse of a contracted edge
/// whose own reverse is none, with the hops of that edge.
pub open spec fn edge_exact(nodes: Seq<OsmNode>, hops: Seq<(i64, i64)>, ed: ContractedEdge) -> bool {
    if !ed.reversed {
        &&& contracted_edge(nodes, hops, ed.from, ed.to)
        &&& ed.hops@ == contracted_hops(nodes, hops, ed.from, ed.to)
    } else {
        &&& contracted_edge(nodes, hops, ed.to, ed.from)
        &&& !contracted_edge(nodes, hops, ed.from, ed.to)
        &&& ed.hops@ == contracted_hops(nodes, hops, ed.to, ed.from)
    }
}

/// The network is the contraction of the map: its nodes are the kept nodes in increasing order of
/// their ids; its edges are every contracted edge, and the reverse of every contracted edge whose
/// reverse is none, each with the hops it replaces.
pub open spec fn is_contraction(nodes: Seq<OsmNode>, ways: Seq<OsmWay>, net: ContractedNetwork) -> bool {
    let hops = hops_of(way_lists(ways));
    &&& ids_increasing(net.nodes@)
    &&& forall|j: int| 0 <= j < net.nodes@.len() ==> kept(nodes, hops, #[trigger] net.nodes@[j].id)
        && node_table(nodes)[net.nodes@[j].id] == net.nodes@[j]
    &&& forall|id: i64| #[trigger] kept(nodes, hops, id) ==> exists|j: int| 0 <= j < net.nodes@.len() && #[trigger] net.nodes@[j].id == id
    &&& forall|k: int| 0 <= k < net.edges@.len() ==> edge_exact(nodes, hops, #[trigger] net.edges@[k])
    &&& forall|a: i64, b: i64| #[trigger] contracted_edge(nodes, hops, a, b) ==> exists|k: int|
        0 <= k < net.edges@.len() && !(#[trigger] net.edges@[k]).reversed && net.edges@[k].from == a && net.edges@[k].to == b
    &&& forall|a: i64, b: i64| contracted_edge(nodes, hops, a, b) && !contracted_edge(nodes, hops, b, a) ==> exists|k: int|
        0 <= k < net.edges@.len() && (#[trigger] net.edges@[k]).reversed && net.edges@[k].from == b && net.edges@[k].to == a
}

/// A copy of a list of hops.
fn copy_hops(hops: &Vec<(i64, i64)>) -> (copy: Vec<(i64, i64)>)
    ensures
        copy@ == hops@,
{
    let mut copy: Vec<(i64, i64)> = Vec::new();
    for k in 0..hops.len()
        invariant
            copy@ == hops@.take(k as int),
    {
        copy.push(hops[k]);
        assert(copy@ =~= hops@.take(k as int + 1));
    }
    assert(hops@.take(hops@.len() as int) =~= hops@);
    copy
}

/// The per-node edges, gathered into the network, make it the contraction of the map.
#[verifier::rlimit(100)]
proof fn lemma_network_complete(
    nodes: Seq<OsmNode>,
    ways: Seq<OsmWay>,
    sorted: Seq<OsmNode>,
    succ: Seq<Seq<usize>>,
    arrive: Seq<usize>,
    flags: Seq<bool>,
    pn: Seq<Seq<FoundEdge>>,
    net: ContractedNetwork,
)
    requires
        network_facts(nodes, sorted, succ, arrive, flags, hops_of(way_lists(ways))),
        pn.len() == sorted.len(),
        forall|u2: int| 0 <= u2 < sorted.len() ==> node_edges_exact(nodes, sorted, hops_of(way_lists(ways)), u2, #[trigger] pn[u2]),
        ids_increasing(net.nodes@),
        forall|j: int| 0 <= j < net.nodes@.len() ==> kept(nodes, hops_of(way_lists(ways)), #[trigger] net.nodes@[j].id)
            && node_table(nodes)[net.nodes@[j].id] == net.nodes@[j],
        forall|u2: int| 0 <= u2 < sorted.len() && #[trigger] flags[u2] ==> exists|j: int| 0 <= j < net.nodes@.len() && #[trigger] net.nodes@[j].id == sorted[u2].id,
        forall|k: int| 0 <= k < net.edges@.len() ==> edge_exact(nodes, hops_of(way_lists(ways)), #[trigger] net.edges@[k]),
        forall|u2: int, i: int| 0 <= u2 < sorted.len() && 0 <= i < pn[u2].len() ==> has_forward(net.edges@, sorted[u2].id, sorted[#[trigger] pn[u2][i].0 as int].id),
        forall|u2: int, i: int| 0 <= u2 < sorted.len() && 0 <= i < pn[u2].len()
            && !contracted_edge(nodes, hops_of(way_lists(ways)), sorted[#[trigger] pn[u2][i].0 as int].id, sorted[u2].id)
            ==> has_reverse(net.edges@, sorted[pn[u2][i].0 as int].id, sorted[u2].id),
    ensures
        is_contraction(nodes, ways, net),
{
    reveal(contracted_edge);
    reveal(kept);
    let hops = hops_of(way_lists(ways));
    assert forall|id: i64| #[trigger] kept(nodes, hops, id) implies exists|j: int| 0 <= j < net.nodes@.len() && #[trigger] net.nodes@[j].id == id by {
        let u2 = choose|u2: int| 0 <= u2 < sorted.len() && #[trigger] sorted[u2].id == id;
        assert(flags[u2]);
    }
    assert forall|a: i64, b: i64| #[trigger] contracted_edge(nodes, hops, a, b) implies exists|k: int|
        0 <= k < net.edges@.len() && !(#[trigger] net.edges@[k]).reversed && net.edges@[k].from == a && net.edges@[k].to == b by {
        let u2 = choose|u2: int| 0 <= u2 < sorted.len() && #[trigger] sorted[u2].id == a;
        assert(node_edges_exact(nodes, sorted, hops, u2, pn[u2]));
        let i = choose|i: int| 0 <= i < pn[u2].len() && #[trigger] sorted[pn[u2][i].0 as int].id == b;
        assert(has_forward(net.edges@, sorted[u2].id, sorted[pn[u2][i].0 as int].id));
    }
    assert forall|a: i64, b: i64| contracted_edge(nodes, hops, a, b) && !contracted_edge(nodes, hops, b, a) implies exists|k: int|
        0 <= k < net.edges@.len() && (#[trigger] net.edges@[k]).reversed && net.edges@[k].from == b && net.edges@[k].to == a by {
        let u2 = choose|u2: int| 0 <= u2 < sorted.len() && #[trigger] sorted[u2].id == a;
        assert(node_edges_exact(nodes, sorted, hops, u2, pn[u2]));
        let i = choose|i: int| 0 <= i < pn[u2].len() && #[trigger] sorted[pn[u2][i].0 as int].id == b;
        assert(has_reverse(net.edges@, sorted[pn[u2][i].0 as int].id, sorted[u2].id));
    }
}

/// The number of hops of all ways.
fn hop_count(ways: &[OsmWay]) -> (count: usize)
    requires
        hops_of(way_lists(ways@)).len() < usize::MAX,
    ensures
        count == hops_of(way_lists(ways@)).len(),
{
    let ghost all = way_lists(ways@);
    let mut count: usize = 0;
    proof {
        assert(all.take(0) =~= Seq::<Seq<i64>>::empty());
    }
    for w in 0..ways.len()
        invariant
            all == way_lists(ways@),
            hops_of(all).len() < usize::MAX,
            count == hops_of(all.take(w as int)).len(),
    {
        proof {
            lemma_hops_take(all, w as int);
            lemma_hops_take_len(all, w as int + 1);
            assert(all[w as int] == ways@[w as int].nodes@);
        }
        let len = ways[w].nodes.len();
        if len > 0 {
            count = count + (len - 1);
        }
    }
    proof {
        assert(all.take(ways@.len() as int) =~= all);
    }
    count
}

/// The contracted edges of every node, by position.
fn gather_edges(
    nodes: Ghost<Seq<OsmNode>>,
    sorted: &Vec<OsmNode>,
    succ: &Vec<Vec<usize>>,
    arrive: Ghost<Seq<usize>>,
    flags: &Vec<bool>,
    hops: Ghost<Seq<(i64, i64)>>,
    fuel: usize,
) -> (per_node: Vec<Vec<FoundEdge>>)
    requires
        network_facts(nodes@, sorted@, succ@.map_values(|r: Vec<usize>| r@), arrive@, flags@, hops@),
        fuel == hops@.len(),
    ensures
        per_node@.len() == sorted@.len(),
        forall|u2: int| 0 <= u2 < sorted@.len() ==> node_edges_exact(nodes@, sorted@, hops@, u2, #[trigger] per_node@[u2]@),
{
    let n = sorted.len();
    let ghost succ_view = succ@.map_values(|r: Vec<usize>| r@);
    let mut per_node: Vec<Vec<FoundEdge>> = Vec::new();
    for u in 0..n
        invariant
            network_facts(nodes@, sorted@, succ_view, arrive@, flags@, hops@),
            succ_view == succ@.map_values(|r: Vec<usize>| r@),
            n == sorted@.len(),
            fuel == hops@.len(),
            per_node@.len() == u,
            forall|u2: int| 0 <= u2 < u ==> node_edges_exact(nodes@, sorted@, hops@, u2, #[trigger] per_node@[u2]@),
    {
        if flags[u] {
            let found = node_edges(nodes, sorted, succ, arrive, flags, hops, fuel, u);
            proof {
                lemma_node_edges_exact(nodes@, sorted@, succ_view, arrive@, flags@, hops@, u as int, found@);
            }
            per_node.push(found);
        } else {
            per_node.push(Vec::new());
            proof {
                reveal(contracted_edge);
                assert(node_edges_exact(nodes@, sorted@, hops@, u as int, Seq::<FoundEdge>::empty()));
            }
        }
    }
    per_node
}

/// The kept nodes, in increasing order of their ids.
fn kept_node_list(nodes: Ghost<Seq<OsmNode>>, sorted: &Vec<OsmNode>, flags: &Vec<bool>, hops: Ghost<Seq<(i64, i64)>>) -> (kept_nodes: Vec<OsmNode>)
    requires
        lists_table(sorted@, node_table(nodes@)),
        flags@.len() == sorted@.len(),
        forall|p: int| 0 <= p < sorted@.len() ==> #[trigger] flags@[p] == kept(nodes@, hops@, sorted@[p].id),
    ensures
        ids_increasing(kept_nodes@),
        forall|j: int| 0 <= j < kept_nodes@.len() ==> kept(nodes@, hops@, #[trigger] kept_nodes@[j].id)
            && node_table(nodes@)[kept_nodes@[j].id] == kept_nodes@[j],
        forall|u2: int| 0 <= u2 < sorted@.len() && #[trigger] flags@[u2] ==> exists|j: int| 0 <= j < kept_nodes@.len() && #[trigger] kept_nodes@[j].id == sorted@[u2].id,
{
    let n = sorted.len();
    let mut kept_nodes: Vec<OsmNode> = Vec::new();
    for u in 0..n
        invariant
            lists_table(sorted@, node_table(nodes@)),
            flags@.len() == n,
            n == sorted@.len(),
            forall|p: int| 0 <= p < sorted@.len() ==> #[trigger] flags@[p] == kept(nodes@, hops@, sorted@[p].id),
            ids_increasing(kept_nodes@),
            forall|j: int, u2: int| 0 <= j < kept_nodes@.len() && u <= u2 < n ==> #[trigger] kept_nodes@[j].id < #[trigger] sorted@[u2].id,
            forall|j: int| 0 <= j < kept_nodes@.len() ==> kept(nodes@, hops@, #[trigger] kept_nodes@[j].id)
                && node_table(nodes@)[kept_nodes@[j].id] == kept_nodes@[j],
            forall|u2: int| 0 <= u2 < u && #[trigger] flags@[u2] ==> exists|j: int| 0 <= j < kept_nodes@.len() && #[trigger] kept_nodes@[j].id == sorted@[u2].id,
    {
        if flags[u] {
            let ghost before = kept_nodes@;
            kept_nodes.push(sorted[u]);
            proof {
                assert forall|a: int, b: int| 0 <= a < b < kept_nodes@.len() implies #[trigger] kept_nodes@[a].id < #[trigger] kept_nodes@[b].id by {
                    if b == before.len() {
                        assert(before[a].id < sorted@[u as int].id);
                    } else {
                        assert(kept_nodes@[a] == before[a] && kept_nodes@[b] == before[b]);
                    }
                }
                assert forall|j: int, u2: int| 0 <= j < kept_nodes@.len() && u + 1 <= u2 < n implies #[trigger] kept_nodes@[j].id < #[trigger] sorted@[u2].id by {
                    if j < before.len() {
                        assert(kept_nodes@[j] == before[j]);
                    } else {
                        assert(sorted@[u as int].id < sorted@[u2].id);
                    }
                }
                assert forall|u2: int| 0 <= u2 < u + 1 && #[trigger] flags@[u2] implies exists|j: int| 0 <= j < kept_nodes@.len() && #[trigger] kept_nodes@[j].id == sorted@[u2].id by {
                    if u2 == u {
                        assert(kept_nodes@[before.len() as int].id == sorted@[u2].id);
                    } else {
                        let j = choose|j: int| 0 <= j < before.len() && #[trigger] before[j].id == sorted@[u2].id;
                        assert(kept_nodes@[j] == before[j]);
                    }
                }
            }
        }
    }
    kept_nodes
}

/// The edges hold the contracted edge from `a` to `b`.
pub open spec fn has_forward(edges: Seq<ContractedEdge>, a: i64, b: i64) -> bool {
    exists|k: int| 0 <= k < edges.len() && !(#[trigger] edges[k]).reversed && edges[k].from == a && edges[k].to == b
}

/// The edges hold the reverse edge from `a` to `b`.
pub open spec fn has_reverse(edges: Seq<ContractedEdge>, a: i64, b: i64) -> bool {
    exists|k: int| 0 <= k < edges.len() && (#[trigger] edges[k]).reversed && edges[k].from == a && edges[k].to == b
}

/// Appending an edge keeps every edge that was held, and holds the appended one.
proof fn lemma_push_edge(edges: Seq<ContractedEdge>, x: ContractedEdge)
    ensures
        forall|a: i64, b: i64| #[trigger] has_forward(edges, a, b) ==> has_forward(edges.push(x), a, b),
        forall|a: i64, b: i64| #[trigger] has_reverse(edges, a, b) ==> has_reverse(edges.push(x), a, b),
        !x.reversed ==> has_forward(edges.push(x), x.from, x.to),
        x.reversed ==> has_reverse(edges.push(x), x.from, x.to),
{
    let t = edges.push(x);
    assert forall|a: i64, b: i64| #[trigger] has_forward(edges, a, b) implies has_forward(t, a, b) by {
        let k = choose|k: int| 0 <= k < edges.len() && !(#[trigger] edges[k]).reversed && edges[k].from == a && edges[k].to == b;
        assert(t[k] == edges[k]);
    }
    assert forall|a: i64, b: i64| #[trigger] has_reverse(edges, a, b) implies has_reverse(t, a, b) by {
        let k = choose|k: int| 0 <= k < edges.len() && (#[trigger] edges[k]).reversed && edges[k].from == a && edges[k].to == b;
        assert(t[k] == edges[k]);
    }
    assert(t[edges.len() as int] == x);
}

/// The contracted edges, gathered from the edges of every node.
#[verifier::rlimit(100)]
fn forward_edges(
    nodes: Ghost<Seq<OsmNode>>,
    sorted: &Vec<OsmNode>,
    per_node: &Vec<Vec<FoundEdge>>,
    hops: Ghost<Seq<(i64, i64)>>,
) -> (edges: Vec<ContractedEdge>)
    requires
        per_node@.len() == sorted@.len(),
        forall|u2: int, i: int| 0 <= u2 < sorted@.len() && 0 <= i < per_node@[u2]@.len() ==> entry_exact(nodes@, sorted@, hops@, u2, #[trigger] per_node@[u2]@[i]),
    ensures
        forall|k: int| 0 <= k < edges@.len() ==> edge_exact(nodes@, hops@, #[trigger] edges@[k]),
        forall|u2: int, i: int| 0 <= u2 < sorted@.len() && 0 <= i < per_node@[u2]@.len() ==> has_forward(edges@, sorted@[u2].id, sorted@[#[trigger] per_node@[u2]@[i].0 as int].id),
{
    let n = sorted.len();
    let mut edges: Vec<ContractedEdge> = Vec::new();
    for u in 0..n
        invariant
            n == sorted@.len(),
            per_node@.len() == n,
            forall|u2: int, i: int| 0 <= u2 < n && 0 <= i < per_node@[u2]@.len() ==> entry_exact(nodes@, sorted@, hops@, u2, #[trigger] per_node@[u2]@[i]),
            forall|k: int| 0 <= k < edges@.len() ==> edge_exact(nodes@, hops@, #[trigger] edges@[k]),
            forall|u2: int, i: int| 0 <= u2 < u && 0 <= i < per_node@[u2]@.len() ==> has_forward(edges@, sorted@[u2].id, sorted@[#[trigger] per_node@[u2]@[i].0 as int].id),
    {
        let count = per_node[u].len();
        for i in 0..count
            invariant
                n == sorted@.len(),
                u < n,
                per_node@.len() == n,
                count == per_node@[u as int]@.len(),
                forall|u2: int, i2: int| 0 <= u2 < n && 0 <= i2 < per_node@[u2]@.len() ==> entry_exact(nodes@, sorted@, hops@, u2, #[trigger] per_node@[u2]@[i2]),
                forall|k: int| 0 <= k < edges@.len() ==> edge_exact(nodes@, hops@, #[trigger] edges@[k]),
                forall|u2: int, i2: int| (0 <= u2 < u && 0 <= i2 < per_node@[u2]@.len()) || (u2 == u && 0 <= i2 < i) ==> has_forward(edges@, sorted@[u2].id, sorted@[#[trigger] per_node@[u2]@[i2].0 as int].id),
        {
            let entry = &per_node[u][i];
            proof {
                assert(entry_exact(nodes@, sorted@, hops@, u as int, per_node@[u as int]@[i as int]));
            }
            let hops_copy = copy_hops(&entry.2);
            let edge = ContractedEdge { from: sorted[u].id, to: sorted[entry.0].id, hops: hops_copy, reversed: false };
            let ghost before = edges@;
            edges.push(edge);
            proof {
                lemma_push_edge(before, edge);
                assert(edges@ == before.push(edge));
            }
        }
    }
    edges
}

/// Adds the reverse of every contracted edge whose own reverse is none.
#[verifier::rlimit(100)]
fn add_reverse_edges(
    nodes: Ghost<Seq<OsmNode>>,
    sorted: &Vec<OsmNode>,
    per_node: &Vec<Vec<FoundEdge>>,
    hops: Ghost<Seq<(i64, i64)>>,
    edges: &mut Vec<ContractedEdge>,
)
    requires
        ids_increasing(sorted@),
        per_node@.len() == sorted@.len(),
        forall|u2: int| 0 <= u2 < sorted@.len() ==> node_edges_exact(nodes@, sorted@, hops@, u2, #[trigger] per_node@[u2]@),
        forall|k: int| 0 <= k < old(edges)@.len() ==> edge_exact(nodes@, hops@, #[trigger] old(edges)@[k]),
        forall|u2: int, i: int| 0 <= u2 < sorted@.len() && 0 <= i < per_node@[u2]@.len() ==> has_forward(old(edges)@, sorted@[u2].id, sorted@[#[trigger] per_node@[u2]@[i].0 as int].id),
    ensures
        forall|k: int| 0 <= k < final(edges)@.len() ==> edge_exact(nodes@, hops@, #[trigger] final(edges)@[k]),
        forall|u2: int, i: int| 0 <= u2 < sorted@.len() && 0 <= i < per_node@[u2]@.len() ==> has_forward(final(edges)@, sorted@[u2].id, sorted@[#[trigger] per_node@[u2]@[i].0 as int].id),
        forall|u2: int, i: int| 0 <= u2 < sorted@.len() && 0 <= i < per_node@[u2]@.len()
            && !contracted_edge(nodes@, hops@, sorted@[#[trigger] per_node@[u2]@[i].0 as int].id, sorted@[u2].id)
            ==> has_reverse(final(edges)@, sorted@[per_node@[u2]@[i].0 as int].id, sorted@[u2].id),
{
    let n = sorted.len();
    for u in 0..n
        invariant
            ids_increasing(sorted@),
            n == sorted@.len(),
            per_node@.len() == n,
            forall|u2: int| 0 <= u2 < n ==> node_edges_exact(nodes@, sorted@, hops@, u2, #[trigger] per_node@[u2]@),
            forall|k: int| 0 <= k < edges@.len() ==> edge_exact(nodes@, hops@, #[trigger] edges@[k]),
            forall|u2: int, i: int| 0 <= u2 < n && 0 <= i < per_node@[u2]@.len() ==> has_forward(edges@, sorted@[u2].id, sorted@[#[trigger] per_node@[u2]@[i].0 as int].id),
            forall|u2: int, i: int| 0 <= u2 < u && 0 <= i < per_node@[u2]@.len()
                && !contracted_edge(nodes@, hops@, sorted@[#[trigger] per_node@[u2]@[i].0 as int].id, sorted@[u2].id)
                ==> has_reverse(edges@, sorted@[per_node@[u2]@[i].0 as int].id, sorted@[u2].id),
    {
        let count = per_node[u].len();
        for i in 0..count
            invariant
                ids_increasing(sorted@),
                n == sorted@.len(),
                u < n,
                per_node@.len() == n,
                count == per_node@[u as int]@.len(),
                forall|u2: int| 0 <= u2 < n ==> node_edges_exact(nodes@, sorted@, hops@, u2, #[trigger] per_node@[u2]@),
                forall|k: int| 0 <= k < edges@.len() ==> edge_exact(nodes@, hops@, #[trigger] edges@[k]),
                forall|u2: int, i2: int| 0 <= u2 < n && 0 <= i2 < per_node@[u2]@.len() ==> has_forward(edges@, sorted@[u2].id, sorted@[#[trigger] per_node@[u2]@[i2].0 as int].id),
                forall|u2: int, i2: int| ((0 <= u2 < u && 0 <= i2 < per_node@[u2]@.len()) || (u2 == u && 0 <= i2 < i))
                    && !contracted_edge(nodes@, hops@, sorted@[#[trigger] per_node@[u2]@[i2].0 as int].id, sorted@[u2].id)
                    ==> has_reverse(edges@, sorted@[per_node@[u2]@[i2].0 as int].id, sorted@[u2].id),
        {
            let pe = per_node[u][i].0;
            proof {
                assert(node_edges_exact(nodes@, sorted@, hops@, u as int, per_node@[u as int]@));
                assert(entry_exact(nodes@, sorted@, hops@, u as int, per_node@[u as int]@[i as int]));
            }
            let back_count = per_node[pe].len();
            let mut has_back = false;
            for i3 in 0..back_count
                invariant
                    pe < n,
                    per_node@.len() == n,
                    back_count == per_node@[pe as int]@.len(),
                    has_back <==> exists|i4: int| 0 <= i4 < i3 && #[trigger] per_node@[pe as int]@[i4].0 == u,
            {
                if per_node[pe][i3].0 == u {
                    has_back = true;
                }
            }
            let ghost uid = sorted@[u as int].id;
            let ghost eid = sorted@[pe as int].id;
            proof {
                let back = per_node@[pe as int]@;
                assert(node_edges_exact(nodes@, sorted@, hops@, pe as int, back));
                if contracted_edge(nodes@, hops@, eid, uid) {
                    let i4 = choose|i4: int| 0 <= i4 < back.len() && #[trigger] sorted@[back[i4].0 as int].id == uid;
                    assert(entry_exact(nodes@, sorted@, hops@, pe as int, back[i4]));
                    lemma_ids_injective(sorted@, back[i4].0 as int, u as int);
                    assert(has_back);
                }
                if has_back {
                    let i4 = choose|i4: int| 0 <= i4 < back_count && #[trigger] back[i4].0 == u;
                    assert(entry_exact(nodes@, sorted@, hops@, pe as int, back[i4]));
                }
            }
            if !has_back {
                let hops_copy = copy_hops(&per_node[u][i].2);
                let edge = ContractedEdge { from: sorted[pe].id, to: sorted[u].id, hops: hops_copy, reversed: true };
                let ghost before = edges@;
                edges.push(edge);
                proof {
                    lemma_push_edge(before, edge);
                    assert(edges@ == before.push(edge));
                }
            }
        }
    }
}

/// Contracts the road network of a map: keeps the nodes that are not merely passed on by one hop
/// in and one hop out, and joins every route through the others into one edge that lists the
/// hops it replaces. Where a contracted edge has no contracted edge back, its reverse is added
/// with the same hops.
pub fn contract_network(nodes: &[OsmNode], ways: &[OsmWay]) -> (net: ContractedNetwork)
    requires
        ways_known(nodes@, ways@),
        hops_of(way_lists(ways@)).len() + 1 < usize::MAX,
    ensures
        is_contraction(nodes@, ways@, net),
{
    let ghost hops = hops_of(way_lists(ways@));
    let ghost table = node_table(nodes@);
    let sorted = sorted_nodes(nodes);
    proof {
        assert forall|w: int, k: int| 0 <= w < way_lists(ways@).len() && 0 <= k < way_lists(ways@)[w].len() implies table.contains_key(#[trigger] way_lists(ways@)[w][k]) by {
            assert(way_lists(ways@)[w] == ways@[w].nodes@);
        }
        lemma_hops_known(way_lists(ways@), table);
    }
    let (succ, arrive) = hop_degrees(&sorted, ways, Ghost(table));
    let flags = kept_flags(nodes, &sorted, &succ, &arrive, Ghost(hops));
    let fuel = hop_count(ways);
    let n = sorted.len();
    let ghost succ_view = succ@.map_values(|r: Vec<usize>| r@);
    assert(network_facts(nodes@, sorted@, succ_view, arrive@, flags@, hops));
    let per_node = gather_edges(Ghost(nodes@), &sorted, &succ, Ghost(arrive@), &flags, Ghost(hops), fuel);
    let kept_nodes = kept_node_list(Ghost(nodes@), &sorted, &flags, Ghost(hops));
    proof {
        assert forall|u2: int, i: int| 0 <= u2 < n && 0 <= i < per_node@[u2]@.len() implies entry_exact(nodes@, sorted@, hops, u2, #[trigger] per_node@[u2]@[i]) by {
            assert(node_edges_exact(nodes@, sorted@, hops, u2, per_node@[u2]@));
        }
    }
    let mut edges = forward_edges(Ghost(nodes@), &sorted, &per_node, Ghost(hops));
    add_reverse_edges(Ghost(nodes@), &sorted, &per_node, Ghost(hops), &mut edges);
    let ghost pn = per_node@.map_values(|f: Vec<FoundEdge>| f@);
    proof {
        assert(forall|u2: int| 0 <= u2 < n ==> #[trigger] pn[u2] == per_node@[u2]@);
    }
    let ghost kn = kept_nodes@;
    let net = ContractedNetwork { nodes: kept_nodes, edges };
    proof {
        assert(net.nodes@ == kn);
        assert forall|u2: int| 0 <= u2 < sorted@.len() && #[trigger] flags@[u2] implies exists|j: int|
            0 <= j < net.nodes@.len() && #[trigger] net.nodes@[j].id == sorted@[u2].id by {
            let j = choose|j: int| 0 <= j < kn.len() && #[trigger] kn[j].id == sorted@[u2].id;
            assert(net.nodes@[j] == kn[j]);
        }
        lemma_network_complete(nodes@, ways@, sorted@, succ_view, arrive@, flags@, pn, net);
    }
    net
}

} // verus!
