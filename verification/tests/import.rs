use orienteering::graph::import::osm::{contract_network, OsmNode, OsmWay};
use orienteering::graph::import::pbf::{contract_map, read_map};
use orienteering::graph::ImportError;

fn node(id: i64) -> OsmNode {
    OsmNode { id, decimicro_lat: id as i32 * 10, decimicro_lon: id as i32 * 20 }
}

fn way(ids: &[i64]) -> OsmWay {
    OsmWay { nodes: ids.to_vec(), highway: Some(b"residential".to_vec()) }
}

#[test]
fn a_path_is_contracted_into_one_edge_and_its_reverse() {
    let nodes: Vec<OsmNode> = (1..=5).map(node).collect();
    let ways = vec![way(&[1, 2, 3]), way(&[3, 4])];
    let net = contract_network(&nodes, &ways);

    let ids: Vec<i64> = net.nodes.iter().map(|n| n.id).collect();
    assert_eq!(ids, vec![1, 4]);
    assert_eq!(net.edges.len(), 2);
    let forward = &net.edges[0];
    assert_eq!((forward.from, forward.to, forward.reversed), (1, 4, false));
    assert_eq!(forward.hops, vec![(1, 2), (2, 3), (3, 4)]);
    let backward = &net.edges[1];
    assert_eq!((backward.from, backward.to, backward.reversed), (4, 1, true));
    assert_eq!(backward.hops, vec![(1, 2), (2, 3), (3, 4)]);
}

#[test]
fn the_ends_of_a_two_way_road_are_passed_on_and_contracted_away() {
    // 1 <-> 2 <-> 3: the ends have one hop in and one hop out, so only the middle stays,
    // and every route from it comes back to it.
    let nodes: Vec<OsmNode> = (1..=3).map(node).collect();
    let ways = vec![way(&[1, 2, 3]), way(&[3, 2, 1])];
    let net = contract_network(&nodes, &ways);

    let ids: Vec<i64> = net.nodes.iter().map(|n| n.id).collect();
    assert_eq!(ids, vec![2]);
    assert!(net.edges.is_empty());
}

#[test]
fn a_crossing_node_stays_and_the_later_node_wins_for_a_shared_end() {
    // 1 -> 2 -> 4 and 1 -> 3 -> 4: both routes from 1 end at 4; the one through 3 stays.
    let nodes: Vec<OsmNode> = (1..=4).map(node).collect();
    let ways = vec![way(&[1, 2, 4]), way(&[1, 3, 4])];
    let net = contract_network(&nodes, &ways);

    let forward: Vec<_> = net.edges.iter().filter(|e| !e.reversed).collect();
    assert_eq!(forward.len(), 1);
    assert_eq!((forward[0].from, forward[0].to), (1, 4));
    assert_eq!(forward[0].hops, vec![(1, 3), (3, 4)]);
}

#[test]
fn a_way_through_an_unknown_node_is_refused() {
    let nodes: Vec<OsmNode> = (1..=2).map(node).collect();
    let ways = vec![way(&[1, 9])];
    assert!(matches!(contract_map(&nodes, &ways), Err(ImportError::InvalidFormat(_))));
    assert!(contract_map(&nodes, &[way(&[1, 2])]).is_ok());
}

#[test]
fn unreadable_data_is_an_invalid_format() {
    let bytes = [0u8, 0, 0, 9, 1, 2, 3, 4, 5, 6, 7, 8, 9];
    assert!(matches!(read_map(&bytes), Err(ImportError::InvalidFormat(_))));
}
