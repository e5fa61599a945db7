use orienteering::graph::import::osm::OsmNode;
use orienteering::graph::import::pbf::read_map;
use orienteering::graph::ImportError;
use osmpbfreader::{fileformat, osmformat};
use protobuf::Message;

/// The bytes of one blob: its length, its header and its data.
fn frame(kind: &str, blob: &fileformat::Blob) -> Vec<u8> {
    let data = blob.write_to_bytes().unwrap();
    let mut header = fileformat::BlobHeader::new();
    header.set_field_type(kind.to_string());
    header.set_datasize(data.len() as i32);
    let head = header.write_to_bytes().unwrap();
    let mut out = (head.len() as u32).to_be_bytes().to_vec();
    out.extend_from_slice(&head);
    out.extend_from_slice(&data);
    out
}

/// An uncompressed blob holding a block.
fn raw_blob(block: &osmformat::PrimitiveBlock) -> fileformat::Blob {
    let raw = block.write_to_bytes().unwrap();
    let mut blob = fileformat::Blob::new();
    blob.set_raw_size(raw.len() as i32);
    blob.set_raw(raw);
    blob
}

/// A block with two dense nodes and a way between them whose `highway` tag names string `value`.
fn road_block(value: u32) -> osmformat::PrimitiveBlock {
    let mut block = osmformat::PrimitiveBlock::new();
    for s in ["", "highway", "residential"] {
        block.mut_stringtable().mut_s().push(s.as_bytes().to_vec());
    }
    let mut group = osmformat::PrimitiveGroup::new();
    group.mut_dense().mut_id().extend([1i64, 1]);
    group.mut_dense().mut_lat().extend([10i64, 5]);
    group.mut_dense().mut_lon().extend([20i64, -40]);
    let mut way = osmformat::Way::new();
    way.set_id(7);
    way.mut_keys().push(1);
    way.mut_vals().push(value);
    way.mut_refs().extend([1i64, 1]);
    group.mut_ways().push(way);
    block.mut_primitivegroup().push(group);
    block
}

#[test]
fn a_block_of_dense_nodes_and_a_way_is_decoded() {
    let mut skipped = fileformat::Blob::new();
    skipped.set_raw(Vec::new());
    let mut bytes = frame("OSMHeader", &skipped);
    bytes.extend(frame("OSMData", &raw_blob(&road_block(2))));

    let (nodes, ways) = read_map(&bytes).unwrap();
    assert_eq!(
        nodes,
        vec![
            OsmNode { id: 1, decimicro_lat: 10, decimicro_lon: 20 },
            OsmNode { id: 2, decimicro_lat: 15, decimicro_lon: -20 },
        ]
    );
    assert_eq!(ways.len(), 1);
    assert_eq!(ways[0].nodes, vec![1, 2]);
    assert_eq!(ways[0].highway, Some(b"residential".to_vec()));
}

#[test]
fn a_tag_naming_no_string_is_an_invalid_format() {
    let bytes = frame("OSMData", &raw_blob(&road_block(9)));
    assert!(matches!(read_map(&bytes), Err(ImportError::InvalidFormat(_))));
}

#[test]
fn a_blob_cut_short_is_an_invalid_format() {
    let bytes = frame("OSMData", &raw_blob(&road_block(2)));
    assert!(matches!(read_map(&bytes[..bytes.len() - 1]), Err(ImportError::InvalidFormat(_))));
    assert!(matches!(read_map(&[0u8, 0, 0, 1]), Err(ImportError::InvalidFormat(_))));
}

#[test]
fn empty_data_holds_no_map() {
    let (nodes, ways) = read_map(&[]).unwrap();
    assert!(nodes.is_empty() && ways.is_empty());
}

/// A block with one plainly stored node and one relation whose member role names string `role`.
fn node_and_relation_block(role: i32) -> osmformat::PrimitiveBlock {
    let mut block = osmformat::PrimitiveBlock::new();
    for s in ["", "inner"] {
        block.mut_stringtable().mut_s().push(s.as_bytes().to_vec());
    }
    block.set_granularity(200);
    block.set_lat_offset(1000);
    let mut group = osmformat::PrimitiveGroup::new();
    let mut node = osmformat::Node::new();
    node.set_id(5);
    node.set_lat(100);
    node.set_lon(-100);
    group.mut_nodes().push(node);
    let mut relation = osmformat::Relation::new();
    relation.set_id(1);
    relation.mut_memids().push(5);
    relation.mut_types().push(osmformat::Relation_MemberType::NODE);
    relation.mut_roles_sid().push(role);
    group.mut_relations().push(relation);
    block.mut_primitivegroup().push(group);
    block
}

#[test]
fn a_plain_node_is_placed_by_the_granularity_and_offset() {
    let bytes = frame("OSMData", &raw_blob(&node_and_relation_block(1)));
    let (nodes, ways) = read_map(&bytes).unwrap();
    // (1000 + 200 * 100) / 100 and (0 + 200 * -100) / 100
    assert_eq!(nodes, vec![OsmNode { id: 5, decimicro_lat: 210, decimicro_lon: -200 }]);
    assert!(ways.is_empty());
}

#[test]
fn a_relation_role_naming_no_string_is_an_invalid_format() {
    let bytes = frame("OSMData", &raw_blob(&node_and_relation_block(7)));
    assert!(matches!(read_map(&bytes), Err(ImportError::InvalidFormat(_))));
}
