//! Reading OpenStreetMap PBF data into the map model of [`osm`](crate::graph::import::osm), and
//! contracting its road network.
//!
//! PBF data is a sequence of blobs, each announced by a four-byte big-endian length and a blob
//! header. The protocol-buffer messages are parsed and the blocks decompressed by `protobuf` and
//! `osmpbfreader`; the framing and the decoding of the blocks (running sums of ids and coordinates,
//! string-table lookups) are done here, where every length, index and sum is checked.
use vstd::prelude::*;

use crate::graph::import::osm::{
    contract_network, find_id, hops_of, is_contraction, lemma_hops_take, lemma_hops_take_len, lists_table,
    node_table, sorted_nodes, ways_known, way_lists, ContractedNetwork, OsmNode, OsmWay,
};
use crate::graph::ImportError;
use crate::util::scale::trunc_div;

verus! {

/// A node as a block stores it: its id, its raw coordinates and the string indices of its tags.
#[derive(Clone, Debug)]
pub struct PbfNode {
    pub id: i64,
    pub lat: i64,
    pub lon: i64,
    pub keys: Vec<u32>,
    pub vals: Vec<u32>,
}

/// The densely stored nodes of a group: ids and raw coordinates as differences to the previous
/// node, and the string indices of all their tags, each node's list ended by a zero.
#[derive(Clone, Debug)]
pub struct PbfDense {
    pub ids: Vec<i64>,
    pub lats: Vec<i64>,
    pub lons: Vec<i64>,
    pub keys_vals: Vec<i32>,
}

/// A way as a block stores it: the string indices of its tags and its node ids as differences.
#[derive(Clone, Debug)]
pub struct PbfWay {
    pub keys: Vec<u32>,
    pub vals: Vec<u32>,
    pub refs: Vec<i64>,
}

/// A relation as a block stores it: the string indices of its tags, its member ids as
/// differences, the number of member types and the string indices of the member roles.
#[derive(Clone, Debug)]
pub struct PbfRelation {
    pub keys: Vec<u32>,
    pub vals: Vec<u32>,
    pub memids: Vec<i64>,
    pub type_count: usize,
    pub roles_sid: Vec<i32>,
}

/// What a block stores besides its groups: its string table, the scale of its coordinates,
/// and the number of its groups.
#[derive(Clone, Debug)]
pub struct PbfBlock {
    pub strings: Vec<Vec<u8>>,
    pub granularity: i32,
    pub lat_offset: i64,
    pub lon_offset: i64,
    pub group_count: usize,
}

/// The type (as bytes) and the announced data size of the blob header in `bytes`.
pub uninterp spec fn blob_header_content(bytes: Seq<u8>) -> Option<(Seq<u8>, i32)>;

/// The bytes parse as a blob.
pub uninterp spec fn blob_parses(bytes: Seq<u8>) -> bool;

/// The block of the blob in `bytes`, without its groups.
pub uninterp spec fn block_content(bytes: Seq<u8>) -> Option<PbfBlock>;

/// The plainly stored nodes of group `g` of the block of the blob in `bytes`.
pub uninterp spec fn group_nodes(bytes: Seq<u8>, g: usize) -> Option<Seq<PbfNode>>;

/// The densely stored nodes of group `g` of the block of the blob in `bytes`.
pub uninterp spec fn group_dense(bytes: Seq<u8>, g: usize) -> Option<PbfDense>;

/// The ways of group `g` of the block of the blob in `bytes`.
pub uninterp spec fn group_ways(bytes: Seq<u8>, g: usize) -> Option<Seq<PbfWay>>;

/// The relations of group `g` of the block of the blob in `bytes`.
pub uninterp spec fn group_relations(bytes: Seq<u8>, g: usize) -> Option<Seq<PbfRelation>>;

/// Parses a blob header with `protobuf::Message::parse_from_bytes` into its type and its data
/// size; `None` where protobuf reports an error. The result is claimed to be a function of the bytes.
#[verifier::external_body]
fn read_blob_header(bytes: &[u8]) -> (res: Option<(Vec<u8>, i32)>)
    ensures
        res is Some <==> blob_header_content(bytes@) is Some,
        res matches Some(r) ==> blob_header_content(bytes@) == Some((r.0@, r.1)),
{
    let header: osmpbfreader::fileformat::BlobHeader = protobuf::Message::parse_from_bytes(bytes).ok()?;
    Some((header.get_field_type().as_bytes().to_vec(), header.get_datasize()))
}

/// Whether the bytes parse as a blob with `protobuf::Message::parse_from_bytes`.
#[verifier::external_body]
fn blob_is_readable(bytes: &[u8]) -> (ok: bool)
    ensures
        ok == blob_parses(bytes@),
{
    let blob: protobuf::ProtobufResult<osmpbfreader::fileformat::Blob> = protobuf::Message::parse_from_bytes(bytes);
    blob.is_ok()
}

/// Parses a blob with protobuf and decompresses its block with
/// `osmpbfreader::primitive_block_from_blob`, and returns the block's string table, coordinate
/// scale and number of groups; `None` where either reports an error.
#[verifier::external_body]
fn read_block(bytes: &[u8]) -> (res: Option<PbfBlock>)
    ensures
        res == block_content(bytes@),
{
    let blob: osmpbfreader::fileformat::Blob = protobuf::Message::parse_from_bytes(bytes).ok()?;
    let block = osmpbfreader::primitive_block_from_blob(&blob).ok()?;
    Some(PbfBlock {
        strings: block.get_stringtable().get_s().to_vec(),
        granularity: block.get_granularity(),
        lat_offset: block.get_lat_offset(),
        lon_offset: block.get_lon_offset(),
        group_count: block.get_primitivegroup().len(),
    })
}

/// The plainly stored nodes of group `g`, read as [`read_block`] reads the block.
#[verifier::external_body]
fn read_group_nodes(bytes: &[u8], g: usize) -> (res: Option<Vec<PbfNode>>)
    ensures
        res is Some <==> group_nodes(bytes@, g) is Some,
        res matches Some(v) ==> group_nodes(bytes@, g) == Some(v@),
{
    let blob: osmpbfreader::fileformat::Blob = protobuf::Message::parse_from_bytes(bytes).ok()?;
    let block = osmpbfreader::primitive_block_from_blob(&blob).ok()?;
    let mut nodes = Vec::new();
    for n in block.get_primitivegroup().get(g)?.get_nodes() {
        nodes.push(PbfNode { id: n.get_id(), lat: n.get_lat(), lon: n.get_lon(), keys: n.get_keys().to_vec(), vals: n.get_vals().to_vec() });
    }
    Some(nodes)
}

/// The densely stored nodes of group `g`, read as [`read_block`] reads the block.
#[verifier::external_body]
fn read_group_dense(bytes: &[u8], g: usize) -> (res: Option<PbfDense>)
    ensures
        res == group_dense(bytes@, g),
{
    let blob: osmpbfreader::fileformat::Blob = protobuf::Message::parse_from_bytes(bytes).ok()?;
    let block = osmpbfreader::primitive_block_from_blob(&blob).ok()?;
    let d = block.get_primitivegroup().get(g)?.get_dense();
    Some(PbfDense { ids: d.get_id().to_vec(), lats: d.get_lat().to_vec(), lons: d.get_lon().to_vec(), keys_vals: d.get_keys_vals().to_vec() })
}

/// The ways of group `g`, read as [`read_block`] reads the block.
#[verifier::external_body]
fn read_group_ways(bytes: &[u8], g: usize) -> (res: Option<Vec<PbfWay>>)
    ensures
        res is Some <==> group_ways(bytes@, g) is Some,
        res matches Some(v) ==> group_ways(bytes@, g) == Some(v@),
{
    let blob: osmpbfreader::fileformat::Blob = protobuf::Message::parse_from_bytes(bytes).ok()?;
    let block = osmpbfreader::primitive_block_from_blob(&blob).ok()?;
    let mut ways = Vec::new();
    for w in block.get_primitivegroup().get(g)?.get_ways() {
        ways.push(PbfWay { keys: w.get_keys().to_vec(), vals: w.get_vals().to_vec(), refs: w.get_refs().to_vec() });
    }
    Some(ways)
}

/// The relations of group `g`, read as [`read_block`] reads the block.
#[verifier::external_body]
fn read_group_relations(bytes: &[u8], g: usize) -> (res: Option<Vec<PbfRelation>>)
    ensures
        res is Some <==> group_relations(bytes@, g) is Some,
        res matches Some(v) ==> group_relations(bytes@, g) == Some(v@),
{
    let blob: osmpbfreader::fileformat::Blob = protobuf::Message::parse_from_bytes(bytes).ok()?;
    let block = osmpbfreader::primitive_block_from_blob(&blob).ok()?;
    let mut relations = Vec::new();
    for r in block.get_primitivegroup().get(g)?.get_relations() {
        relations.push(PbfRelation { keys: r.get_keys().to_vec(), vals: r.get_vals().to_vec(), memids: r.get_memids().to_vec(), type_count: r.get_types().len(), roles_sid: r.get_roles_sid().to_vec() });
    }
    Some(relations)
}

/// The smaller of two numbers.
pub open spec fn smaller(a: int, b: int) -> int {
    if a <= b { a } else { b }
}

/// The bytes of an optional byte string.
pub open spec fn opt_bytes(h: Option<Vec<u8>>) -> Option<Seq<u8>> {
    match h {
        Some(v) => Some(v@),
        None => None,
    }
}

/// A way of the map as the contraction and the travel times see it: its nodes and its road type.
pub open spec fn way_view(w: OsmWay) -> (Seq<i64>, Option<Seq<u8>>) {
    (w.nodes@, opt_bytes(w.highway))
}

/// The nodes of a map, and its ways as [`way_view`] shows them.
pub type MapContent = (Seq<OsmNode>, Seq<(Seq<i64>, Option<Seq<u8>>)>);

/// The tag key `highway`.
pub open spec fn highway_key() -> Seq<u8> {
    seq![104u8, 105u8, 103u8, 104u8, 119u8, 97u8, 121u8]
}

/// The blob type `OSMData`.
pub open spec fn osm_data_type() -> Seq<u8> {
    seq![79u8, 83u8, 77u8, 68u8, 97u8, 116u8, 97u8]
}

/// Every tag, keys and values taken pairwise, names a string of a table of `n` strings.
pub open spec fn tags_ok(keys: Seq<u32>, vals: Seq<u32>, n: int) -> bool {
    forall|i: int| 0 <= i < keys.len() && i < vals.len() ==> #[trigger] keys[i] < n && vals[i] < n
}

/// The value of the first tag, from position `i` on, whose key is `key`.
pub open spec fn tag_value(strings: Seq<Vec<u8>>, keys: Seq<u32>, vals: Seq<u32>, key: Seq<u8>, i: int) -> Option<Seq<u8>>
    decreases keys.len() - i,
{
    if i < 0 || i >= keys.len() || i >= vals.len() {
        None
    } else if strings[keys[i] as int]@ == key {
        Some(strings[vals[i] as int]@)
    } else {
        tag_value(strings, keys, vals, key, i + 1)
    }
}

/// The sum of the first `k` differences.
pub open spec fn delta_sum(ds: Seq<i64>, k: int) -> int
    decreases k,
{
    if k <= 0 {
        0
    } else {
        delta_sum(ds, k - 1) + ds[k - 1]
    }
}

/// The sums of the first one, two, ..., `k` differences are all `i64` numbers.
pub open spec fn sums_fit(ds: Seq<i64>, k: int) -> bool {
    forall|j: int| 1 <= j <= k ==> i64::MIN <= #[trigger] delta_sum(ds, j) <= i64::MAX
}

/// The values that the first `k` differences add up to, one after another.
pub open spec fn running_sums(ds: Seq<i64>, k: int) -> Seq<i64> {
    Seq::new(k as nat, |j: int| delta_sum(ds, j + 1) as i64)
}

/// A coordinate in units of 1e-7 degrees from a raw one: `(offset + granularity * c) / 100`,
/// rounded toward zero and taken as an `i32`; `None` where a step leaves the `i64` numbers.
pub open spec fn coordinate(offset: i64, granularity: i32, c: i64) -> Option<i32> {
    let product = granularity * c;
    let sum = offset + product;
    if i64::MIN <= product <= i64::MAX && i64::MIN <= sum <= i64::MAX {
        Some(trunc_div(sum, 100) as i32)
    } else {
        None
    }
}

/// A plainly stored node, decoded; `None` where a tag names no string or a coordinate overflows.
pub open spec fn plain_node(block: PbfBlock, n: PbfNode) -> Option<OsmNode> {
    if !tags_ok(n.keys@, n.vals@, block.strings@.len() as int) {
        None
    } else {
        match (coordinate(block.lat_offset, block.granularity, n.lat), coordinate(block.lon_offset, block.granularity, n.lon)) {
            (Some(lat), Some(lon)) => Some(OsmNode { id: n.id, decimicro_lat: lat, decimicro_lon: lon }),
            _ => None,
        }
    }
}

/// The plainly stored nodes, decoded one after another; `None` where one cannot be.
pub open spec fn plain_nodes(block: PbfBlock, ns: Seq<PbfNode>) -> Option<Seq<OsmNode>>
    decreases ns.len(),
{
    if ns.len() == 0 {
        Some(Seq::empty())
    } else {
        match (plain_nodes(block, ns.drop_last()), plain_node(block, ns.last())) {
            (Some(a), Some(x)) => Some(a.push(x)),
            _ => None,
        }
    }
}

/// The number of densely stored nodes: as many as there are ids, latitudes and longitudes alike.
pub open spec fn dense_count(d: PbfDense) -> int {
    smaller(smaller(d.ids@.len() as int, d.lats@.len() as int), d.lons@.len() as int)
}

/// Reading the tags of `nodes` dense nodes from position `pos` of the key-value list names only
/// strings of the table: each node's list ends at a zero key or at the end of the list.
pub open spec fn dense_tags_ok(kv: Seq<i32>, n: int, pos: int, nodes: int) -> bool
    decreases nodes, kv.len() - pos,
{
    if nodes <= 0 || pos < 0 || pos >= kv.len() {
        true
    } else if kv[pos] == 0 {
        dense_tags_ok(kv, n, pos + 1, nodes - 1)
    } else if !(0 <= kv[pos] < n) {
        false
    } else if pos + 1 >= kv.len() {
        true
    } else if !(0 <= kv[pos + 1] < n) {
        false
    } else {
        dense_tags_ok(kv, n, pos + 2, nodes)
    }
}

/// The first `k` densely stored nodes, decoded; `None` where a coordinate overflows.
pub open spec fn dense_upto(block: PbfBlock, d: PbfDense, k: int) -> Option<Seq<OsmNode>>
    decreases k,
{
    if k <= 0 {
        Some(Seq::empty())
    } else {
        match (
            dense_upto(block, d, k - 1),
            coordinate(block.lat_offset, block.granularity, delta_sum(d.lats@, k) as i64),
            coordinate(block.lon_offset, block.granularity, delta_sum(d.lons@, k) as i64),
        ) {
            (Some(a), Some(lat), Some(lon)) => Some(
                a.push(OsmNode { id: delta_sum(d.ids@, k) as i64, decimicro_lat: lat, decimicro_lon: lon }),
            ),
            _ => None,
        }
    }
}

/// The densely stored nodes, decoded; `None` where a sum overflows or a tag names no string.
pub open spec fn dense_nodes(block: PbfBlock, d: PbfDense) -> Option<Seq<OsmNode>> {
    let k = dense_count(d);
    if sums_fit(d.ids@, k) && sums_fit(d.lats@, k) && sums_fit(d.lons@, k) && dense_tags_ok(
        d.keys_vals@,
        block.strings@.len() as int,
        0,
        k,
    ) {
        dense_upto(block, d, k)
    } else {
        None
    }
}

/// A way, decoded: its node ids and its road type; `None` where a sum overflows or a tag names no string.
pub open spec fn way_content(block: PbfBlock, w: PbfWay) -> Option<(Seq<i64>, Option<Seq<u8>>)> {
    if tags_ok(w.keys@, w.vals@, block.strings@.len() as int) && sums_fit(w.refs@, w.refs@.len() as int) {
        Some((running_sums(w.refs@, w.refs@.len() as int), tag_value(block.strings@, w.keys@, w.vals@, highway_key(), 0)))
    } else {
        None
    }
}

/// The ways, decoded one after another.
pub open spec fn ways_content(block: PbfBlock, ws: Seq<PbfWay>) -> Option<Seq<(Seq<i64>, Option<Seq<u8>>)>>
    decreases ws.len(),
{
    if ws.len() == 0 {
        Some(Seq::empty())
    } else {
        match (ways_content(block, ws.drop_last()), way_content(block, ws.last())) {
            (Some(a), Some(x)) => Some(a.push(x)),
            _ => None,
        }
    }
}

/// The number of members of a relation: as many as there are ids, types and roles alike.
pub open spec fn member_count(r: PbfRelation) -> int {
    smaller(smaller(r.memids@.len() as int, r.type_count as int), r.roles_sid@.len() as int)
}

/// A relation can be read: its tags and roles name strings and its member ids do not overflow.
pub open spec fn relation_ok(block: PbfBlock, r: PbfRelation) -> bool {
    let n = block.strings@.len() as int;
    &&& tags_ok(r.keys@, r.vals@, n)
    &&& sums_fit(r.memids@, member_count(r))
    &&& forall|i: int| 0 <= i < member_count(r) ==> 0 <= #[trigger] r.roles_sid@[i] < n
}

/// A group, decoded: its plain and then its dense nodes, and its ways; `None` where any of its
/// nodes, ways or relations cannot be read.
pub open spec fn group_content(block: PbfBlock, ns: Seq<PbfNode>, d: PbfDense, ws: Seq<PbfWay>, rs: Seq<PbfRelation>) -> Option<MapContent> {
    if !(forall|i: int| 0 <= i < rs.len() ==> relation_ok(block, #[trigger] rs[i])) {
        None
    } else {
        match (plain_nodes(block, ns), dense_nodes(block, d), ways_content(block, ws)) {
            (Some(a), Some(b), Some(c)) => Some((a + b, c)),
            _ => None,
        }
    }
}

/// Two results joined: the nodes and the ways of the first and then those of the second; `None`
/// where either is `None`.
pub open spec fn join(a: Option<MapContent>, b: Option<MapContent>) -> Option<MapContent> {
    match (a, b) {
        (Some(x), Some(y)) => Some((x.0 + y.0, x.1 + y.1)),
        _ => None,
    }
}

/// Group `g` of the block in the blob `bytes`, decoded.
pub open spec fn group_at(bytes: Seq<u8>, block: PbfBlock, g: usize) -> Option<MapContent> {
    match (group_nodes(bytes, g), group_dense(bytes, g), group_ways(bytes, g), group_relations(bytes, g)) {
        (Some(ns), Some(d), Some(ws), Some(rs)) => group_content(block, ns, d, ws, rs),
        _ => None,
    }
}

/// The first `g` groups of the block in the blob `bytes`, decoded one after another.
pub open spec fn groups_content(bytes: Seq<u8>, block: PbfBlock, g: int) -> Option<MapContent>
    decreases g,
{
    if g <= 0 {
        Some((Seq::empty(), Seq::empty()))
    } else {
        join(groups_content(bytes, block, g - 1), group_at(bytes, block, (g - 1) as usize))
    }
}

/// The blob `bytes`, decoded: the nodes and ways of all groups of its block.
pub open spec fn blob_nodes_and_ways(bytes: Seq<u8>) -> Option<MapContent> {
    match block_content(bytes) {
        Some(block) => groups_content(bytes, block, block.group_count as int),
        None => None,
    }
}

/// A four-byte big-endian number.
pub open spec fn be_u32(b: Seq<u8>) -> int {
    b[0] * 16777216 + b[1] * 65536 + b[2] * 256 + b[3]
}

/// The nodes and ways of PBF data: blob after blob, each announced by its length and its header;
/// blobs of another type than `OSMData` are passed over, and fewer than four bytes end the data.
/// `None` where a length exceeds 64 KiB or the bytes that remain, or where a header, a blob or a
/// block cannot be read.
pub open spec fn pbf_content(bytes: Seq<u8>) -> Option<MapContent>
    decreases bytes.len(),
{
    if bytes.len() < 4 {
        Some((Seq::empty(), Seq::empty()))
    } else {
        let size = be_u32(bytes);
        if size > 65536 || 4 + size > bytes.len() {
            None
        } else {
            match blob_header_content(bytes.subrange(4, 4 + size)) {
                None => None,
                Some((kind, data_size)) => {
                    if data_size < 0 || 4 + size + data_size > bytes.len() {
                        None
                    } else {
                        let blob = bytes.subrange(4 + size, 4 + size + data_size);
                        let next = bytes.subrange(4 + size + data_size, bytes.len() as int);
                        if !blob_parses(blob) {
                            None
                        } else if kind == osm_data_type() {
                            join(blob_nodes_and_ways(blob), pbf_content(next))
                        } else {
                            pbf_content(next)
                        }
                    }
                }
            }
        }
    }
}

/// Whether every tag names strings of a table of `n` strings.
fn check_tags(keys: &Vec<u32>, vals: &Vec<u32>, n: usize) -> (ok: bool)
    ensures
        ok == tags_ok(keys@, vals@, n as int),
{
    let mut i: usize = 0;
    while i < keys.len() && i < vals.len()
        invariant
            i <= keys@.len(),
            forall|j: int| 0 <= j < i && j < vals@.len() ==> #[trigger] keys@[j] < n && vals@[j] < n,
        decreases keys@.len() - i,
    {
        if keys[i] as usize >= n || vals[i] as usize >= n {
            return false;
        }
        i = i + 1;
    }
    true
}

/// Whether two byte strings are equal.
fn same_bytes(a: &Vec<u8>, b: &Vec<u8>) -> (same: bool)
    ensures
        same == (a@ == b@),
{
    if a.len() != b.len() {
        return false;
    }
    for i in 0..a.len()
        invariant
            a@.len() == b@.len(),
            forall|j: int| 0 <= j < i ==> a@[j] == b@[j],
    {
        if a[i] != b[i] {
            return false;
        }
    }
    assert(a@ =~= b@);
    true
}

/// A copy of a byte string.
fn copy_bytes(a: &Vec<u8>) -> (copy: Vec<u8>)
    ensures
        copy@ == a@,
{
    let mut copy: Vec<u8> = Vec::new();
    for i in 0..a.len()
        invariant
            copy@ == a@.take(i as int),
    {
        copy.push(a[i]);
        assert(copy@ =~= a@.take(i as int + 1));
    }
    assert(a@.take(a@.len() as int) =~= a@);
    copy
}

/// The value of the first tag whose key is `key`.
fn find_tag(strings: &Vec<Vec<u8>>, keys: &Vec<u32>, vals: &Vec<u32>, key: &Vec<u8>) -> (res: Option<Vec<u8>>)
    requires
        tags_ok(keys@, vals@, strings@.len() as int),
    ensures
        opt_bytes(res) == tag_value(strings@, keys@, vals@, key@, 0),
{
    let mut i: usize = 0;
    while i < keys.len() && i < vals.len()
        invariant
            tags_ok(keys@, vals@, strings@.len() as int),
            i <= keys@.len(),
            tag_value(strings@, keys@, vals@, key@, 0) == tag_value(strings@, keys@, vals@, key@, i as int),
        decreases keys@.len() - i,
    {
        assert(keys@[i as int] < strings@.len() && vals@[i as int] < strings@.len());
        if same_bytes(&strings[keys[i] as usize], key) {
            return Some(copy_bytes(&strings[vals[i] as usize]));
        }
        i = i + 1;
    }
    None
}

/// The values that the first `k` differences add up to; `None` where a sum overflows.
fn running_sum(ds: &Vec<i64>, k: usize) -> (res: Option<Vec<i64>>)
    requires
        k <= ds@.len(),
    ensures
        res is Some <==> sums_fit(ds@, k as int),
        res matches Some(v) ==> v@ == running_sums(ds@, k as int),
{
    let mut sums: Vec<i64> = Vec::new();
    let mut acc: i64 = 0;
    for j in 0..k
        invariant
            k <= ds@.len(),
            acc == delta_sum(ds@, j as int),
            sums_fit(ds@, j as int),
            sums@ == running_sums(ds@, j as int),
    {
        let next: i128 = acc as i128 + ds[j] as i128;
        if next < i64::MIN as i128 || next > i64::MAX as i128 {
            proof {
                assert(delta_sum(ds@, j as int + 1) == next);
            }
            return None;
        }
        acc = next as i64;
        sums.push(acc);
        proof {
            assert(delta_sum(ds@, j as int + 1) == acc);
            assert(sums@ =~= running_sums(ds@, j as int + 1));
        }
    }
    Some(sums)
}

/// A coordinate in units of 1e-7 degrees from a raw one, as [`coordinate`] defines it.
fn coordinate_of(offset: i64, granularity: i32, c: i64) -> (res: Option<i32>)
    ensures
        res == coordinate(offset, granularity, c),
{
    assert(-0x8000_0000 * 0x8000_0000_0000_0000 <= granularity * c <= 0x8000_0000 * 0x8000_0000_0000_0000)
        by (nonlinear_arith)
        requires
            -0x8000_0000 <= granularity < 0x8000_0000,
            -0x8000_0000_0000_0000 <= c < 0x8000_0000_0000_0000,
    ;
    let product: i128 = granularity as i128 * c as i128;
    if product < i64::MIN as i128 || product > i64::MAX as i128 {
        return None;
    }
    let sum: i128 = offset as i128 + product;
    if sum < i64::MIN as i128 || sum > i64::MAX as i128 {
        return None;
    }
    let quotient: i128 = if sum >= 0 {
        sum / 100
    } else {
        -((-sum) / 100)
    };
    assert(quotient == trunc_div(sum as int, 100));
    Some(#[verifier::truncate] (quotient as i32))
}

/// The ways as [`way_view`] shows them.
pub open spec fn ways_view(ws: Seq<OsmWay>) -> Seq<(Seq<i64>, Option<Seq<u8>>)> {
    ws.map_values(|x: OsmWay| way_view(x))
}

/// Showing ways goes way by way.
proof fn lemma_ways_view_add(a: Seq<OsmWay>, b: Seq<OsmWay>)
    ensures
        ways_view(a + b) == ways_view(a) + ways_view(b),
{
    assert(ways_view(a + b) =~= ways_view(a) + ways_view(b));
}

/// Joining is associative where the first two results are there.
proof fn lemma_join_assoc(x: MapContent, y: MapContent, p: Option<MapContent>)
    ensures
        join(Some(x), join(Some(y), p)) == join(Some((x.0 + y.0, x.1 + y.1)), p),
{
    if let Some(z) = p {
        assert(x.0 + (y.0 + z.0) =~= (x.0 + y.0) + z.0);
        assert(x.1 + (y.1 + z.1) =~= (x.1 + y.1) + z.1);
    }
}

/// A plainly stored node, decoded as [`plain_node`] defines it.
fn decode_plain_node(block: &PbfBlock, n: &PbfNode) -> (res: Option<OsmNode>)
    ensures
        res == plain_node(*block, *n),
{
    if !check_tags(&n.keys, &n.vals, block.strings.len()) {
        return None;
    }
    let lat = coordinate_of(block.lat_offset, block.granularity, n.lat);
    let lon = coordinate_of(block.lon_offset, block.granularity, n.lon);
    match (lat, lon) {
        (Some(lat), Some(lon)) => Some(OsmNode { id: n.id, decimicro_lat: lat, decimicro_lon: lon }),
        _ => None,
    }
}

/// Where all plainly stored nodes can be decoded, so can those of every prefix.
proof fn lemma_plain_prefix(block: PbfBlock, ns: Seq<PbfNode>, i: int)
    requires
        0 <= i <= ns.len(),
        plain_nodes(block, ns) is Some,
    ensures
        plain_nodes(block, ns.take(i)) is Some,
    decreases ns.len(),
{
    if i < ns.len() {
        assert(ns.drop_last().take(i) =~= ns.take(i));
        lemma_plain_prefix(block, ns.drop_last(), i);
    } else {
        assert(ns.take(i) =~= ns);
    }
}

/// The plainly stored nodes, decoded as [`plain_nodes`] defines it.
fn decode_plain_nodes(block: &PbfBlock, ns: &Vec<PbfNode>) -> (res: Option<Vec<OsmNode>>)
    ensures
        res is Some <==> plain_nodes(*block, ns@) is Some,
        res matches Some(v) ==> plain_nodes(*block, ns@) == Some(v@),
{
    let mut out: Vec<OsmNode> = Vec::new();
    assert(ns@.take(0) =~= Seq::<PbfNode>::empty());
    for i in 0..ns.len()
        invariant
            plain_nodes(*block, ns@.take(i as int)) == Some(out@),
    {
        assert(ns@.take(i as int + 1).drop_last() =~= ns@.take(i as int));
        match decode_plain_node(block, &ns[i]) {
            Some(x) => {
                out.push(x);
            },
            None => {
                proof {
                    if plain_nodes(*block, ns@) is Some {
                        lemma_plain_prefix(*block, ns@, i as int + 1);
                    }
                }
                return None;
            },
        }
    }
    assert(ns@.take(ns@.len() as int) =~= ns@);
    Some(out)
}

/// Whether reading the tags of `count` dense nodes names only strings of a table of `n` strings.
fn check_dense_tags(kv: &Vec<i32>, n: usize, count: usize) -> (ok: bool)
    ensures
        ok == dense_tags_ok(kv@, n as int, 0, count as int),
{
    let mut pos: usize = 0;
    let mut left: usize = count;
    while left > 0 && pos < kv.len()
        invariant
            pos <= kv@.len(),
            dense_tags_ok(kv@, n as int, 0, count as int) == dense_tags_ok(kv@, n as int, pos as int, left as int),
        decreases kv@.len() - pos,
    {
        let k = kv[pos];
        if k == 0 {
            pos = pos + 1;
            left = left - 1;
        } else if k < 0 || k as usize >= n {
            return false;
        } else if pos + 1 >= kv.len() {
            return true;
        } else {
            let v = kv[pos + 1];
            if v < 0 || v as usize >= n {
                return false;
            }
            pos = pos + 2;
        }
    }
    true
}

/// Where the first `k` dense nodes can be decoded, so can the first `j`.
proof fn lemma_dense_prefix(block: PbfBlock, d: PbfDense, j: int, k: int)
    requires
        0 <= j <= k,
        dense_upto(block, d, k) is Some,
    ensures
        dense_upto(block, d, j) is Some,
    decreases k,
{
    if j < k {
        lemma_dense_prefix(block, d, j, k - 1);
    }
}

/// The densely stored nodes, decoded as [`dense_nodes`] defines it.
fn decode_dense(block: &PbfBlock, d: &PbfDense) -> (res: Option<Vec<OsmNode>>)
    ensures
        res is Some <==> dense_nodes(*block, *d) is Some,
        res matches Some(v) ==> dense_nodes(*block, *d) == Some(v@),
{
    let mut k = d.ids.len();
    if d.lats.len() < k {
        k = d.lats.len();
    }
    if d.lons.len() < k {
        k = d.lons.len();
    }
    assert(k == dense_count(*d));
    let ids = running_sum(&d.ids, k);
    let lats = running_sum(&d.lats, k);
    let lons = running_sum(&d.lons, k);
    if ids.is_none() || lats.is_none() || lons.is_none() || !check_dense_tags(&d.keys_vals, block.strings.len(), k) {
        return None;
    }
    let ids = ids.unwrap();
    let lats = lats.unwrap();
    let lons = lons.unwrap();
    let mut out: Vec<OsmNode> = Vec::new();
    for j in 0..k
        invariant
            k == dense_count(*d),
            ids@ == running_sums(d.ids@, k as int),
            lats@ == running_sums(d.lats@, k as int),
            lons@ == running_sums(d.lons@, k as int),
            dense_nodes(*block, *d) == dense_upto(*block, *d, k as int),
            dense_upto(*block, *d, j as int) == Some(out@),
    {
        let lat = coordinate_of(block.lat_offset, block.granularity, lats[j]);
        let lon = coordinate_of(block.lon_offset, block.granularity, lons[j]);
        match (lat, lon) {
            (Some(lat), Some(lon)) => {
                out.push(OsmNode { id: ids[j], decimicro_lat: lat, decimicro_lon: lon });
            },
            _ => {
                proof {
                    if dense_upto(*block, *d, k as int) is Some {
                        lemma_dense_prefix(*block, *d, j as int + 1, k as int);
                    }
                }
                return None;
            },
        }
    }
    Some(out)
}

/// A way, decoded as [`way_content`] defines it.
fn decode_way(block: &PbfBlock, w: &PbfWay) -> (res: Option<OsmWay>)
    ensures
        res is Some <==> way_content(*block, *w) is Some,
        res matches Some(x) ==> way_content(*block, *w) == Some(way_view(x)),
{
    if !check_tags(&w.keys, &w.vals, block.strings.len()) {
        return None;
    }
    match running_sum(&w.refs, w.refs.len()) {
        None => None,
        Some(nodes) => {
            let key: Vec<u8> = vec![104, 105, 103, 104, 119, 97, 121];
            assert(key@ =~= highway_key());
            let highway = find_tag(&block.strings, &w.keys, &w.vals, &key);
            Some(OsmWay { nodes, highway })
        },
    }
}

/// Where all ways can be decoded, so can those of every prefix.
proof fn lemma_ways_prefix(block: PbfBlock, ws: Seq<PbfWay>, i: int)
    requires
        0 <= i <= ws.len(),
        ways_content(block, ws) is Some,
    ensures
        ways_content(block, ws.take(i)) is Some,
    decreases ws.len(),
{
    if i < ws.len() {
        assert(ws.drop_last().take(i) =~= ws.take(i));
        lemma_ways_prefix(block, ws.drop_last(), i);
    } else {
        assert(ws.take(i) =~= ws);
    }
}

/// The ways, decoded as [`ways_content`] defines it.
fn decode_ways(block: &PbfBlock, ws: &Vec<PbfWay>) -> (res: Option<Vec<OsmWay>>)
    ensures
        res is Some <==> ways_content(*block, ws@) is Some,
        res matches Some(v) ==> ways_content(*block, ws@) == Some(ways_view(v@)),
{
    let mut out: Vec<OsmWay> = Vec::new();
    assert(ws@.take(0) =~= Seq::<PbfWay>::empty());
    assert(ways_view(out@) =~= Seq::empty());
    for i in 0..ws.len()
        invariant
            ways_content(*block, ws@.take(i as int)) == Some(ways_view(out@)),
    {
        assert(ws@.take(i as int + 1).drop_last() =~= ws@.take(i as int));
        match decode_way(block, &ws[i]) {
            Some(x) => {
                let ghost before = out@;
                out.push(x);
                assert(ways_view(out@) =~= ways_view(before).push(way_view(x)));
            },
            None => {
                proof {
                    if ways_content(*block, ws@) is Some {
                        lemma_ways_prefix(*block, ws@, i as int + 1);
                    }
                }
                return None;
            },
        }
    }
    assert(ws@.take(ws@.len() as int) =~= ws@);
    Some(out)
}

/// Whether a relation can be read, as [`relation_ok`] defines it.
fn relation_is_ok(block: &PbfBlock, r: &PbfRelation) -> (ok: bool)
    ensures
        ok == relation_ok(*block, *r),
{
    let n = block.strings.len();
    if !check_tags(&r.keys, &r.vals, n) {
        return false;
    }
    let mut m = r.memids.len();
    if r.type_count < m {
        m = r.type_count;
    }
    if r.roles_sid.len() < m {
        m = r.roles_sid.len();
    }
    assert(m == member_count(*r));
    if running_sum(&r.memids, m).is_none() {
        return false;
    }
    for i in 0..m
        invariant
            m == member_count(*r),
            m <= r.roles_sid@.len(),
            n == block.strings@.len(),
            forall|j: int| 0 <= j < i ==> 0 <= #[trigger] r.roles_sid@[j] < n,
    {
        let role = r.roles_sid[i];
        if role < 0 || role as usize >= n {
            return false;
        }
    }
    true
}

/// Whether every relation can be read.
fn relations_are_ok(block: &PbfBlock, rs: &Vec<PbfRelation>) -> (ok: bool)
    ensures
        ok == forall|i: int| 0 <= i < rs@.len() ==> relation_ok(*block, #[trigger] rs@[i]),
{
    for i in 0..rs.len()
        invariant
            forall|j: int| 0 <= j < i ==> relation_ok(*block, #[trigger] rs@[j]),
    {
        if !relation_is_ok(block, &rs[i]) {
            return false;
        }
    }
    true
}

/// Group `g` of the block in the blob `bytes`, decoded as [`group_at`] defines it.
fn decode_group(bytes: &[u8], block: &PbfBlock, g: usize) -> (res: Option<(Vec<OsmNode>, Vec<OsmWay>)>)
    ensures
        res is Some <==> group_at(bytes@, *block, g) is Some,
        res matches Some(r) ==> group_at(bytes@, *block, g) == Some((r.0@, ways_view(r.1@))),
{
    let ns = read_group_nodes(bytes, g);
    let d = read_group_dense(bytes, g);
    let ws = read_group_ways(bytes, g);
    let rs = read_group_relations(bytes, g);
    match (ns, d, ws, rs) {
        (Some(ns), Some(d), Some(ws), Some(rs)) => {
            if !relations_are_ok(block, &rs) {
                return None;
            }
            let a = decode_plain_nodes(block, &ns);
            let b = decode_dense(block, &d);
            let c = decode_ways(block, &ws);
            match (a, b, c) {
                (Some(mut a), Some(mut b), Some(c)) => {
                    a.append(&mut b);
                    Some((a, c))
                },
                _ => None,
            }
        },
        _ => None,
    }
}

/// Where the first `k` groups can be decoded, so can the first `j`.
proof fn lemma_groups_prefix(bytes: Seq<u8>, block: PbfBlock, j: int, k: int)
    requires
        0 <= j <= k,
        groups_content(bytes, block, k) is Some,
    ensures
        groups_content(bytes, block, j) is Some,
    decreases k,
{
    if j < k {
        lemma_groups_prefix(bytes, block, j, k - 1);
    }
}

/// The nodes and ways of the blob `bytes`, decoded as [`blob_nodes_and_ways`] defines it.
fn decode_blob(bytes: &[u8]) -> (res: Option<(Vec<OsmNode>, Vec<OsmWay>)>)
    ensures
        res is Some <==> blob_nodes_and_ways(bytes@) is Some,
        res matches Some(r) ==> blob_nodes_and_ways(bytes@) == Some((r.0@, ways_view(r.1@))),
{
    let block = match read_block(bytes) {
        Some(b) => b,
        None => return None,
    };
    let mut nodes: Vec<OsmNode> = Vec::new();
    let mut ways: Vec<OsmWay> = Vec::new();
    assert(ways_view(ways@) =~= Seq::empty());
    for g in 0..block.group_count
        invariant
            block_content(bytes@) == Some(block),
            groups_content(bytes@, block, g as int) == Some((nodes@, ways_view(ways@))),
    {
        match decode_group(bytes, &block, g) {
            Some((mut a, mut c)) => {
                let ghost (n0, w0, a0, c0) = (nodes@, ways@, a@, c@);
                nodes.append(&mut a);
                ways.append(&mut c);
                proof {
                    lemma_ways_view_add(w0, c0);
                }
            },
            None => {
                proof {
                    if groups_content(bytes@, block, block.group_count as int) is Some {
                        lemma_groups_prefix(bytes@, block, g as int + 1, block.group_count as int);
                    }
                }
                return None;
            },
        }
    }
    Some((nodes, ways))
}

/// The error for data that is not PBF data as [`pbf_content`] reads it.
fn invalid_data() -> (e: ImportError)
    ensures
        e is InvalidFormat,
{
    ImportError::InvalidFormat("the data is not valid PBF data".to_string())
}

/// Reads the nodes and ways of PBF data, as [`pbf_content`] defines them: `Ok` exactly where
/// the framing, every header, blob and block can be read and every string index, running sum and
/// coordinate stays in range; the error otherwise is `InvalidFormat`.
pub fn read_map(bytes: &[u8]) -> (res: Result<(Vec<OsmNode>, Vec<OsmWay>), ImportError>)
    ensures
        res is Ok <==> pbf_content(bytes@) is Some,
        res matches Ok(r) ==> pbf_content(bytes@) == Some((r.0@, ways_view(r.1@))),
        res matches Err(e) ==> e is InvalidFormat,
{
    let mut nodes: Vec<OsmNode> = Vec::new();
    let mut ways: Vec<OsmWay> = Vec::new();
    let osm_data: Vec<u8> = vec![79, 83, 77, 68, 97, 116, 97];
    assert(osm_data@ =~= osm_data_type());
    let mut pos: usize = 0;
    proof {
        assert(ways_view(ways@) =~= Seq::empty());
        assert(bytes@.subrange(0, bytes@.len() as int) =~= bytes@);
        let p = pbf_content(bytes@);
        if let Some(z) = p {
            assert(Seq::<OsmNode>::empty() + z.0 =~= z.0);
            assert(ways_view(ways@) + z.1 =~= z.1);
        }
    }
    while bytes.len() - pos >= 4
        invariant
            pos <= bytes@.len(),
            osm_data@ == osm_data_type(),
            pbf_content(bytes@) == join(
                Some((nodes@, ways_view(ways@))),
                pbf_content(bytes@.subrange(pos as int, bytes@.len() as int)),
            ),
        decreases bytes@.len() - pos,
    {
        let ghost rest = bytes@.subrange(pos as int, bytes@.len() as int);
        let size: u64 = bytes[pos] as u64 * 16777216 + bytes[pos + 1] as u64 * 65536 + bytes[pos + 2] as u64 * 256
            + bytes[pos + 3] as u64;
        assert(size == be_u32(rest));
        let left = bytes.len() - pos;
        if size > 65536 || 4 + size > left as u64 {
            return Err(invalid_data());
        }
        let size = size as usize;
        let header = vstd::slice::slice_subrange(bytes, pos + 4, pos + 4 + size);
        assert(header@ =~= rest.subrange(4, 4 + size));
        let (kind, data_size) = match read_blob_header(header) {
            Some(h) => h,
            None => return Err(invalid_data()),
        };
        if data_size < 0 || (4 + size) as u64 + data_size as u64 > left as u64 {
            return Err(invalid_data());
        }
        let start = pos + 4 + size;
        let end = start + data_size as usize;
        let blob = vstd::slice::slice_subrange(bytes, start, end);
        assert(blob@ =~= rest.subrange(4 + size, 4 + size + data_size));
        assert(bytes@.subrange(end as int, bytes@.len() as int) =~= rest.subrange(
            4 + size + data_size,
            rest.len() as int,
        ));
        if !blob_is_readable(blob) {
            return Err(invalid_data());
        }
        if same_bytes(&kind, &osm_data) {
            match decode_blob(blob) {
                Some((mut a, mut c)) => {
                    let ghost (n0, w0, a0, c0) = (nodes@, ways@, a@, c@);
                    proof {
                        lemma_join_assoc(
                            (n0, ways_view(w0)),
                            (a0, ways_view(c0)),
                            pbf_content(bytes@.subrange(end as int, bytes@.len() as int)),
                        );
                        lemma_ways_view_add(w0, c0);
                    }
                    nodes.append(&mut a);
                    ways.append(&mut c);
                },
                None => return Err(invalid_data()),
            }
        }
        pos = end;
    }
    proof {
        let rest = bytes@.subrange(pos as int, bytes@.len() as int);
        assert(pbf_content(rest) == Some((Seq::<OsmNode>::empty(), Seq::<(Seq<i64>, Option<Seq<u8>>)>::empty())));
        assert(nodes@ + Seq::<OsmNode>::empty() =~= nodes@);
        assert(ways_view(ways@) + Seq::<(Seq<i64>, Option<Seq<u8>>)>::empty() =~= ways_view(ways@));
    }
    Ok((nodes, ways))
}

/// The number of hops of all ways; `None` where it leaves no room for the contraction's counting.
fn checked_hop_count(ways: &[OsmWay]) -> (res: Option<usize>)
    ensures
        res is Some <==> hops_of(way_lists(ways@)).len() + 1 < usize::MAX,
        res matches Some(c) ==> c == hops_of(way_lists(ways@)).len(),
{
    let ghost lists = way_lists(ways@);
    let mut count: usize = 0;
    assert(lists.take(0) =~= Seq::<Seq<i64>>::empty());
    for w in 0..ways.len()
        invariant
            lists == way_lists(ways@),
            lists.len() == ways@.len(),
            count == hops_of(lists.take(w as int)).len(),
            count + 1 < usize::MAX,
    {
        proof {
            lemma_hops_take(lists, w as int);
        }
        assert(lists[w as int] == ways@[w as int].nodes@);
        let len = ways[w].nodes.len();
        let add: usize = if len == 0 {
            0
        } else {
            len - 1
        };
        if add >= usize::MAX - 1 - count {
            proof {
                lemma_hops_take_len(lists, w as int + 1);
            }
            return None;
        }
        count = count + add;
    }
    assert(lists.take(ways@.len() as int) =~= lists);
    Some(count)
}

/// Whether every way passes only nodes of the map.
fn check_ways_known(nodes: &[OsmNode], ways: &[OsmWay]) -> (ok: bool)
    ensures
        ok == ways_known(nodes@, ways@),
{
    let sorted = sorted_nodes(nodes);
    let ghost table = node_table(nodes@);
    for w in 0..ways.len()
        invariant
            lists_table(sorted@, table),
            table == node_table(nodes@),
            forall|v: int, k: int|
                0 <= v < w && 0 <= k < ways@[v].nodes@.len() ==> table.contains_key(#[trigger] ways@[v].nodes@[k]),
    {
        let way = &ways[w];
        for k in 0..way.nodes.len()
            invariant
                lists_table(sorted@, table),
                table == node_table(nodes@),
                w < ways@.len(),
                *way == ways@[w as int],
                forall|v: int, k2: int|
                    0 <= v < w && 0 <= k2 < ways@[v].nodes@.len() ==> table.contains_key(#[trigger] ways@[v].nodes@[k2]),
                forall|k2: int| 0 <= k2 < k ==> table.contains_key(#[trigger] ways@[w as int].nodes@[k2]),
        {
            let id = way.nodes[k];
            match find_id(sorted.as_slice(), id) {
                Ok(_) => {},
                Err(_) => {
                    proof {
                        if table.contains_key(id) {
                            let j = choose|j: int| 0 <= j < sorted@.len() && #[trigger] sorted@[j].id == id;
                            assert(sorted@[j].id == id);
                        }
                        assert(!table.contains_key(ways@[w as int].nodes@[k as int]));
                        assert(0 <= k < ways@[w as int].nodes@.len());
                    }
                    return false;
                },
            }
        }
    }
    true
}

/// Contracts the road network of a map, as [`contract_network`] does; `InvalidFormat` where a way
/// passes a node that the map does not hold, or where the ways have too many hops to count.
pub fn contract_map(nodes: &[OsmNode], ways: &[OsmWay]) -> (res: Result<ContractedNetwork, ImportError>)
    ensures
        res is Ok <==> ways_known(nodes@, ways@) && hops_of(way_lists(ways@)).len() + 1 < usize::MAX,
        res matches Ok(net) ==> is_contraction(nodes@, ways@, net),
        res matches Err(e) ==> e is InvalidFormat,
{
    if !check_ways_known(nodes, ways) {
        return Err(ImportError::InvalidFormat("a way passes a node that the map does not hold".to_string()));
    }
    if checked_hop_count(ways).is_none() {
        return Err(ImportError::InvalidFormat("the ways have too many hops".to_string()));
    }
    Ok(contract_network(nodes, ways))
}

} // verus!
