use vstd::prelude::*;

use crate::graph::NodeId;

verus! {

/// A point on the earth's surface, stored with a precision of one millionth of a degree.
#[derive(Clone, Copy, Debug, PartialEq, Eq, Structural, Hash, PartialOrd, Ord)]
pub struct GeoPoint {
    micro_lat: i64,
    micro_lon: i64,
}

impl GeoPoint {
    /// The latitude in millionths of a degree.
    pub closed spec fn spec_micro_lat(&self) -> i64 {
        self.micro_lat
    }

    /// The longitude in millionths of a degree.
    pub closed spec fn spec_micro_lon(&self) -> i64 {
        self.micro_lon
    }

    /// Creates a point from latitude and longitude given in millionths of a degree.
    pub fn from_micro_degrees(micro_lat: i64, micro_lon: i64) -> (point: Self)
        ensures
            point.spec_micro_lat() == micro_lat,
            point.spec_micro_lon() == micro_lon,
    {
        GeoPoint { micro_lat, micro_lon }
    }

    /// Returns the latitude in millionths of a degree.
    #[verifier::when_used_as_spec(spec_micro_lat)]
    pub fn micro_lat(&self) -> (lat: i64)
        ensures
            lat == self.spec_micro_lat(),
    {
        self.micro_lat
    }

    /// Returns the longitude in millionths of a degree.
    #[verifier::when_used_as_spec(spec_micro_lon)]
    pub fn micro_lon(&self) -> (lon: i64)
        ensures
            lon == self.spec_micro_lon(),
    {
        self.micro_lon
    }
}

impl NodeId for GeoPoint {
    fn same_node(&self, other: &Self) -> (same: bool) {
        self.micro_lat == other.micro_lat && self.micro_lon == other.micro_lon
    }
}

/// Two points are the same point exactly when their coordinates agree.
pub proof fn law_points_equal_by_coordinates(a: GeoPoint, b: GeoPoint)
    ensures
        (a == b) <==> (a.spec_micro_lat() == b.spec_micro_lat() && a.spec_micro_lon()
            == b.spec_micro_lon()),
{
}

} // verus!
