//! Linear scaling of values and of geographic points.
use vstd::prelude::*;

use crate::geo::GeoPoint;

verus! {

/// Integer division as Rust performs it: the quotient of the magnitudes, rounded toward zero,
/// with a negative sign when exactly one operand is negative.
pub open spec fn trunc_div(a: int, b: int) -> int {
    let q = (if a >= 0 { a } else { -a }) / (if b >= 0 { b } else { -b });
    if (a >= 0) == (b > 0) || q == 0 {
        q
    } else {
        -q
    }
}

/// Dividing a magnitude by a positive magnitude gives at most the magnitude,
/// and at most half of it when the divisor is two or more.
proof fn lemma_quotient_bounds(x: int, d: int)
    requires
        x >= 0,
        d >= 1,
    ensures
        0 <= x / d <= x,
        d >= 2 ==> 2 * (x / d) <= x,
{
    assert(0 <= x / d <= x) by (nonlinear_arith)
        requires
            x >= 0,
            d >= 1,
    ;
    assert(d >= 2 ==> 2 * (x / d) <= x) by (nonlinear_arith)
        requires
            x >= 0,
            d >= 1,
    ;
}

/// Maps values linearly so that `min` goes to zero and `max` to one, in integer arithmetic.
pub struct Scaler<T> {
    pub min: T,
    pub max: T,
    diff: T,
}

impl Scaler<i64> {
    /// The lower bound, which is scaled to zero.
    pub closed spec fn lower(&self) -> i64 {
        self.min
    }

    /// The upper bound, which is scaled to one.
    pub closed spec fn upper(&self) -> i64 {
        self.max
    }

    /// The difference `max - min` that this scaler divides by.
    pub closed spec fn spec_diff(&self) -> i64 {
        self.diff
    }

    /// The stored difference agrees with the bounds.
    pub open spec fn wf(&self) -> bool {
        self.spec_diff() == self.upper() - self.lower()
    }

    /// `val` can be scaled: the divisor is not zero and no step overflows.
    pub open spec fn can_scale(&self, val: i64) -> bool {
        let x = val - self.lower();
        &&& self.spec_diff() != 0
        &&& i64::MIN <= x <= i64::MAX
        &&& !(x == i64::MIN && self.spec_diff() == -1)
    }

    /// The scaled value of `val`: `(val - min) / (max - min)`, rounded toward zero.
    pub open spec fn scaled(&self, val: i64) -> int {
        trunc_div(val - self.lower(), self.spec_diff() as int)
    }

    /// Creates a scaler for the range from `min` to `max`.
    pub fn new(min: i64, max: i64) -> (s: Self)
        requires
            i64::MIN <= max - min <= i64::MAX,
        ensures
            s.lower() == min,
            s.upper() == max,
            s.wf(),
    {
        Scaler { min, max, diff: max - min }
    }

    /// Scales `val`: `(val - min) / (max - min)`, rounded toward zero.
    pub fn scale(&self, val: i64) -> (scaled: i64)
        requires
            self.can_scale(val),
        ensures
            scaled == self.scaled(val),
    {
        let x: i128 = (val - self.min) as i128;
        let d: i128 = self.diff as i128;
        let ax: i128 = if x >= 0 { x } else { -x };
        let ad: i128 = if d >= 0 { d } else { -d };
        proof {
            lemma_quotient_bounds(ax as int, ad as int);
        }
        let q: i128 = ax / ad;
        let signed: i128 = if (x >= 0) == (d > 0) || q == 0 { q } else { -q };
        signed as i64
    }
}

/// Scales the latitude and the longitude of points, each with a scaler of its own.
pub struct GeoPointScaler {
    pub lat_scaler: Scaler<i64>,
    pub lon_scaler: Scaler<i64>,
}

/// The largest latitude among `points` and zero.
pub open spec fn max_lat(points: Seq<GeoPoint>) -> i64
    decreases points.len(),
{
    if points.len() == 0 {
        0
    } else {
        let rest = max_lat(points.drop_last());
        let v = points.last().spec_micro_lat();
        if rest >= v { rest } else { v }
    }
}

/// The largest longitude among `points` and zero.
pub open spec fn max_lon(points: Seq<GeoPoint>) -> i64
    decreases points.len(),
{
    if points.len() == 0 {
        0
    } else {
        let rest = max_lon(points.drop_last());
        let v = points.last().spec_micro_lon();
        if rest >= v { rest } else { v }
    }
}

/// The smallest latitude among `points`, or `i64::MAX` if there are none.
pub open spec fn min_lat(points: Seq<GeoPoint>) -> i64
    decreases points.len(),
{
    if points.len() == 0 {
        i64::MAX
    } else {
        let rest = min_lat(points.drop_last());
        let v = points.last().spec_micro_lat();
        if rest <= v { rest } else { v }
    }
}

/// The smallest longitude among `points`, or `i64::MAX` if there are none.
pub open spec fn min_lon(points: Seq<GeoPoint>) -> i64
    decreases points.len(),
{
    if points.len() == 0 {
        i64::MAX
    } else {
        let rest = min_lon(points.drop_last());
        let v = points.last().spec_micro_lon();
        if rest <= v { rest } else { v }
    }
}

impl GeoPointScaler {
    /// Both scalers agree with their bounds.
    pub open spec fn wf(&self) -> bool {
        self.lat_scaler.wf() && self.lon_scaler.wf()
    }

    /// Creates a scaler from the bounds of latitude and longitude.
    pub fn new(min_lat: i64, min_lon: i64, max_lat: i64, max_lon: i64) -> (s: Self)
        requires
            i64::MIN <= max_lat - min_lat <= i64::MAX,
            i64::MIN <= max_lon - min_lon <= i64::MAX,
        ensures
            s.wf(),
            s.lat_scaler.lower() == min_lat,
            s.lat_scaler.upper() == max_lat,
            s.lon_scaler.lower() == min_lon,
            s.lon_scaler.upper() == max_lon,
    {
        GeoPointScaler { lat_scaler: Scaler::new(min_lat, max_lat), lon_scaler: Scaler::new(min_lon, max_lon) }
    }

    /// Creates a scaler from the points: the largest coordinates (at least zero) are handed on
    /// as the lower bounds and the smallest (at most `i64::MAX`) as the upper bounds,
    /// in the order in which [`GeoPointScaler::new`] takes its arguments.
    pub fn from_point_iterator(points: &[GeoPoint]) -> (s: Self)
        requires
            i64::MIN <= min_lat(points@) - max_lat(points@),
            i64::MIN <= min_lon(points@) - max_lon(points@),
        ensures
            s.wf(),
            s.lat_scaler.lower() == max_lat(points@),
            s.lon_scaler.lower() == max_lon(points@),
            s.lat_scaler.upper() == min_lat(points@),
            s.lon_scaler.upper() == min_lon(points@),
    {
        let mut extremes: (i64, i64, i64, i64) = (0, 0, i64::MAX, i64::MAX);
        for k in 0..points.len()
            invariant
                extremes == (max_lat(points@.take(k as int)), max_lon(points@.take(k as int)), min_lat(
                    points@.take(k as int),
                ), min_lon(points@.take(k as int))),
        {
            let point = points[k];
            let lat = point.micro_lat();
            let lon = point.micro_lon();
            proof {
                let pre = points@.take(k as int + 1);
                assert(pre.drop_last() =~= points@.take(k as int));
                assert(pre.last() == point);
            }
            extremes = (
                if extremes.0 >= lat { extremes.0 } else { lat },
                if extremes.1 >= lon { extremes.1 } else { lon },
                if extremes.2 <= lat { extremes.2 } else { lat },
                if extremes.3 <= lon { extremes.3 } else { lon },
            );
        }
        assert(points@.take(points@.len() as int) =~= points@);
        proof {
            lemma_min_le_max_lat(points@);
            lemma_min_le_max_lon(points@);
        }
        GeoPointScaler::new(extremes.0, extremes.1, extremes.2, extremes.3)
    }

    /// `point` can be scaled in both coordinates.
    pub open spec fn can_scale_point(&self, point: GeoPoint) -> bool {
        self.lat_scaler.can_scale(point.spec_micro_lat()) && self.lon_scaler.can_scale(
            point.spec_micro_lon(),
        )
    }

    /// Scales both coordinates of a point.
    pub fn scale_point(&self, point: &GeoPoint) -> (scaled: GeoPoint)
        requires
            self.can_scale_point(*point),
        ensures
            scaled.spec_micro_lat() == self.lat_scaler.scaled(point.spec_micro_lat()),
            scaled.spec_micro_lon() == self.lon_scaler.scaled(point.spec_micro_lon()),
    {
        GeoPoint::from_micro_degrees(
            self.lat_scaler.scale(point.micro_lat()),
            self.lon_scaler.scale(point.micro_lon()),
        )
    }
}

/// Over a nonempty list the smallest latitude is at most the largest.
proof fn lemma_min_le_max_lat(points: Seq<GeoPoint>)
    ensures
        points.len() > 0 ==> min_lat(points) <= max_lat(points),
        min_lat(points) - max_lat(points) <= i64::MAX,
    decreases points.len(),
{
    if points.len() > 0 {
        lemma_min_le_max_lat(points.drop_last());
    }
}

/// Over a nonempty list the smallest longitude is at most the largest.
proof fn lemma_min_le_max_lon(points: Seq<GeoPoint>)
    ensures
        points.len() > 0 ==> min_lon(points) <= max_lon(points),
        min_lon(points) - max_lon(points) <= i64::MAX,
    decreases points.len(),
{
    if points.len() > 0 {
        lemma_min_le_max_lon(points.drop_last());
    }
}

/// A scaler whose upper bound lies above its lower bound keeps the order of values:
/// a smaller value never scales to more than a larger one.
pub proof fn law_scaling_keeps_order(s: Scaler<i64>, a: i64, b: i64)
    requires
        s.wf(),
        s.lower() < s.upper(),
        a <= b,
    ensures
        s.scaled(a) <= s.scaled(b),
{
    let d = s.spec_diff() as int;
    let x1 = a - s.lower();
    let x2 = b - s.lower();
    if x1 >= 0 {
        vstd::arithmetic::div_mod::lemma_div_is_ordered(x1, x2, d);
    } else if x2 >= 0 {
        lemma_quotient_bounds(-x1, d);
        lemma_quotient_bounds(x2, d);
    } else {
        vstd::arithmetic::div_mod::lemma_div_is_ordered(-x2, -x1, d);
        lemma_quotient_bounds(-x2, d);
    }
}

/// A scaler maps its lower bound to zero and its upper bound to one.
pub proof fn law_bounds_scale_to_zero_and_one(s: Scaler<i64>)
    requires
        s.wf(),
        s.spec_diff() != 0,
    ensures
        s.scaled(s.lower()) == 0,
        s.scaled(s.upper()) == 1,
{
    let d = s.spec_diff() as int;
    let ad = if d >= 0 { d } else { -d };
    assert(0int / ad == 0) by (nonlinear_arith)
        requires
            ad > 0,
    ;
    assert(ad / ad == 1) by (nonlinear_arith)
        requires
            ad > 0,
    ;
}

} // verus!
