use orienteering::geo::GeoPoint;
use orienteering::util::{GeoPointScaler, Scaler};

#[test]
fn scaler_maps_bounds_to_zero_and_one() {
    let scaler = Scaler::new(10, 110);

    assert_eq!(scaler.min, 10);
    assert_eq!(scaler.max, 110);
    assert_eq!(scaler.scale(10), 0);
    assert_eq!(scaler.scale(110), 1);
    assert_eq!(scaler.scale(60), 0);
    assert_eq!(scaler.scale(210), 2);
}

#[test]
fn scaler_rounds_toward_zero() {
    let scaler = Scaler::new(10, 0);

    assert_eq!(scaler.scale(-15), 2);
    assert_eq!(scaler.scale(45), -3);
    assert_eq!(scaler.scale(10), 0);
    assert_eq!(scaler.scale(0), 1);

    let scaler = Scaler::new(0, 2);
    assert_eq!(scaler.scale(-7), -3);
    assert_eq!(scaler.scale(7), 3);
}

#[test]
fn scaler_agrees_with_integer_division() {
    for (min, max) in [(0i64, 7i64), (-3, 4), (5, -9), (100, 99)] {
        let scaler = Scaler::new(min, max);
        for val in -20i64..20 {
            assert_eq!(scaler.scale(val), (val - min) / (max - min));
        }
    }
}

#[test]
fn geopoint_scaler_scales_both_coordinates() {
    let scaler = GeoPointScaler::new(0, 100, 10, 200);
    let point = scaler.scale_point(&GeoPoint::from_micro_degrees(25, 250));

    assert_eq!(point.micro_lat(), 2);
    assert_eq!(point.micro_lon(), 1);
}

#[test]
fn geopoint_scaler_from_points_hands_extremes_on_in_order() {
    let points = vec![
        GeoPoint::from_micro_degrees(5, 20),
        GeoPoint::from_micro_degrees(-3, 40),
        GeoPoint::from_micro_degrees(8, 30),
    ];
    let scaler = GeoPointScaler::from_point_iterator(&points);

    // The largest coordinates (and zero) become the lower bounds, the smallest the upper ones.
    assert_eq!(scaler.lat_scaler.min, 8);
    assert_eq!(scaler.lat_scaler.max, -3);
    assert_eq!(scaler.lon_scaler.min, 40);
    assert_eq!(scaler.lon_scaler.max, 20);

    let scaled = scaler.scale_point(&GeoPoint::from_micro_degrees(-3, 20));
    assert_eq!(scaled.micro_lat(), 1);
    assert_eq!(scaled.micro_lon(), 1);
}

#[test]
fn geopoint_scaler_from_no_points() {
    let scaler = GeoPointScaler::from_point_iterator(&[]);

    assert_eq!(scaler.lat_scaler.min, 0);
    assert_eq!(scaler.lat_scaler.max, i64::MAX);
    assert_eq!(scaler.lon_scaler.min, 0);
    assert_eq!(scaler.lon_scaler.max, i64::MAX);
}

#[test]
fn geopoint_scaler_maximum_starts_at_zero() {
    let points = vec![GeoPoint::from_micro_degrees(-5, -7), GeoPoint::from_micro_degrees(-2, -9)];
    let scaler = GeoPointScaler::from_point_iterator(&points);

    assert_eq!(scaler.lat_scaler.min, 0);
    assert_eq!(scaler.lat_scaler.max, -5);
    assert_eq!(scaler.lon_scaler.min, 0);
    assert_eq!(scaler.lon_scaler.max, -9);
}
