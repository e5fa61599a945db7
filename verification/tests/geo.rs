use orienteering::geo::GeoPoint;

#[test]
fn from_micro_degrees_works() {
    let point = GeoPoint::from_micro_degrees(12345000, 54321000);

    assert_eq!(point.micro_lat(), 12345000);
    assert_eq!(point.micro_lon(), 54321000);
}

#[test]
fn from_rads_works() {}

#[test]
fn micro_lat_works() {
    let point = GeoPoint::from_micro_degrees(12345000, 54321000);

    assert_eq!(point.micro_lat(), 12345000);
}

#[test]
fn micro_lon_works() {
    let point = GeoPoint::from_micro_degrees(12345000, 54321000);

    assert_eq!(point.micro_lon(), 54321000);
}

#[test]
fn points_are_equal_exactly_when_coordinates_are() {
    let a = GeoPoint::from_micro_degrees(-5, 7);
    let b = GeoPoint::from_micro_degrees(-5, 7);
    let c = GeoPoint::from_micro_degrees(-5, 8);

    assert_eq!(a, b);
    assert_ne!(a, c);
    assert!(a < c);
}

#[test]
fn extreme_coordinates_are_kept() {
    let point = GeoPoint::from_micro_degrees(i64::MIN, i64::MAX);

    assert_eq!(point.micro_lat(), i64::MIN);
    assert_eq!(point.micro_lon(), i64::MAX);
}
