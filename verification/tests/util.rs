use orienteering::util::{Max, Min, One, SmallVal, Zero};

#[test]
fn bounds_are_the_type_limits() {
    assert_eq!(<usize as Min>::min(), 0);
    assert_eq!(<usize as Max>::max(), usize::MAX);
    assert_eq!(<i64 as Min>::min(), i64::MIN);
    assert_eq!(<i64 as Max>::max(), i64::MAX);
    assert_eq!(<i32 as Min>::min(), i32::MIN);
    assert_eq!(<i32 as Max>::max(), i32::MAX);
}

#[test]
fn unit_values() {
    assert_eq!(<usize as SmallVal>::small(), 1);
    assert_eq!(<u32 as SmallVal>::small(), 1);
    assert_eq!(<u64 as SmallVal>::small(), 1);
    assert_eq!(<i32 as SmallVal>::small(), 1);
    assert_eq!(<i64 as SmallVal>::small(), 1);
    assert_eq!(<usize as One>::one(), 1);
    assert_eq!(<u64 as One>::one(), 1);
    assert_eq!(<i64 as One>::one(), 1);
    assert_eq!(<usize as Zero>::zero(), 0);
    assert_eq!(<u64 as Zero>::zero(), 0);
    assert_eq!(<i64 as Zero>::zero(), 0);
}
