use orienteering::rng::{os_random_seed, u128_from_le_bytes};

#[test]
fn little_endian_bytes_are_read_like_std() {
    let samples: [[u8; 16]; 4] = [
        [0; 16],
        [255; 16],
        [1, 0, 0, 0, 0, 0, 0, 0, 0, 0, 0, 0, 0, 0, 0, 0],
        [1, 2, 3, 4, 5, 6, 7, 8, 9, 10, 11, 12, 13, 14, 15, 16],
    ];
    for bytes in samples.iter() {
        assert_eq!(u128_from_le_bytes(*bytes), u128::from_le_bytes(*bytes));
    }
    assert_eq!(u128_from_le_bytes([255; 16]), u128::MAX);
    let mut high = [0u8; 16];
    high[15] = 1;
    assert_eq!(u128_from_le_bytes(high), 1u128 << 120);
}

#[test]
fn os_random_seeds_differ() {
    let a = os_random_seed();
    let b = os_random_seed();
    let c = os_random_seed();

    assert!(a != b || b != c, "three random seeds should not all be equal");
}
