use physics::color::Rgb;
use physics::identity::{key_from_halves, key_into_halves, uuid_to_key};
use uuid::Uuid;

#[test]
fn key_is_the_value_of_the_uuid() {
    let value = 0xa1a2a3a4_b1b2_c1c2_d1d2_d3d4d5d6d7d8u128;
    assert_eq!(uuid_to_key(Uuid::from_u128(value)), value);
    assert_eq!(uuid_to_key(Uuid::nil()), 0);
}

#[test]
fn key_follows_the_bytes_of_the_uuid() {
    let id = Uuid::from_bytes([1, 0, 0, 0, 0, 0, 0, 0, 0, 0, 0, 0, 0, 0, 0, 2]);
    assert_eq!(uuid_to_key(id), (1u128 << 120) | 2);
}

#[test]
fn first_half_is_the_low_half() {
    assert_eq!(key_from_halves(1, 2), 0x2_0000_0000_0000_0001);
    assert_eq!(key_from_halves(u64::MAX, 0), u64::MAX as u128);
    assert_eq!(key_from_halves(0, 1), 1u128 << 64);
    assert_eq!(key_from_halves(u64::MAX, u64::MAX), u128::MAX);
}

#[test]
fn splitting_gives_low_half_first() {
    assert_eq!(key_into_halves(0x2_0000_0000_0000_0001), (1, 2));
    assert_eq!(key_into_halves(0), (0, 0));
    assert_eq!(key_into_halves(u128::MAX), (u64::MAX, u64::MAX));
}

#[test]
fn halves_round_trip() {
    for (low, high) in [(0u64, 0u64), (7, 9), (u64::MAX, 3), (0xdead_beef, u64::MAX)] {
        assert_eq!(key_into_halves(key_from_halves(low, high)), (low, high));
    }
    let key = 0x0123_4567_89ab_cdef_fedc_ba98_7654_3210u128;
    let (low, high) = key_into_halves(key);
    assert_eq!(key_from_halves(low, high), key);
}

#[test]
fn rgb_keeps_its_channels() {
    let color = Rgb::new(1, 2, 3);
    assert_eq!((color.red, color.green, color.blue), (1, 2, 3));
    assert_eq!(color, Rgb { red: 1, green: 2, blue: 3 });
}
