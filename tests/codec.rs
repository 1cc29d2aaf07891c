use ouisync::codec::{decode_u64, encode_u64};

#[test]
fn decode_u64_sanity_check() {
    // [0i64,     i64::MAX] -> [0u64,             u64::MAX / 2]
    // [i64::MIN,    -1i64] -> [u64::MAX / 2 + 1,     u64::MAX]

    assert_eq!(decode_u64(0), 0);
    assert_eq!(decode_u64(1), 1);
    assert_eq!(decode_u64(-1), u64::MAX);
    assert_eq!(decode_u64(i64::MIN), u64::MAX / 2 + 1);
    assert_eq!(decode_u64(i64::MAX), u64::MAX / 2);
}

#[test]
fn encode_u64_sanity_check() {
    assert_eq!(encode_u64(0), 0);
    assert_eq!(encode_u64(1), 1);
    assert_eq!(encode_u64(u64::MAX / 2), i64::MAX);
    assert_eq!(encode_u64(u64::MAX / 2 + 1), i64::MIN);
    assert_eq!(encode_u64(u64::MAX), -1);
}

#[test]
fn codec_round_trip_on_samples() {
    for u in [0u64, 7, 1 << 40, u64::MAX / 3, u64::MAX - 1, u64::MAX] {
        assert_eq!(decode_u64(encode_u64(u)), u);
    }
    for i in [i64::MIN, -12345, -1, 0, 99, i64::MAX] {
        assert_eq!(encode_u64(decode_u64(i)), i);
    }
}
