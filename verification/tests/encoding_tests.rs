use turbostroi::encoding::{decode_le, encode_le};

#[test]
fn encode_le_exact_bytes() {
    assert_eq!(encode_le(0x1234_5678, 4), vec![0x78, 0x56, 0x34, 0x12]);
    assert_eq!(encode_le(0x1234_5678, 2), vec![0x78, 0x56]);
    assert_eq!(encode_le(0xff, 1), vec![0xff]);
    assert_eq!(encode_le(7, 0), Vec::<u8>::new());
}

#[test]
fn decode_le_exact_value() {
    assert_eq!(decode_le(&vec![0x78, 0x56, 0x34, 0x12]), 0x1234_5678);
    assert_eq!(decode_le(&vec![0x01, 0x02]), 0x0201);
    assert_eq!(decode_le(&vec![]), 0);
    assert_eq!(decode_le(&vec![0xff, 0xff, 0xff, 0xff]), u32::MAX);
}

#[test]
fn encode_then_decode_round_trip() {
    for v in [0u32, 1, 255, 256, 65535, 65536, 0xdead_beef, u32::MAX] {
        assert_eq!(decode_le(&encode_le(v, 4)), v);
    }
    assert_eq!(decode_le(&encode_le(0x1_2345, 2)), 0x2345);
}
