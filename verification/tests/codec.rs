//! Byte codec tests: round trips and exact little-endian layout.

use froggi::{deserialize_bytes, deserialize_four_bytes, serialize_to_bytes,
    serialize_to_four_bytes};

#[test]
fn u16_round_trip() {
    for n in [0usize, 1, 0x7f, 0x80, 0xff, 0x100, 0x1234, 0xfffe, 0xffff] {
        let (low, high) = serialize_to_bytes(n);
        assert_eq!(deserialize_bytes(&[low, high]), n);
    }
}

#[test]
fn u32_round_trip() {
    for n in [0usize, 1, 0xff, 0x100, 0x1020304, 0xffff_fffe, 0xffff_ffff] {
        let bytes = serialize_to_four_bytes(n);
        assert_eq!(deserialize_four_bytes(&bytes), n);
    }
}

#[test]
fn endianness() {
    assert_eq!(serialize_to_bytes(0x1234), (0x34, 0x12));
    assert_eq!(serialize_to_four_bytes(0x01020304), [0x04, 0x03, 0x02, 0x01]);
}

#[test]
fn decode_values() {
    assert_eq!(deserialize_bytes(&[0x34, 0x12]), 0x1234);
    assert_eq!(deserialize_four_bytes(&[4, 3, 2, 1]), 0x01020304);
}
