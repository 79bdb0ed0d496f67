use cykusz_kernel::net::util::checksum::{calc_checksum, make, make_combine};
use cykusz_kernel::net::util::{NetU16, NetU32, NetU8};

#[test]
fn net_u16_roundtrip() {
    let v = NetU16::new(0x1234);
    assert_eq!(v.net_value(), 0x3412);
    assert_eq!(v.value(), 0x1234);
    assert_eq!(v.to_bytes(), [0x12, 0x34]);
}

#[test]
fn net_u32_roundtrip() {
    let v = NetU32::new(0x1234_5678);
    assert_eq!(v.net_value(), 0x7856_3412);
    assert_eq!(v.value(), 0x1234_5678);
}

#[test]
fn net_u8_is_unchanged() {
    let v = NetU8::new(0x45);
    assert_eq!(v.value(), 0x45);
    assert_eq!(v.net_value(), 0x45);
}

#[test]
fn checksum_of_rfc1071_example() {
    // RFC 1071 example: 00 01 f2 03 f4 f5 f6 f7 sums to 0x2ddf0, folds to 0xddf2.
    let data = [0x00u8, 0x01, 0xf2, 0x03, 0xf4, 0xf5, 0xf6, 0xf7];
    let sum = calc_checksum(&data);
    assert_eq!(sum, 0x2ddf0);
    assert_eq!(make(sum).value(), !0xddf2u16);
}

#[test]
fn checksum_odd_length_pads_high_byte() {
    let data = [0x01u8, 0x02, 0x03];
    assert_eq!(calc_checksum(&data), 0x0102 + 0x0300);
}

#[test]
fn make_combine_adds_parts() {
    assert_eq!(make_combine(&[0x1_0000, 0xffff]).value(), make(0x1_ffff).value());
    assert_eq!(make(0x1_ffff).value(), !0x0001u16);
}
