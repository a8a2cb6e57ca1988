use geocab::codec::{from_fixed, to_fixed, Fixed128};
use substrate_fixed::types::I64F64;

#[test]
fn test_num() {
    let n = 51_i128 << 64;
    assert_eq!(940783947759187132416, n)
}

#[test]
fn to_fixed_keeps_the_bit_pattern() {
    assert_eq!(to_fixed(940783947759187132416).bits, 51_i128 << 64);
    assert_eq!(to_fixed(0).bits, 0);
    assert_eq!(to_fixed(1).bits, 1);
    assert_eq!(to_fixed(-1).bits, -1);
    assert_eq!(to_fixed(i128::MIN).bits, i128::MIN);
    assert_eq!(to_fixed(i128::MAX).bits, i128::MAX);
}

#[test]
fn decoding_undoes_encoding() {
    for x in [0, 1, -1, 51 << 64, -(51 << 64), i128::MAX, i128::MIN, 0x0123_4567_89ab_cdef] {
        assert_eq!(from_fixed(to_fixed(x)), x);
        assert_eq!(to_fixed(from_fixed(Fixed128 { bits: x })), Fixed128 { bits: x });
    }
}

#[test]
fn fixed_point_bytes_are_big_endian() {
    let mut fifty_one = [0u8; 16];
    fifty_one[7] = 51;
    assert_eq!(Fixed128::from_be_bytes(fifty_one).bits, 51_i128 << 64);
    assert_eq!(to_fixed(51 << 64).to_be_bytes(), fifty_one);

    let mut one = [0u8; 16];
    one[15] = 1;
    assert_eq!(Fixed128::from_be_bytes(one).bits, 1);
    assert_eq!(Fixed128 { bits: 1 }.to_be_bytes(), one);

    assert_eq!(Fixed128::from_be_bytes([0xff; 16]).bits, -1);
    assert_eq!(Fixed128 { bits: -1 }.to_be_bytes(), [0xff; 16]);

    let mut lowest = [0u8; 16];
    lowest[0] = 0x80;
    assert_eq!(Fixed128::from_be_bytes(lowest).bits, i128::MIN);
    assert_eq!(Fixed128 { bits: i128::MIN }.to_be_bytes(), lowest);

    let counting = [1, 2, 3, 4, 5, 6, 7, 8, 9, 10, 11, 12, 13, 14, 15, 16];
    assert_eq!(
        Fixed128::from_be_bytes(counting).bits,
        0x0102_0304_0506_0708_090a_0b0c_0d0e_0f10
    );
    assert_eq!(Fixed128::from_be_bytes(counting).to_be_bytes(), counting);
}

#[test]
fn the_fixed_point_number_agrees_with_the_fixed_point_crate() {
    let half = I64F64::from_num(1) / I64F64::from_num(2);
    assert_eq!(to_fixed(1 << 63).bits, half.to_bits());
    assert_eq!(to_fixed(-(3 << 63)).bits, (half * I64F64::from_num(-3)).to_bits());
}
