use ballotchain::text::decimal_string;
use ballotchain::bytes::{difficulty_bytes_as_u128, u128_bytes, u32_bytes, u64_bytes};

#[test]
fn u32_bytes_are_little_endian() {
    assert_eq!(u32_bytes(&0x0102_0304), vec![4, 3, 2, 1]);
    assert_eq!(u32_bytes(&0), vec![0, 0, 0, 0]);
    assert_eq!(u32_bytes(&u32::MAX), vec![255, 255, 255, 255]);
}

#[test]
fn u64_bytes_are_little_endian() {
    assert_eq!(u64_bytes(&0x0102_0304_0506_0708), vec![8, 7, 6, 5, 4, 3, 2, 1]);
    assert_eq!(u64_bytes(&256), vec![0, 1, 0, 0, 0, 0, 0, 0]);
}

#[test]
fn u128_bytes_are_little_endian() {
    let v: u128 = 0x0102_0304_0506_0708_090a_0b0c_0d0e_0f10;
    let expected: Vec<u8> = (1..=16u8).rev().collect();
    assert_eq!(u128_bytes(&v), expected);
    assert_eq!(u128_bytes(&v), v.to_le_bytes().to_vec());
    assert_eq!(u128_bytes(&u128::MAX), vec![255; 16]);
}

#[test]
fn difficulty_reads_bytes_16_to_31() {
    let mut hash = vec![0u8; 32];
    assert_eq!(difficulty_bytes_as_u128(&hash), 0);
    hash[16] = 1;
    assert_eq!(difficulty_bytes_as_u128(&hash), 1);
    hash[31] = 0x80;
    assert_eq!(difficulty_bytes_as_u128(&hash), (0x80u128 << 120) | 1);
    // bytes before 16 do not count
    hash[0] = 0xff;
    hash[15] = 0xff;
    assert_eq!(difficulty_bytes_as_u128(&hash), (0x80u128 << 120) | 1);
    let full = vec![0xffu8; 32];
    assert_eq!(difficulty_bytes_as_u128(&full), u128::MAX);
}

#[test]
fn difficulty_ignores_bytes_after_31() {
    let mut hash = vec![0u8; 40];
    hash[32] = 7;
    hash[20] = 2;
    assert_eq!(difficulty_bytes_as_u128(&hash), 2u128 << 32);
}

#[test]
fn encoding_round_trips() {
    for v in [0u128, 1, 255, 256, 65_535, u64::MAX as u128, u128::MAX] {
        let bytes = u128_bytes(&v);
        assert_eq!(u128::from_le_bytes(bytes.try_into().unwrap()), v);
    }
}


#[test]
fn decimal_rendering() {
    assert_eq!(decimal_string(0), "0");
    assert_eq!(decimal_string(9), "9");
    assert_eq!(decimal_string(10), "10");
    assert_eq!(decimal_string(1_000_007), "1000007");
    assert_eq!(decimal_string(u128::MAX), u128::MAX.to_string());
}
