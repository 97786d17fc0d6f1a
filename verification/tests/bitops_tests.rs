use crypto_tools::utilities::bitops::{bits_to_bytes, urot};
use crypto_tools::utilities::ToLeBytes;

#[test]
fn urot_rotates_bits_around() {
    assert_eq!(urot(1u64, 1), 2);
    assert_eq!(urot(0x8000000000000000u64, 1), 1);
    assert_eq!(urot(0x0123456789ABCDEFu64, 8), 0x23456789ABCDEF01);
    assert_eq!(urot(1u8, 7), 0x80);
    assert_eq!(urot(0x80u8, 1), 1);
    assert_eq!(urot(0x00010000u32, 16), 1);
}

#[test]
fn bits_to_bytes_packs_lsb_first() {
    assert_eq!(bits_to_bytes(&[]), Vec::<u8>::new());
    assert_eq!(bits_to_bytes(&[1, 0, 0, 0, 0, 0, 0, 0]), vec![1]);
    assert_eq!(bits_to_bytes(&[0, 0, 0, 0, 0, 0, 0, 1]), vec![128]);
    assert_eq!(bits_to_bytes(&[1, 1, 1, 1, 1, 1, 1, 1, 1]), vec![255, 1]);
    assert_eq!(bits_to_bytes(&[0, 1, 1]), vec![6]);
}

#[test]
fn to_le_bytes_is_little_endian() {
    assert_eq!(ToLeBytes::to_le_bytes(&0xABu8), vec![0xAB]);
    assert_eq!(ToLeBytes::to_le_bytes(&0x0102u16), vec![2, 1]);
    assert_eq!(ToLeBytes::to_le_bytes(&0x01020304u32), vec![4, 3, 2, 1]);
    assert_eq!(
        ToLeBytes::to_le_bytes(&0x0102030405060708u64),
        vec![8, 7, 6, 5, 4, 3, 2, 1]
    );
    let u128_bytes = ToLeBytes::to_le_bytes(&1u128);
    assert_eq!(u128_bytes.len(), 16);
    assert_eq!(u128_bytes[0], 1);
    assert!(u128_bytes[1..].iter().all(|&x| x == 0));
    let usize_bytes = ToLeBytes::to_le_bytes(&0x0201usize);
    assert_eq!(usize_bytes[0], 1);
    assert_eq!(usize_bytes[1], 2);
    assert!(usize_bytes[2..].iter().all(|&x| x == 0));
}
