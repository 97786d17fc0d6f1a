use crypto_tools::utilities::ustates::Ux4;
use crypto_tools::word::StateWord;

#[test]
fn addition() {
    let a = Ux4::<u64>::new([1, 0, 0, 0]);
    let b = Ux4::<u64>::new([1, 0, 0, 0]);
    let c = Ux4::<u64>::new([2, 0, 0, 0]);
    assert!(a.wrapping_add(b) == c);
}

#[test]
fn addition_carry() {
    let a = Ux4::<u8>::new([255, 0, 0, 0]);
    let b = Ux4::<u8>::new([1, 0, 0, 0]);
    let c = Ux4::<u8>::new([0, 1, 0, 0]);
    assert!(a.wrapping_add(b) == c);
}

#[test]
fn shl() {
    let a = Ux4::<u8>::new([1, 1, 1, 1]);
    let b = Ux4::<u8>::new([2, 2, 2, 2]);

    let c = Ux4::<u8>::new([127, 127, 127, 127]);
    let d = Ux4::<u8>::new([254, 254, 254, 254]);

    let e = Ux4::<u8>::new([1, 2, 4, 8]);
    let f = Ux4::<u8>::new([16, 32, 64, 128]);

    assert!(a.shift_left(1) == b);
    assert!(c.shift_left(1) == d);
    assert!(e.shift_left(4) == f);
}

#[test]
fn shl_carry() {
    let a = Ux4::<u8>::new([255, 0, 0, 0]);
    let b = Ux4::<u8>::new([254, 1, 0, 0]);

    let c = Ux4::<u8>::new([128, 128, 128, 0]);
    let d = Ux4::<u8>::new([0, 1, 1, 1]);

    let e = Ux4::<u8>::new([255, 255, 255, 255]);
    let f = Ux4::<u8>::new([254, 255, 255, 255]);

    let g = Ux4::<u8>::new([255, 255, 255, 255]);
    let h = Ux4::<u8>::new([0, 255, 255, 255]);

    assert!(a.shift_left(1) == b);
    assert!(c.shift_left(1) == d);
    assert!(e.shift_left(1) == f);
    assert!(g.shift_left(8) == h);
}

#[test]
fn print_int() {
    let [a, b, c, d] = [0xABCD0123, 0xBCDE1234, 0xCDEF2345, 0xDEF83456];
    let test_string = format!("{} {} {} {}", a, b, c, d);

    let ux4_instance = Ux4::<u64>::new([a, b, c, d]);
    let formatted_string = ux4_instance.to_dec_string();
    assert!(formatted_string == test_string);
}

#[test]
fn print_lower_hex() {
    let [a, b, c, d] = [0xABCD0123, 0xBCDE1234, 0xCDEF2345, 0xDEF83456];
    let test_string = format!("{:x} {:x} {:x} {:x}", a, b, c, d);

    let ux4_instance = Ux4::<u64>::new([a, b, c, d]);
    let formatted_string = ux4_instance.to_lower_hex_string();
    assert!(formatted_string == test_string);
}

#[test]
fn print_upper_hex() {
    let [a, b, c, d] = [0xABCD0123, 0xBCDE1234, 0xCDEF2345, 0xDEF83456];
    let test_string = format!("{:X} {:X} {:X} {:X}", a, b, c, d);

    let ux4_instance = Ux4::<u64>::new([a, b, c, d]);
    let formatted_string = ux4_instance.to_upper_hex_string();
    assert!(formatted_string == test_string);
}

#[test]
fn print_bin() {
    let [a, b, c, d] = [0xABCD0123, 0xBCDE1234, 0xCDEF2345, 0xDEF83456];
    let test_string = format!("{:b} {:b} {:b} {:b}", a, b, c, d);

    let ux4_instance = Ux4::<u64>::new([a, b, c, d]);
    let formatted_string = ux4_instance.to_bin_string();
    assert!(formatted_string == test_string);
}

#[test]
fn shift_right_moves_limb_boundaries() {
    let a = Ux4::<u8>::new([0, 255, 255, 255]);
    let b = Ux4::<u8>::new([255, 255, 255, 0]);
    assert!(a.shift_right(8) == b);

    let c = Ux4::<u8>::new([2, 0, 0, 0]);
    let d = Ux4::<u8>::new([1, 0, 0, 0]);
    assert!(c.shift_right(1) == d);

    let e = Ux4::<u8>::new([0, 1, 0, 0]);
    let f = Ux4::<u8>::new([128, 0, 0, 0]);
    assert!(e.shift_right(1) == f);
}

#[test]
fn subtraction_undoes_addition() {
    let a = Ux4::<u8>::new([250, 3, 7, 9]);
    let b = Ux4::<u8>::new([17, 1, 0, 2]);
    let sum = a.wrapping_add(b);
    assert!(sum.wrapping_sub(b) == a);

    let zero = Ux4::<u8>::zero();
    assert!(a.wrapping_sub(a) == zero);
}

#[test]
fn bitwise_operations_are_limb_wise() {
    let a = Ux4::<u8>::new([0b1100, 0b1010, 0xFF, 0]);
    let b = Ux4::<u8>::new([0b1010, 0b1010, 0, 0xFF]);
    assert!(a.bit_and(b) == Ux4::<u8>::new([0b1000, 0b1010, 0, 0]));
    assert!(a.bit_or(b) == Ux4::<u8>::new([0b1110, 0b1010, 0xFF, 0xFF]));
    assert!(a.bit_xor(b) == Ux4::<u8>::new([0b0110, 0, 0xFF, 0xFF]));
    assert!(a.complement() == Ux4::<u8>::new([0xF3, 0xF5, 0, 0xFF]));
}

#[test]
fn get_and_set_roundtrip() {
    let mut a = Ux4::<u64>::new([4, 5, 6, 7]);
    assert_eq!(a.get(), [4, 5, 6, 7]);
    a.set([8, 9, 10, 11]);
    assert_eq!(a.get(), [8, 9, 10, 11]);
}

#[test]
fn le_bytes_little_endian_across_limbs() {
    let a = Ux4::<u8>::new([1, 2, 3, 4]);
    assert_eq!(a.le_bytes(), vec![1, 2, 3, 4]);
    let b = Ux4::<u64>::new([1, 0, 0, 0]);
    let bytes = b.le_bytes();
    assert_eq!(bytes.len(), 32);
    assert_eq!(bytes[0], 1);
    assert!(bytes[1..].iter().all(|&x| x == 0));
}
