use molecule_wire::number::{pack_number, unpack_number, HEADER_SIZE, NUMBER_SIZE};

#[test]
fn number_is_four_little_endian_bytes() {
    assert_eq!(NUMBER_SIZE, 4);
    assert_eq!(HEADER_SIZE, 4);
    assert_eq!(pack_number(0x0403_0201), vec![1u8, 2, 3, 4]);
    assert_eq!(unpack_number(&[1, 2, 3, 4]), 0x0403_0201);
    assert_eq!(pack_number(4), vec![4u8, 0, 0, 0]);
}
