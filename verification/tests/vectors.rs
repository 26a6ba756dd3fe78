use molecule_wire::dynvec::{DynVecBuilder, DynVecReader};
use molecule_wire::error::VerificationError;
use molecule_wire::fixvec::{FixVecBuilder, FixVecReader};
use molecule_wire::schema::{Array, DynVec, FixVec, TypeDesc};

fn word() -> Array {
    Array::new("word", TypeDesc::Byte, 4).unwrap()
}

fn words() -> FixVec {
    FixVec::new("words", TypeDesc::Array(word())).unwrap()
}

fn bytes() -> FixVec {
    FixVec::new("bytes", TypeDesc::Byte).unwrap()
}

fn bytes_vec() -> DynVec {
    DynVec::new("bytes_vec", TypeDesc::FixVec(bytes()))
}

fn header_is_broken(name: &str, expected: u64, actual: u64) -> VerificationError {
    VerificationError::HeaderIsBroken { name: name.to_string(), expected, actual }
}

fn total_size_not_match(name: &str, expected: u64, actual: u64) -> VerificationError {
    VerificationError::TotalSizeNotMatch { name: name.to_string(), expected, actual }
}

fn offsets_not_match(name: &str) -> VerificationError {
    VerificationError::OffsetsNotMatch { name: name.to_string() }
}

#[test]
fn fixvec_without_items_is_its_count_alone() {
    let desc = words();
    let built = FixVecBuilder::new(&desc).build();
    assert_eq!(built, vec![0u8, 0, 0, 0]);
    assert_eq!(built.len(), 4);
    let reader = FixVecReader::from_slice(&desc, &built, false).unwrap();
    assert_eq!(reader.len(), 0);
    assert_eq!(reader.item_count(), 0);
    assert!(reader.is_empty());
    assert_eq!(reader.total_size(), 4);
}

#[test]
fn fixvec_that_announces_items_it_does_not_hold_is_refused() {
    let desc = words();
    let err = FixVecReader::from_slice(&desc, &[4, 0, 0, 0], false).err().unwrap();
    assert_eq!(err, total_size_not_match("Words", 20, 4));
    let err = FixVecReader::from_slice(&desc, &[0, 0, 0, 0, 0], false).err().unwrap();
    assert_eq!(err, total_size_not_match("Words", 4, 5));
}

#[test]
fn fixvec_with_three_items() {
    let desc = words();
    let mut builder = FixVecBuilder::new(&desc);
    assert!(builder.push(&[1, 2, 3, 4]));
    assert!(builder.push(&[5, 6, 7, 8]));
    assert!(builder.push(&[9, 10, 11, 12]));
    let built = builder.build();
    assert_eq!(built, vec![3, 0, 0, 0, 1, 2, 3, 4, 5, 6, 7, 8, 9, 10, 11, 12]);
    let reader = FixVecReader::from_slice(&desc, &built, true).unwrap();
    assert_eq!(reader.len(), 3);
    assert!(!reader.is_empty());
    assert_eq!(reader.total_size(), 16);
    assert_eq!(reader.get(0), &[1, 2, 3, 4]);
    assert_eq!(reader.get(2), &[9, 10, 11, 12]);
    assert_eq!(reader.raw_data(), None);
    let err = FixVecReader::from_slice(&desc, &built[..14], true).err().unwrap();
    assert_eq!(err, total_size_not_match("Words", 16, 14));
}

#[test]
fn fixvec_get_past_the_end_is_empty() {
    let desc = words();
    let encoded = [1u8, 0, 0, 0, 9, 9, 9, 9];
    let reader = FixVecReader::from_slice(&desc, &encoded, false).unwrap();
    assert_eq!(reader.get(1), &[] as &[u8]);
    assert_eq!(reader.get(usize::MAX), &[] as &[u8]);
}

#[test]
fn fixvec_shorter_than_its_header_is_refused() {
    let desc = words();
    for len in 0..4usize {
        let err = FixVecReader::from_slice(&desc, &vec![0u8; len], false).err().unwrap();
        assert_eq!(err, header_is_broken("Words", 4, len as u64));
        assert_eq!(desc.verify(&vec![0u8; len]), Err(header_is_broken("Words", 4, len as u64)));
    }
}

#[test]
fn fixvec_with_a_large_count_is_refused_without_overflow() {
    let desc = words();
    let err = FixVecReader::from_slice(&desc, &[0xff, 0xff, 0xff, 0xff], false).err().unwrap();
    assert_eq!(err, total_size_not_match("Words", 4 + 4 * 0xffff_ffffu64, 4));
    // 0x4000_0000 items of four bytes: the size is 4 + 2^32, not 4
    let err = FixVecReader::from_slice(&desc, &[0, 0, 0, 0x40], false).err().unwrap();
    assert_eq!(err, total_size_not_match("Words", 0x1_0000_0004, 4));
}

#[test]
fn fixvec_of_bytes_gives_its_raw_data() {
    let desc = bytes();
    let encoded = [3u8, 0, 0, 0, 7, 8, 9];
    let reader = FixVecReader::from_slice(&desc, &encoded, false).unwrap();
    assert_eq!(reader.raw_data(), Some(&[7u8, 8, 9][..]));
    assert_eq!(reader.get(1), &[8]);
}

#[test]
fn fixvec_builder_refuses_items_of_another_size() {
    let desc = words();
    let mut builder = FixVecBuilder::new(&desc);
    assert!(!builder.push(&[1, 2, 3]));
    assert!(!builder.push(&[1, 2, 3, 4, 5]));
    assert!(builder.push(&[1, 2, 3, 4]));
    assert_eq!(builder.build(), vec![1, 0, 0, 0, 1, 2, 3, 4]);
}

#[test]
fn fixvec_round_trip() {
    let desc = words();
    let encoded = [2u8, 0, 0, 0, 1, 2, 3, 4, 5, 6, 7, 8];
    let reader = FixVecReader::from_slice_unchecked(&desc, &encoded);
    let rebuilt = reader.as_builder().build();
    assert_eq!(rebuilt, encoded);
    let again = FixVecReader::from_slice(&desc, &rebuilt, false).unwrap();
    assert_eq!(again.len(), 2);
    assert_eq!(again.get(1), reader.get(1));
    assert_eq!(again.as_slice(), reader.as_slice());
}

#[test]
fn dynvec_without_items_is_its_total_size_alone() {
    let desc = bytes_vec();
    let built = DynVecBuilder::new(&desc).build().unwrap();
    assert_eq!(built, vec![4u8, 0, 0, 0]);
    for compatible in [false, true] {
        let reader = DynVecReader::from_slice(&desc, &built, compatible).unwrap();
        assert_eq!(reader.len(), 0);
        assert_eq!(reader.item_count(), 0);
        assert!(reader.is_empty());
        assert_eq!(reader.total_size(), 4);
        assert_eq!(reader.get(0), &[] as &[u8]);
    }
}

#[test]
fn dynvec_with_items() {
    let desc = bytes_vec();
    let mut builder = DynVecBuilder::new(&desc);
    builder.push(&[2, 0, 0, 0, 0xaa, 0xbb]);
    builder.push(&[0, 0, 0, 0]);
    builder.push(&[1, 0, 0, 0, 0xcc]);
    let built = builder.build().unwrap();
    let expected: Vec<u8> = vec![
        31, 0, 0, 0, // total size
        16, 0, 0, 0, 22, 0, 0, 0, 26, 0, 0, 0, // offsets
        2, 0, 0, 0, 0xaa, 0xbb, // first item
        0, 0, 0, 0, // second item
        1, 0, 0, 0, 0xcc, // third item
    ];
    assert_eq!(built, expected);
    let reader = DynVecReader::from_slice(&desc, &built, false).unwrap();
    assert_eq!(reader.total_size(), 31);
    assert_eq!(reader.len(), 3);
    assert!(!reader.is_empty());
    assert_eq!(reader.get(0), &[2, 0, 0, 0, 0xaa, 0xbb]);
    assert_eq!(reader.get(1), &[0, 0, 0, 0]);
    assert_eq!(reader.get(2), &[1, 0, 0, 0, 0xcc]);
    assert_eq!(reader.get(3), &[] as &[u8]);
    assert_eq!(reader.as_slice(), &expected[..]);
}

#[test]
fn dynvec_shorter_than_its_header_is_refused() {
    let desc = bytes_vec();
    for len in 0..4usize {
        let err = DynVecReader::from_slice(&desc, &vec![0u8; len], true).err().unwrap();
        assert_eq!(err, header_is_broken("BytesVec", 4, len as u64));
    }
}

#[test]
fn dynvec_of_another_size_than_announced_is_refused() {
    let desc = bytes_vec();
    let err = DynVecReader::from_slice(&desc, &[5, 0, 0, 0], true).err().unwrap();
    assert_eq!(err, total_size_not_match("BytesVec", 5, 4));
    let err = DynVecReader::from_slice(&desc, &[4, 0, 0, 0, 0], true).err().unwrap();
    assert_eq!(err, total_size_not_match("BytesVec", 4, 5));
}

#[test]
fn dynvec_without_room_for_a_first_offset_is_refused() {
    let desc = bytes_vec();
    for len in 5..8u8 {
        let mut encoded = vec![len, 0, 0, 0];
        encoded.resize(len as usize, 0);
        let err = DynVecReader::from_slice(&desc, &encoded, true).err().unwrap();
        assert_eq!(err, total_size_not_match("BytesVec", 8, len as u64));
    }
}

#[test]
fn dynvec_with_a_bad_first_offset_is_refused() {
    let desc = bytes_vec();
    // not a multiple of four
    let err = DynVecReader::from_slice(&desc, &[9, 0, 0, 0, 9, 0, 0, 0, 0], true).err().unwrap();
    assert_eq!(err, offsets_not_match("BytesVec"));
    // no room for the first offset itself
    let err = DynVecReader::from_slice(&desc, &[8, 0, 0, 0, 4, 0, 0, 0], true).err().unwrap();
    assert_eq!(err, offsets_not_match("BytesVec"));
    let err = DynVecReader::from_slice(&desc, &[8, 0, 0, 0, 0, 0, 0, 0], true).err().unwrap();
    assert_eq!(err, offsets_not_match("BytesVec"));
    // beyond the end
    let err = DynVecReader::from_slice(&desc, &[8, 0, 0, 0, 12, 0, 0, 0], true).err().unwrap();
    assert_eq!(err, header_is_broken("BytesVec", 12, 8));
}

#[test]
fn dynvec_with_decreasing_offsets_is_refused() {
    let desc = DynVec::new("vec_of_vec", TypeDesc::DynVec(bytes_vec()));
    // three items; the third offset is smaller than the second
    let encoded: Vec<u8> = vec![
        24, 0, 0, 0, //
        16, 0, 0, 0, 24, 0, 0, 0, 20, 0, 0, 0, //
        4, 0, 0, 0, 4, 0, 0, 0,
    ];
    let err = DynVecReader::from_slice(&desc, &encoded, true).err().unwrap();
    assert_eq!(err, offsets_not_match("VecOfVec"));
    // two items; the second offset is smaller than the first
    let encoded: Vec<u8> = vec![
        16, 0, 0, 0, //
        12, 0, 0, 0, 8, 0, 0, 0, //
        4, 0, 0, 0,
    ];
    let err = DynVecReader::from_slice(&desc, &encoded, true).err().unwrap();
    assert_eq!(err, offsets_not_match("VecOfVec"));
    // one item; its offset is fine but the last offset is beyond the end
    let encoded: Vec<u8> = vec![
        20, 0, 0, 0, //
        16, 0, 0, 0, 16, 0, 0, 0, 24, 0, 0, 0, //
        4, 0, 0, 0,
    ];
    let err = DynVecReader::from_slice(&desc, &encoded, true).err().unwrap();
    assert_eq!(err, offsets_not_match("VecOfVec"));
}

#[test]
fn dynvec_hands_on_the_error_of_the_first_bad_item() {
    let desc = bytes_vec();
    // the second item announces two bytes and holds one; the third is too short
    let encoded: Vec<u8> = vec![
        28, 0, 0, 0, //
        16, 0, 0, 0, 20, 0, 0, 0, 25, 0, 0, 0, //
        0, 0, 0, 0, //
        2, 0, 0, 0, 1, //
        0, 0, 0,
    ];
    let err = DynVecReader::from_slice(&desc, &encoded, false).err().unwrap();
    assert_eq!(err, total_size_not_match("Bytes", 6, 5));
    assert_eq!(desc.verify(&encoded, true), Err(total_size_not_match("Bytes", 6, 5)));
}

#[test]
fn dynvec_round_trip() {
    let desc = bytes_vec();
    let encoded: Vec<u8> = vec![
        21, 0, 0, 0, //
        12, 0, 0, 0, 17, 0, 0, 0, //
        1, 0, 0, 0, 5, //
        0, 0, 0, 0,
    ];
    let reader = DynVecReader::from_slice(&desc, &encoded, false).unwrap();
    let rebuilt = reader.as_builder().build().unwrap();
    assert_eq!(rebuilt, encoded);
    let again = DynVecReader::from_slice(&desc, &rebuilt, false).unwrap();
    assert_eq!(again.len(), reader.len());
    for i in 0..2 {
        assert_eq!(again.get(i), reader.get(i));
    }
}

#[test]
fn dynvec_of_empty_items() {
    let opt = molecule_wire::schema::Option_::new("byte_opt", TypeDesc::Byte);
    let desc = DynVec::new("opts", TypeDesc::Option_(opt));
    let mut builder = DynVecBuilder::new(&desc);
    builder.push(&[]);
    builder.push(&[7]);
    builder.push(&[]);
    let built = builder.build().unwrap();
    assert_eq!(built, vec![17, 0, 0, 0, 16, 0, 0, 0, 16, 0, 0, 0, 17, 0, 0, 0, 7]);
    let reader = DynVecReader::from_slice(&desc, &built, false).unwrap();
    assert_eq!(reader.len(), 3);
    assert_eq!(reader.get(0), &[] as &[u8]);
    assert_eq!(reader.get(1), &[7]);
    assert_eq!(reader.get(2), &[] as &[u8]);
}
