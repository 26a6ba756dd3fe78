use molecule_wire::array::{ArrayBuilder, ArrayReader};
use molecule_wire::error::VerificationError;
use molecule_wire::schema::{Array, Struct, TypeDesc};
use molecule_wire::structure::{StructBuilder, StructReader};

fn names(names: &[&str]) -> Vec<String> {
    names.iter().map(|name| name.to_string()).collect()
}

fn word() -> Array {
    Array::new("word", TypeDesc::Byte, 4).unwrap()
}

fn words() -> Array {
    Array::new("words", TypeDesc::Array(word()), 3).unwrap()
}

fn mixed() -> Struct {
    let fields = vec![TypeDesc::Byte, TypeDesc::Array(word()), TypeDesc::Byte];
    Struct::new("mixed", &names(&["flag", "word", "end_mark"]), fields).unwrap()
}

#[test]
fn array_of_the_total_size_is_accepted() {
    let desc = words();
    let bytes: Vec<u8> = (1..=12).collect();
    for compatible in [false, true] {
        let reader = ArrayReader::from_slice(&desc, &bytes, compatible).unwrap();
        assert_eq!(reader.as_slice(), &bytes[..]);
        assert_eq!(reader.nth(0), &[1, 2, 3, 4]);
        assert_eq!(reader.nth(1), &[5, 6, 7, 8]);
        assert_eq!(reader.nth(2), &[9, 10, 11, 12]);
        assert_eq!(reader.raw_data(), None);
    }
    assert!(desc.verify(&bytes).is_ok());
}

#[test]
fn array_of_another_size_is_refused() {
    let desc = words();
    for len in [0usize, 1, 11, 13, 24] {
        let bytes = vec![0u8; len];
        let err = ArrayReader::from_slice(&desc, &bytes, true).err().unwrap();
        assert_eq!(
            err,
            VerificationError::TotalSizeNotMatch {
                name: "Words".to_string(),
                expected: 12,
                actual: len as u64
            }
        );
    }
}

#[test]
fn array_of_bytes_gives_its_raw_data() {
    let desc = word();
    let reader = ArrayReader::from_slice(&desc, &[9, 8, 7, 6], false).unwrap();
    assert_eq!(reader.raw_data(), Some(&[9u8, 8, 7, 6][..]));
    assert_eq!(reader.nth(3), &[6]);
}

#[test]
fn array_reader_unchecked_keeps_the_slice() {
    let desc = word();
    let bytes = [1u8, 2];
    let reader = ArrayReader::from_slice_unchecked(&desc, &bytes);
    assert_eq!(reader.as_slice(), &[1, 2]);
}

#[test]
fn array_builder_starts_with_zeros() {
    let desc = words();
    let builder = ArrayBuilder::new(&desc);
    assert_eq!(builder.build(), vec![0u8; 12]);
}

#[test]
fn array_builder_sets_items() {
    let desc = words();
    let mut builder = ArrayBuilder::new(&desc);
    assert!(builder.set_nth(1, &[1, 2, 3, 4]));
    assert!(builder.set_nth(2, &[5, 6, 7, 8]));
    assert!(!builder.set_nth(3, &[9, 9, 9, 9]));
    assert!(!builder.set_nth(0, &[9, 9, 9]));
    assert!(!builder.set_nth(0, &[9, 9, 9, 9, 9]));
    assert_eq!(builder.build(), vec![0, 0, 0, 0, 1, 2, 3, 4, 5, 6, 7, 8]);
}

#[test]
fn array_round_trip() {
    let desc = words();
    let bytes: Vec<u8> = (100..112).collect();
    let reader = ArrayReader::from_slice(&desc, &bytes, false).unwrap();
    let rebuilt = reader.as_builder().build();
    assert_eq!(rebuilt, bytes);
    let again = ArrayReader::from_slice(&desc, &rebuilt, false).unwrap();
    for i in 0..3 {
        assert_eq!(again.nth(i), reader.nth(i));
    }
}

#[test]
fn array_without_items_is_the_empty_slice() {
    let desc = Array::new("nothing", TypeDesc::Byte, 0).unwrap();
    assert!(ArrayReader::from_slice(&desc, &[], false).is_ok());
    assert!(ArrayReader::from_slice(&desc, &[0], false).is_err());
    assert_eq!(ArrayBuilder::new(&desc).build(), Vec::<u8>::new());
}

#[test]
fn struct_of_the_total_size_is_accepted() {
    let desc = mixed();
    let bytes = [1u8, 2, 3, 4, 5, 6];
    for compatible in [false, true] {
        let reader = StructReader::from_slice(&desc, &bytes, compatible).unwrap();
        assert_eq!(reader.as_slice(), &bytes);
        assert_eq!(reader.field(0), &[1]);
        assert_eq!(reader.field(1), &[2, 3, 4, 5]);
        assert_eq!(reader.field(2), &[6]);
    }
}

#[test]
fn struct_of_another_size_is_refused() {
    let desc = mixed();
    for len in [0usize, 5, 7] {
        let bytes = vec![0u8; len];
        let err = StructReader::from_slice(&desc, &bytes, false).err().unwrap();
        assert_eq!(
            err,
            VerificationError::TotalSizeNotMatch {
                name: "Mixed".to_string(),
                expected: 6,
                actual: len as u64
            }
        );
        assert_eq!(desc.verify(&bytes), Err(err));
    }
}

#[test]
fn struct_builder_starts_with_zeros_and_sets_fields() {
    let desc = mixed();
    let mut builder = StructBuilder::new(&desc);
    assert_eq!(builder.build(), vec![0u8; 6]);
    assert!(builder.set_field(1, &[7, 7, 7, 7]));
    assert!(builder.set_field(2, &[9]));
    assert!(!builder.set_field(0, &[1, 1]));
    assert!(!builder.set_field(3, &[1]));
    assert_eq!(builder.build(), vec![0, 7, 7, 7, 7, 9]);
}

#[test]
fn struct_round_trip() {
    let desc = mixed();
    let bytes = [10u8, 20, 30, 40, 50, 60];
    let reader = StructReader::from_slice(&desc, &bytes, true).unwrap();
    let rebuilt = reader.as_builder().build();
    assert_eq!(rebuilt, bytes);
    let unchecked = StructReader::from_slice_unchecked(&desc, &rebuilt);
    assert_eq!(unchecked.field(1), reader.field(1));
}

#[test]
fn struct_fields_by_name() {
    let desc = mixed();
    let bytes = [1u8, 2, 3, 4, 5, 6];
    let reader = StructReader::from_slice(&desc, &bytes, false).unwrap();
    assert_eq!(reader.field_named("flag"), Some(&[1u8][..]));
    assert_eq!(reader.field_named("word"), Some(&[2u8, 3, 4, 5][..]));
    assert_eq!(reader.field_named("end_mark"), Some(&[6u8][..]));
    assert_eq!(reader.field_named("EndMark"), Some(&[6u8][..]));
    assert_eq!(reader.field_named("end"), None);
}
