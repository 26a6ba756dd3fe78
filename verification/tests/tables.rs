use molecule_wire::error::VerificationError;
use molecule_wire::schema::{Array, DynVec, FixVec, Table, TypeDesc};
use molecule_wire::table::{TableBuilder, TableReader};

fn names(names: &[&str]) -> Vec<String> {
    names.iter().map(|name| name.to_string()).collect()
}

fn word() -> TypeDesc {
    TypeDesc::Array(Array::new("word", TypeDesc::Byte, 4).unwrap())
}

fn bytes() -> TypeDesc {
    TypeDesc::FixVec(FixVec::new("bytes", TypeDesc::Byte).unwrap())
}

/// table pair { tag: word, data: bytes }
fn pair() -> Table {
    Table::new("pair", &names(&["tag", "data"]), vec![word(), bytes()]).unwrap()
}

fn unit() -> Table {
    Table::new("unit", &vec![], vec![]).unwrap()
}

fn field_count_not_match(name: &str, expected: u64, actual: u64) -> VerificationError {
    VerificationError::FieldCountNotMatch { name: name.to_string(), expected, actual }
}

/// a pair with tag 1 2 3 4 and data aa bb
fn pair_encoded() -> Vec<u8> {
    vec![
        22, 0, 0, 0, // total size
        12, 0, 0, 0, 16, 0, 0, 0, // offsets
        1, 2, 3, 4, // tag
        2, 0, 0, 0, 0xaa, 0xbb, // data
    ]
}

/// the same pair followed by a third field of three bytes
fn pair_with_extra_field() -> Vec<u8> {
    vec![
        29, 0, 0, 0, // total size
        16, 0, 0, 0, 20, 0, 0, 0, 26, 0, 0, 0, // offsets
        1, 2, 3, 4, // tag
        2, 0, 0, 0, 0xaa, 0xbb, // data
        7, 8, 9, // not declared
    ]
}

#[test]
fn table_without_fields_is_its_header_alone() {
    let desc = unit();
    let built = TableBuilder::new(&desc).build().unwrap();
    assert_eq!(built, vec![0x04u8, 0x00, 0x00, 0x00]);
    assert_eq!(TypeDesc::Table(unit()).default_content(), built);
    for compatible in [false, true] {
        let reader = TableReader::from_slice(&desc, &built, compatible).unwrap();
        assert!(reader.is_empty());
        assert_eq!(reader.len(), 0);
        assert_eq!(reader.field_count(), 0);
        assert!(!reader.has_extra_fields());
        assert_eq!(reader.count_extra_fields(), 0);
        assert_eq!(reader.total_size(), 4);
    }
}

#[test]
fn table_with_its_declared_fields() {
    let desc = pair();
    let encoded = pair_encoded();
    for compatible in [false, true] {
        let reader = TableReader::from_slice(&desc, &encoded, compatible).unwrap();
        assert_eq!(reader.total_size(), 22);
        assert_eq!(reader.field_count(), 2);
        assert_eq!(reader.len(), 2);
        assert!(!reader.is_empty());
        assert!(!reader.has_extra_fields());
        assert_eq!(reader.count_extra_fields(), 0);
        assert_eq!(reader.field(0), &[1, 2, 3, 4]);
        assert_eq!(reader.field(1), &[2, 0, 0, 0, 0xaa, 0xbb]);
        assert_eq!(reader.as_slice(), &encoded[..]);
    }
}

#[test]
fn table_with_one_field_more_than_declared() {
    let desc = pair();
    let encoded = pair_with_extra_field();
    let reader = TableReader::from_slice(&desc, &encoded, true).unwrap();
    assert!(reader.has_extra_fields());
    assert_eq!(reader.count_extra_fields(), 1);
    assert_eq!(reader.field_count(), 3);
    assert_eq!(reader.field(0), &[1, 2, 3, 4]);
    // the last declared field ends where the field that is not declared starts
    assert_eq!(reader.field(1), &[2, 0, 0, 0, 0xaa, 0xbb]);
    let err = TableReader::from_slice(&desc, &encoded, false).err().unwrap();
    assert_eq!(err, field_count_not_match("Pair", 2, 3));
}

#[test]
fn table_with_fewer_fields_than_declared_is_refused() {
    let desc = pair();
    let encoded: Vec<u8> = vec![12, 0, 0, 0, 8, 0, 0, 0, 1, 2, 3, 4];
    for compatible in [false, true] {
        let err = TableReader::from_slice(&desc, &encoded, compatible).err().unwrap();
        assert_eq!(err, field_count_not_match("Pair", 2, 1));
    }
    // the header alone holds no field at all
    for compatible in [false, true] {
        let err = TableReader::from_slice(&desc, &[4, 0, 0, 0], compatible).err().unwrap();
        assert_eq!(err, field_count_not_match("Pair", 2, 0));
    }
}

#[test]
fn table_without_declared_fields_that_holds_fields() {
    let desc = unit();
    let encoded: Vec<u8> = vec![13, 0, 0, 0, 12, 0, 0, 0, 13, 0, 0, 0, 5];
    let reader = TableReader::from_slice(&desc, &encoded, true).unwrap();
    assert!(!reader.is_empty());
    assert_eq!(reader.field_count(), 2);
    assert_eq!(reader.count_extra_fields(), 2);
    assert!(reader.has_extra_fields());
    let err = TableReader::from_slice(&desc, &encoded, false).err().unwrap();
    assert_eq!(err, field_count_not_match("Unit", 0, 2));
    // the offset table is checked for a compatible reader too
    let encoded: Vec<u8> = vec![6, 0, 0, 0, 0, 0];
    let err = TableReader::from_slice(&desc, &encoded, true).err().unwrap();
    assert_eq!(
        err,
        VerificationError::TotalSizeNotMatch { name: "Unit".to_string(), expected: 8, actual: 6 }
    );
}

#[test]
fn table_header_errors() {
    let desc = pair();
    let err = TableReader::from_slice(&desc, &[1, 2, 3], true).err().unwrap();
    assert_eq!(
        err,
        VerificationError::HeaderIsBroken { name: "Pair".to_string(), expected: 4, actual: 3 }
    );
    let mut encoded = pair_encoded();
    encoded.push(0);
    let err = TableReader::from_slice(&desc, &encoded, true).err().unwrap();
    assert_eq!(
        err,
        VerificationError::TotalSizeNotMatch { name: "Pair".to_string(), expected: 22, actual: 23 }
    );
    let mut encoded = pair_encoded();
    encoded[4] = 13;
    let err = TableReader::from_slice(&desc, &encoded, true).err().unwrap();
    assert_eq!(err, VerificationError::OffsetsNotMatch { name: "Pair".to_string() });
    let mut encoded = pair_encoded();
    encoded[4] = 24;
    let err = TableReader::from_slice(&desc, &encoded, true).err().unwrap();
    assert_eq!(
        err,
        VerificationError::HeaderIsBroken { name: "Pair".to_string(), expected: 24, actual: 22 }
    );
}

#[test]
fn table_with_decreasing_offsets_is_refused() {
    let desc = pair();
    let mut encoded = pair_encoded();
    encoded[8] = 8;
    let err = TableReader::from_slice(&desc, &encoded, true).err().unwrap();
    assert_eq!(err, VerificationError::OffsetsNotMatch { name: "Pair".to_string() });
    // an offset beyond the end is an offset larger than the end
    let mut encoded = pair_encoded();
    encoded[8] = 23;
    let err = TableReader::from_slice(&desc, &encoded, true).err().unwrap();
    assert_eq!(err, VerificationError::OffsetsNotMatch { name: "Pair".to_string() });
    // offsets of fields that are not declared are checked too
    let mut encoded = pair_with_extra_field();
    encoded[12] = 30;
    let err = TableReader::from_slice(&desc, &encoded, true).err().unwrap();
    assert_eq!(err, VerificationError::OffsetsNotMatch { name: "Pair".to_string() });
}

#[test]
fn table_field_count_is_checked_before_the_offsets() {
    let desc = pair();
    let mut encoded = pair_with_extra_field();
    encoded[8] = 8;
    let err = TableReader::from_slice(&desc, &encoded, false).err().unwrap();
    assert_eq!(err, field_count_not_match("Pair", 2, 3));
}

#[test]
fn table_hands_on_the_error_of_the_first_bad_field() {
    let desc = pair();
    // the tag has three bytes and the data announce more than they hold
    let encoded: Vec<u8> = vec![
        20, 0, 0, 0, //
        12, 0, 0, 0, 15, 0, 0, 0, //
        1, 2, 3, //
        9, 0, 0, 0, 0xaa,
    ];
    let err = TableReader::from_slice(&desc, &encoded, true).err().unwrap();
    assert_eq!(
        err,
        VerificationError::TotalSizeNotMatch { name: "Word".to_string(), expected: 4, actual: 3 }
    );
    let encoded: Vec<u8> = vec![
        21, 0, 0, 0, //
        12, 0, 0, 0, 16, 0, 0, 0, //
        1, 2, 3, 4, //
        9, 0, 0, 0, 0xaa,
    ];
    let err = TableReader::from_slice(&desc, &encoded, true).err().unwrap();
    assert_eq!(
        err,
        VerificationError::TotalSizeNotMatch { name: "Bytes".to_string(), expected: 13, actual: 5 }
    );
}

#[test]
fn table_hands_the_flag_down_to_its_fields() {
    let inner = pair();
    let outer = Table::new("outer", &names(&["inner"]), vec![TypeDesc::Table(inner)]).unwrap();
    let mut encoded: Vec<u8> = vec![37, 0, 0, 0, 8, 0, 0, 0];
    encoded.extend_from_slice(&pair_with_extra_field());
    // the flag goes down to the fields
    assert!(TableReader::from_slice(&outer, &encoded, true).is_ok());
    let err = TableReader::from_slice(&outer, &encoded, false).err().unwrap();
    assert_eq!(err, field_count_not_match("Pair", 2, 3));
    assert_eq!(outer.verify(&encoded, false), Err(field_count_not_match("Pair", 2, 3)));
}

#[test]
fn table_fields_that_are_not_declared_are_not_validated() {
    let desc = Table::new("tagged", &names(&["tag"]), vec![word()]).unwrap();
    // the second field would be no encoding of any type that has a header
    let encoded: Vec<u8> = vec![17, 0, 0, 0, 12, 0, 0, 0, 16, 0, 0, 0, 1, 2, 3, 4, 0xff];
    let reader = TableReader::from_slice(&desc, &encoded, true).unwrap();
    assert_eq!(reader.field(0), &[1, 2, 3, 4]);
    assert_eq!(reader.count_extra_fields(), 1);
}

#[test]
fn table_builder_starts_with_defaults() {
    let desc = pair();
    let built = TableBuilder::new(&desc).build().unwrap();
    let expected: Vec<u8> = vec![
        20, 0, 0, 0, //
        12, 0, 0, 0, 16, 0, 0, 0, //
        0, 0, 0, 0, //
        0, 0, 0, 0,
    ];
    assert_eq!(built, expected);
    assert!(TableReader::from_slice(&desc, &built, false).is_ok());
}

#[test]
fn table_builder_sets_fields() {
    let desc = pair();
    let mut builder = TableBuilder::new(&desc);
    assert!(builder.set_field(1, &[2, 0, 0, 0, 0xaa, 0xbb]));
    assert!(builder.set_field(0, &[1, 2, 3, 4]));
    assert!(!builder.set_field(2, &[1]));
    assert_eq!(builder.build().unwrap(), pair_encoded());
}

#[test]
fn table_round_trip_without_extra_fields() {
    let desc = pair();
    let encoded = pair_encoded();
    let reader = TableReader::from_slice(&desc, &encoded, false).unwrap();
    assert_eq!(reader.as_builder().build().unwrap(), encoded);
}

#[test]
fn table_round_trip_drops_extra_fields_and_keeps_declared_ones() {
    let desc = pair();
    let encoded = pair_with_extra_field();
    let reader = TableReader::from_slice(&desc, &encoded, true).unwrap();
    let rebuilt = reader.as_builder().build().unwrap();
    assert_eq!(rebuilt, pair_encoded());
    let again = TableReader::from_slice(&desc, &rebuilt, true).unwrap();
    assert_eq!(again.field(0), reader.field(0));
    assert_eq!(again.field(1), reader.field(1));
    assert!(!again.has_extra_fields());
}

#[test]
fn table_of_variable_fields_in_a_vector() {
    let desc = DynVec::new("pairs", TypeDesc::Table(pair()));
    let mut builder = molecule_wire::dynvec::DynVecBuilder::new(&desc);
    builder.push(&pair_encoded());
    builder.push(&pair_with_extra_field());
    let built = builder.build().unwrap();
    assert_eq!(built.len(), 12 + 22 + 29);
    assert!(desc.verify(&built, true).is_ok());
    assert_eq!(desc.verify(&built, false), Err(field_count_not_match("Pair", 2, 3)));
}

#[test]
fn table_fields_by_name() {
    let desc = pair();
    let encoded = pair_with_extra_field();
    let reader = TableReader::from_slice(&desc, &encoded, true).unwrap();
    assert_eq!(reader.field_named("tag"), Some(&[1u8, 2, 3, 4][..]));
    assert_eq!(reader.field_named("Data"), Some(&[2u8, 0, 0, 0, 0xaa, 0xbb][..]));
    assert_eq!(reader.field_named("other"), None);
    let mut builder = TableBuilder::new(&desc);
    assert!(builder.set_field_named("data", &[1, 0, 0, 0, 0xcc]));
    assert!(!builder.set_field_named("other", &[1]));
    let built = builder.build().unwrap();
    let reader = TableReader::from_slice(&desc, &built, false).unwrap();
    assert_eq!(reader.field_named("data"), Some(&[1u8, 0, 0, 0, 0xcc][..]));
    assert_eq!(reader.field_named("tag"), Some(&[0u8, 0, 0, 0][..]));
}
