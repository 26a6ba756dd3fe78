use molecule_wire::error::VerificationError;
use molecule_wire::option::{OptionBuilder, OptionReader};
use molecule_wire::schema::{Array, FixVec, Option_, TypeDesc, Union, UnionItem};
use molecule_wire::union::{UnionBuilder, UnionReader};

fn word() -> TypeDesc {
    TypeDesc::Array(Array::new("word", TypeDesc::Byte, 4).unwrap())
}

fn bytes() -> TypeDesc {
    TypeDesc::FixVec(FixVec::new("bytes", TypeDesc::Byte).unwrap())
}

fn word_opt() -> Option_ {
    Option_::new("word_opt", word())
}

/// union { word = 0, bytes = 1, word_opt = 7 }
fn any() -> Union {
    let items = vec![
        UnionItem { id: 0, typ: word() },
        UnionItem { id: 1, typ: bytes() },
        UnionItem { id: 7, typ: TypeDesc::Option_(word_opt()) },
    ];
    Union::new("any", items).unwrap()
}

#[test]
fn option_of_the_empty_slice_is_none() {
    for desc in [word_opt(), Option_::new("bytes_opt", bytes())] {
        for compatible in [false, true] {
            let reader = OptionReader::from_slice(&desc, &[], compatible).unwrap();
            assert!(reader.is_none());
            assert!(!reader.is_some());
            assert_eq!(reader.to_opt(), None);
            assert_eq!(reader.as_slice(), &[] as &[u8]);
        }
    }
}

#[test]
fn option_of_an_item_is_some() {
    let desc = word_opt();
    let reader = OptionReader::from_slice(&desc, &[1, 2, 3, 4], false).unwrap();
    assert!(reader.is_some());
    assert!(!reader.is_none());
    assert_eq!(reader.to_opt(), Some(&[1u8, 2, 3, 4][..]));
}

#[test]
fn option_hands_on_the_error_of_its_item() {
    let desc = word_opt();
    let err = OptionReader::from_slice(&desc, &[1, 2, 3], false).err().unwrap();
    assert_eq!(
        err,
        VerificationError::TotalSizeNotMatch { name: "Word".to_string(), expected: 4, actual: 3 }
    );
    let desc = Option_::new("bytes_opt", bytes());
    let err = OptionReader::from_slice(&desc, &[1, 0], true).err().unwrap();
    assert_eq!(
        err,
        VerificationError::HeaderIsBroken { name: "Bytes".to_string(), expected: 4, actual: 2 }
    );
    assert_eq!(desc.verify(&[1, 0], true), Err(err));
}

#[test]
fn option_builder_starts_empty() {
    let desc = word_opt();
    let mut builder = OptionBuilder::new(&desc);
    assert_eq!(builder.build(), Vec::<u8>::new());
    builder.set(Some(&[1, 2, 3, 4]));
    assert_eq!(builder.build(), vec![1, 2, 3, 4]);
    builder.set(None);
    assert_eq!(builder.build(), Vec::<u8>::new());
}

#[test]
fn option_round_trip() {
    let desc = word_opt();
    for encoded in [vec![], vec![5u8, 6, 7, 8]] {
        let reader = OptionReader::from_slice(&desc, &encoded, false).unwrap();
        let rebuilt = reader.as_builder().build();
        assert_eq!(rebuilt, encoded);
        let again = OptionReader::from_slice_unchecked(&desc, &rebuilt);
        assert_eq!(again.to_opt(), reader.to_opt());
    }
}

#[test]
fn union_of_a_declared_variant() {
    let desc = any();
    let encoded = [1u8, 0, 0, 0, 2, 0, 0, 0, 0xaa, 0xbb];
    for compatible in [false, true] {
        let reader = UnionReader::from_slice(&desc, &encoded, compatible).unwrap();
        assert_eq!(reader.item_id(), 1);
        assert_eq!(reader.variant(), 1);
        assert_eq!(reader.payload(), &[2, 0, 0, 0, 0xaa, 0xbb]);
        assert_eq!(reader.as_slice(), &encoded);
    }
    let encoded = [7u8, 0, 0, 0];
    let reader = UnionReader::from_slice(&desc, &encoded, false).unwrap();
    assert_eq!(reader.item_id(), 7);
    assert_eq!(reader.variant(), 2);
    assert_eq!(reader.payload(), &[] as &[u8]);
}

#[test]
fn union_of_an_unknown_variant_is_refused() {
    let desc = any();
    for id in [2u8, 6, 8, 255] {
        let encoded = [id, 0, 0, 0, 1, 2, 3, 4];
        let err = UnionReader::from_slice(&desc, &encoded, true).err().unwrap();
        assert_eq!(
            err,
            VerificationError::UnknownItem { name: "Any".to_string(), item_id: id as u32 }
        );
    }
    let err = UnionReader::from_slice(&desc, &[0, 1, 0, 0, 1, 2, 3, 4], true).err().unwrap();
    assert_eq!(err, VerificationError::UnknownItem { name: "Any".to_string(), item_id: 256 });
}

#[test]
fn union_hands_on_the_error_of_its_variant() {
    let desc = any();
    let err = UnionReader::from_slice(&desc, &[0, 0, 0, 0, 1, 2, 3], false).err().unwrap();
    assert_eq!(
        err,
        VerificationError::TotalSizeNotMatch { name: "Word".to_string(), expected: 4, actual: 3 }
    );
    let err = UnionReader::from_slice(&desc, &[1, 0, 0, 0, 1, 2, 3], false).err().unwrap();
    assert_eq!(
        err,
        VerificationError::HeaderIsBroken { name: "Bytes".to_string(), expected: 4, actual: 3 }
    );
    let err = UnionReader::from_slice(&desc, &[7, 0, 0, 0, 1], false).err().unwrap();
    assert_eq!(
        err,
        VerificationError::TotalSizeNotMatch { name: "Word".to_string(), expected: 4, actual: 1 }
    );
    assert_eq!(desc.verify(&[7, 0, 0, 0, 1], true), Err(err));
}

#[test]
fn union_shorter_than_its_header_is_refused() {
    let desc = any();
    for len in 0..4usize {
        let err = UnionReader::from_slice(&desc, &vec![0u8; len], true).err().unwrap();
        assert_eq!(
            err,
            VerificationError::HeaderIsBroken {
                name: "Any".to_string(),
                expected: 4,
                actual: len as u64
            }
        );
    }
}

#[test]
fn union_builder_starts_with_the_first_variant() {
    let desc = any();
    let builder = UnionBuilder::new(&desc);
    assert_eq!(builder.build(), vec![0, 0, 0, 0, 0, 0, 0, 0]);
}

#[test]
fn union_builder_sets_declared_variants_only() {
    let desc = any();
    let mut builder = UnionBuilder::new(&desc);
    assert!(builder.set(1, &[1, 0, 0, 0, 9]));
    assert_eq!(builder.build(), vec![1, 0, 0, 0, 1, 0, 0, 0, 9]);
    assert!(!builder.set(2, &[1, 2, 3, 4]));
    assert_eq!(builder.build(), vec![1, 0, 0, 0, 1, 0, 0, 0, 9]);
    assert!(builder.set(7, &[]));
    assert_eq!(builder.build(), vec![7, 0, 0, 0]);
}

#[test]
fn union_round_trip() {
    let desc = any();
    let encoded = [0u8, 0, 0, 0, 4, 3, 2, 1];
    let reader = UnionReader::from_slice(&desc, &encoded, false).unwrap();
    let rebuilt = reader.as_builder().build();
    assert_eq!(rebuilt, encoded);
    let again = UnionReader::from_slice_unchecked(&desc, &rebuilt);
    assert_eq!(again.item_id(), reader.item_id());
    assert_eq!(again.payload(), reader.payload());
}
