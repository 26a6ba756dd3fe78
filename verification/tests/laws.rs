use molecule_wire::error::VerificationError;
use molecule_wire::schema::{Array, DynVec, FixVec, Option_, Struct, Table, TypeDesc, Union, UnionItem};

fn names(names: &[&str]) -> Vec<String> {
    names.iter().map(|name| name.to_string()).collect()
}

fn word() -> TypeDesc {
    TypeDesc::Array(Array::new("word", TypeDesc::Byte, 4).unwrap())
}

fn bytes() -> TypeDesc {
    TypeDesc::FixVec(FixVec::new("bytes", TypeDesc::Byte).unwrap())
}

fn point() -> TypeDesc {
    TypeDesc::Struct(Struct::new("point", &names(&["x", "kind"]), vec![word(), TypeDesc::Byte]).unwrap())
}

fn script() -> TypeDesc {
    TypeDesc::Table(Table::new("script", &names(&["code_hash", "args", "point"]), vec![word(), bytes(), point()]).unwrap())
}

fn scripts() -> TypeDesc {
    TypeDesc::DynVec(DynVec::new("scripts", script()))
}

fn script_opt() -> TypeDesc {
    TypeDesc::Option_(Option_::new("script_opt", script()))
}

fn any() -> TypeDesc {
    let items = vec![
        UnionItem { id: 3, typ: script() },
        UnionItem { id: 4, typ: script_opt() },
        UnionItem { id: 5, typ: bytes() },
    ];
    TypeDesc::Union(Union::new("any", items).unwrap())
}

fn all_types() -> Vec<TypeDesc> {
    vec![TypeDesc::Byte, word(), bytes(), point(), script(), scripts(), script_opt(), any()]
}

/// a script with tag 1 2 3 4, data aa bb cc and a point
fn script_encoded() -> Vec<u8> {
    vec![
        32, 0, 0, 0, //
        16, 0, 0, 0, 20, 0, 0, 0, 27, 0, 0, 0, //
        1, 2, 3, 4, //
        3, 0, 0, 0, 0xaa, 0xbb, 0xcc, //
        9, 8, 7, 6, 5,
    ]
}

fn is_size_error(err: &VerificationError) -> bool {
    matches!(
        err,
        VerificationError::HeaderIsBroken { .. } | VerificationError::TotalSizeNotMatch { .. }
    )
}

#[test]
fn default_of_every_type_is_an_encoding() {
    for desc in all_types() {
        let default = desc.default_content();
        assert_eq!(desc.default_size(), Some(default.len()));
        assert_eq!(desc.verify(&default, false), Ok(()));
        assert_eq!(desc.verify(&default, true), Ok(()));
    }
}

#[test]
fn defaults_byte_for_byte() {
    assert_eq!(TypeDesc::Byte.default_content(), vec![0]);
    assert_eq!(word().default_content(), vec![0, 0, 0, 0]);
    assert_eq!(point().default_content(), vec![0, 0, 0, 0, 0]);
    assert_eq!(bytes().default_content(), vec![0, 0, 0, 0]);
    assert_eq!(scripts().default_content(), vec![4, 0, 0, 0]);
    assert_eq!(script_opt().default_content(), Vec::<u8>::new());
    let script_default: Vec<u8> = vec![
        29, 0, 0, 0, //
        16, 0, 0, 0, 20, 0, 0, 0, 24, 0, 0, 0, //
        0, 0, 0, 0, //
        0, 0, 0, 0, //
        0, 0, 0, 0, 0,
    ];
    assert_eq!(script().default_content(), script_default);
    let mut any_default = vec![3u8, 0, 0, 0];
    any_default.extend_from_slice(&script_default);
    assert_eq!(any().default_content(), any_default);
}

#[test]
fn strict_reader_accepts_no_more_than_compatible_reader() {
    let samples: Vec<(TypeDesc, Vec<u8>)> = vec![
        (script(), script_encoded()),
        (script_opt(), script_encoded()),
        (script_opt(), vec![]),
        (bytes(), vec![1, 0, 0, 0, 9]),
    ];
    for (desc, encoded) in samples {
        assert_eq!(desc.verify(&encoded, false), Ok(()));
        assert_eq!(desc.verify(&encoded, true), Ok(()));
    }
}

#[test]
fn truncated_encodings_are_refused_for_their_size() {
    let mut in_vector = vec![40u8, 0, 0, 0, 8, 0, 0, 0];
    in_vector.extend_from_slice(&script_encoded());
    let mut in_union = vec![3u8, 0, 0, 0];
    in_union.extend_from_slice(&script_encoded());
    let samples: Vec<(TypeDesc, Vec<u8>)> = vec![
        (TypeDesc::Byte, vec![1]),
        (word(), vec![1, 2, 3, 4]),
        (point(), vec![1, 2, 3, 4, 5]),
        (bytes(), vec![2, 0, 0, 0, 8, 9]),
        (bytes(), vec![0, 0, 0, 0]),
        (script(), script_encoded()),
        (scripts(), in_vector),
        (scripts(), vec![4, 0, 0, 0]),
        (any(), in_union),
        (any(), vec![5, 0, 0, 0, 1, 0, 0, 0, 7]),
    ];
    for (desc, encoded) in samples {
        for compatible in [false, true] {
            assert_eq!(desc.verify(&encoded, compatible), Ok(()));
            for k in 0..encoded.len() {
                let err = desc.verify(&encoded[..k], compatible).err().unwrap();
                assert!(is_size_error(&err), "{:?} at {}", err, k);
            }
        }
    }
}

#[test]
fn truncation_that_empties_an_option_leaves_none() {
    let desc = script_opt();
    let encoded = script_encoded();
    assert_eq!(desc.verify(&encoded, false), Ok(()));
    assert_eq!(desc.verify(&encoded[..0], false), Ok(()));
    for k in 1..encoded.len() {
        assert!(is_size_error(&desc.verify(&encoded[..k], false).err().unwrap()));
    }
    // behind the discriminant of a union
    let desc = any();
    let mut in_union = vec![4u8, 0, 0, 0];
    in_union.extend_from_slice(&script_encoded());
    assert_eq!(desc.verify(&in_union, false), Ok(()));
    assert_eq!(desc.verify(&in_union[..4], false), Ok(()));
    for k in (0..4).chain(5..in_union.len()) {
        assert!(is_size_error(&desc.verify(&in_union[..k], false).err().unwrap()));
    }
}

#[test]
fn byte_is_one_byte() {
    assert_eq!(TypeDesc::Byte.verify(&[7], false), Ok(()));
    for len in [0usize, 2, 3] {
        assert_eq!(
            TypeDesc::Byte.verify(&vec![0u8; len], true),
            Err(VerificationError::TotalSizeNotMatch {
                name: "Byte".to_string(),
                expected: 1,
                actual: len as u64
            })
        );
    }
}

#[test]
fn verify_goes_by_the_category() {
    assert!(word().verify(&[1, 2, 3, 4], false).is_ok());
    assert!(word().verify(&[1, 2, 3], false).is_err());
    assert!(point().verify(&[1, 2, 3, 4, 5], false).is_ok());
    assert!(bytes().verify(&[1, 0, 0, 0, 5], false).is_ok());
    assert!(scripts().verify(&[4, 0, 0, 0], false).is_ok());
    assert!(script().verify(&script_encoded(), false).is_ok());
    assert!(script_opt().verify(&[], false).is_ok());
    assert_eq!(
        any().verify(&[9, 0, 0, 0], false),
        Err(VerificationError::UnknownItem { name: "Any".to_string(), item_id: 9 })
    );
}

#[test]
fn default_size_of_what_no_buffer_holds() {
    let huge = Array::new("huge", TypeDesc::Byte, usize::MAX).unwrap();
    let items = vec![UnionItem { id: 0, typ: TypeDesc::Array(huge) }];
    let desc = TypeDesc::Union(Union::new("u", items).unwrap());
    assert_eq!(desc.default_size(), None);
    let huge = Array::new("huge", TypeDesc::Byte, usize::MAX - 4).unwrap();
    let items = vec![UnionItem { id: 0, typ: TypeDesc::Array(huge) }];
    let desc = TypeDesc::Union(Union::new("u", items).unwrap());
    assert_eq!(desc.default_size(), Some(usize::MAX));
}
