use molecule_wire::error::VerificationError;
use molecule_wire::reader::Reader;
use molecule_wire::schema::{Array, DynVec, FixVec, Option_, Struct, Table, TypeDesc, Union, UnionItem};

fn word() -> TypeDesc {
    TypeDesc::Array(Array::new("word", TypeDesc::Byte, 4).unwrap())
}

#[test]
fn reader_of_each_category() {
    let names = vec!["a".to_string()];
    let cases: Vec<(TypeDesc, Vec<u8>)> = vec![
        (TypeDesc::Byte, vec![7]),
        (word(), vec![1, 2, 3, 4]),
        (TypeDesc::Struct(Struct::new("s", &names, vec![word()]).unwrap()), vec![1, 2, 3, 4]),
        (TypeDesc::FixVec(FixVec::new("v", word()).unwrap()), vec![1, 0, 0, 0, 1, 2, 3, 4]),
        (TypeDesc::DynVec(DynVec::new("d", word())), vec![12, 0, 0, 0, 8, 0, 0, 0, 1, 2, 3, 4]),
        (
            TypeDesc::Table(Table::new("t", &names, vec![word()]).unwrap()),
            vec![12, 0, 0, 0, 8, 0, 0, 0, 1, 2, 3, 4],
        ),
        (TypeDesc::Option_(Option_::new("o", word())), vec![1, 2, 3, 4]),
        (
            TypeDesc::Union(Union::new("u", vec![UnionItem { id: 2, typ: word() }]).unwrap()),
            vec![2, 0, 0, 0, 1, 2, 3, 4],
        ),
    ];
    for (desc, encoded) in &cases {
        let reader = desc.from_slice(encoded, false).unwrap();
        assert_eq!(reader.as_slice(), &encoded[..]);
        let same_category = match (&reader, desc) {
            (Reader::Byte(_), TypeDesc::Byte) => true,
            (Reader::Array(r), TypeDesc::Array(d)) => std::ptr::eq(r.desc, d),
            (Reader::Struct(r), TypeDesc::Struct(d)) => std::ptr::eq(r.desc, d),
            (Reader::FixVec(r), TypeDesc::FixVec(d)) => std::ptr::eq(r.desc, d),
            (Reader::DynVec(r), TypeDesc::DynVec(d)) => std::ptr::eq(r.desc, d),
            (Reader::Table(r), TypeDesc::Table(d)) => std::ptr::eq(r.desc, d),
            (Reader::Option_(r), TypeDesc::Option_(d)) => std::ptr::eq(r.desc, d),
            (Reader::Union(r), TypeDesc::Union(d)) => std::ptr::eq(r.desc, d),
            _ => false,
        };
        assert!(same_category, "{:?}", reader);
        let unchecked = desc.from_slice_unchecked(&encoded[..1]);
        assert_eq!(unchecked.as_slice(), &encoded[..1]);
    }
}

#[test]
fn reader_hands_on_the_error() {
    let desc = TypeDesc::DynVec(DynVec::new("words", word()));
    let err = desc.from_slice(&[11, 0, 0, 0, 8, 0, 0, 0, 1, 2, 3], true).err().unwrap();
    assert_eq!(
        err,
        VerificationError::TotalSizeNotMatch { name: "Word".to_string(), expected: 4, actual: 3 }
    );
    let err = TypeDesc::Byte.from_slice(&[], true).err().unwrap();
    assert_eq!(
        err,
        VerificationError::TotalSizeNotMatch { name: "Byte".to_string(), expected: 1, actual: 0 }
    );
}

#[test]
fn reader_of_an_item_of_a_reader() {
    let names = vec!["tag".to_string()];
    let table = Table::new("tagged", &names, vec![word()]).unwrap();
    let desc = TypeDesc::DynVec(DynVec::new("tables", TypeDesc::Table(table)));
    // two items, of which the second is empty: an empty slice is no table
    let encoded: Vec<u8> = vec![
        24, 0, 0, 0, 12, 0, 0, 0, 24, 0, 0, 0, //
        12, 0, 0, 0, 8, 0, 0, 0, 1, 2, 3, 4,
    ];
    assert_eq!(
        desc.from_slice(&encoded, true).err().unwrap(),
        VerificationError::HeaderIsBroken { name: "Tagged".to_string(), expected: 4, actual: 0 }
    );
    let encoded: Vec<u8> = vec![20, 0, 0, 0, 8, 0, 0, 0, 12, 0, 0, 0, 8, 0, 0, 0, 1, 2, 3, 4];
    let reader = match desc.from_slice(&encoded, false).unwrap() {
        Reader::DynVec(reader) => reader,
        other => panic!("{:?}", other),
    };
    assert_eq!(reader.len(), 1);
    // the item was validated with the vector, so it is read without validation
    let item = reader.desc.item.from_slice_unchecked(reader.get(0));
    match item {
        Reader::Table(table) => {
            assert_eq!(table.field_count(), 1);
            assert_eq!(table.field_named("tag"), Some(&[1u8, 2, 3, 4][..]));
        }
        other => panic!("{:?}", other),
    }
}
