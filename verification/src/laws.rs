//! What holds of every type of a schema: the default value is an encoding,
//! an encoding cut short is none, and what is built from a reading reads
//! as before.

use crate::array::lemma_array_parts;
use crate::defaults::default_parts;
use crate::dynvec::{lemma_dynvec_build, lemma_dynvec_parts};
use crate::fixvec::lemma_fixvec_parts;
use crate::number::{lemma_number_round_trip, number_at, number_bytes};
use crate::offsets::{entry_count, lemma_header_ok, lemma_table_encoding_empty};
use crate::option::lemma_option_round_trip;
use crate::schema::{
    Array,
    DynVec,
    FixVec,
    Option_,
    Struct,
    Table,
    TypeDesc,
    Union,
};
use crate::structure::lemma_struct_parts;
use crate::table::{lemma_table_build, lemma_table_parts, lemma_table_round_trip};
use crate::union::{find_item, lemma_find_item, lemma_union_build, lemma_union_round_trip};
use vstd::prelude::*;

verus! {

/// The default value of a type is an encoding of the type, for every reader.
pub proof fn lemma_default_valid(desc: TypeDesc, compatible: bool)
    requires
        desc.wf(),
    ensures
        desc.verify_spec(desc.default_spec(), compatible) is Ok,
    decreases desc,
{
    match desc {
        TypeDesc::FixVec(v) => {
            lemma_number_round_trip(0, Seq::empty(), Seq::empty());
            assert(Seq::<u8>::empty() + number_bytes(0) + Seq::<u8>::empty() =~= number_bytes(0));
            assert(v.size_for(0) == 4) by (nonlinear_arith)
                requires
                    v.size_for(0) == 4 + 0 * (v.item_size as nat),
            ;
        },
        TypeDesc::DynVec(v) => {
            lemma_table_encoding_empty();
            lemma_dynvec_build(v, Seq::empty(), compatible);
        },
        TypeDesc::Table(t) => {
            let parts = default_parts(t.fields@);
            assert forall|i: int| 0 <= i < parts.len() implies (#[trigger] t.fields[i].verify_spec(
                parts[i],
                compatible,
            )) is Ok by {
                lemma_default_valid(t.fields[i], compatible);
            }
            lemma_table_build(t, parts, compatible);
        },
        TypeDesc::Union(u) => {
            lemma_default_valid(u.items[0].typ, compatible);
            lemma_union_build(
                u,
                u.items[0].id as nat,
                u.items[0].typ.default_spec(),
                compatible,
            );
        },
        _ => {},
    }
}

/// Whether the first `k` bytes of the encoding `bytes` are an option that
/// the cut has emptied: an option cut down to nothing, or such an option
/// behind the discriminants of unions and in the place of the values of
/// options.
pub open spec fn cut_leaves_none(desc: TypeDesc, bytes: Seq<u8>, k: int) -> bool
    decreases desc,
{
    match desc {
        TypeDesc::Option_(o) => k == 0 || cut_leaves_none(*o.item, bytes, k),
        TypeDesc::Union(u) => k >= 4 && match find_item(u.items@, number_at(bytes, 0), 0) {
            None => false,
            Some(i) => 0 <= i < u.items.len() && cut_leaves_none(
                u.items[i].typ,
                bytes.skip(4),
                k - 4,
            ),
        },
        _ => false,
    }
}

/// The first `k` bytes of an encoding of more than `k` bytes are no
/// encoding: the reader refuses them for their size, as a broken header or
/// as a total size that does not match. The one exception is a cut that
/// empties an option, which leaves the encoding of the absent value.
pub proof fn lemma_truncation(desc: TypeDesc, bytes: Seq<u8>, k: int, compatible: bool)
    requires
        desc.wf(),
        desc.verify_spec(bytes, compatible) is Ok,
        0 <= k < bytes.len(),
    ensures
        cut_leaves_none(desc, bytes, k) ==> desc.verify_spec(bytes.take(k), compatible) is Ok,
        !cut_leaves_none(desc, bytes, k) ==> (desc.verify_spec(bytes.take(k), compatible) matches Err(
            e,
        ) && e.is_size_error()),
    decreases desc,
{
    let cut = bytes.take(k);
    match desc {
        TypeDesc::DynVec(v) => {
            lemma_header_ok(v.name@, bytes);
        },
        TypeDesc::Table(t) => {
            lemma_header_ok(t.name@, bytes);
        },
        TypeDesc::Option_(o) => {
            if k > 0 {
                lemma_truncation(*o.item, bytes, k, compatible);
            }
        },
        TypeDesc::Union(u) => {
            if k >= 4 {
                let id = number_at(bytes, 0);
                lemma_find_item(u.items@, id, 0);
                let i = find_item(u.items@, id, 0)->Some_0;
                assert(cut.skip(4) =~= bytes.skip(4).take(k - 4));
                lemma_truncation(u.items[i].typ, bytes.skip(4), k - 4, compatible);
            }
        },
        _ => {},
    }
}

/// The first `k` bytes of an encoding of more than `k` bytes are refused as
/// a broken header or as a total size that does not match, unless the cut
/// empties an option.
pub proof fn lemma_truncation_rejected(desc: TypeDesc, bytes: Seq<u8>, k: int, compatible: bool)
    requires
        desc.wf(),
        desc.verify_spec(bytes, compatible) is Ok,
        0 <= k < bytes.len(),
        !cut_leaves_none(desc, bytes, k),
    ensures
        desc.verify_spec(bytes.take(k), compatible) matches Err(e) && (e is HeaderIsBroken || e
            is TotalSizeNotMatch),
{
    lemma_truncation(desc, bytes, k, compatible);
}

/// The value that a reader makes out in an encoding: the items of an array
/// or vector, the declared fields of a struct or table, what an option
/// holds if it holds anything, and the discriminant of a union and the
/// variant behind it.
pub open spec fn value(desc: TypeDesc, bytes: Seq<u8>) -> Seq<Seq<u8>> {
    match desc {
        TypeDesc::Byte => seq![bytes],
        TypeDesc::Array(a) => a.parts(bytes),
        TypeDesc::Struct(s) => s.parts(bytes),
        TypeDesc::FixVec(v) => v.parts(bytes),
        TypeDesc::DynVec(_) => DynVec::parts(bytes),
        TypeDesc::Table(t) => t.parts(bytes),
        TypeDesc::Option_(_) => match Option_::value(bytes) {
            None => Seq::empty(),
            Some(item) => seq![item],
        },
        TypeDesc::Union(_) => seq![number_bytes(Union::item_id(bytes)), Union::payload(bytes)],
    }
}

/// What the builder made from a reader of `bytes` puts together.
pub open spec fn rebuilt(desc: TypeDesc, bytes: Seq<u8>) -> Seq<u8> {
    match desc {
        TypeDesc::Byte => bytes,
        TypeDesc::Array(a) => Array::encoding(a.parts(bytes)),
        TypeDesc::Struct(s) => Struct::encoding(s.parts(bytes)),
        TypeDesc::FixVec(v) => FixVec::encoding(v.parts(bytes)),
        TypeDesc::DynVec(_) => DynVec::encoding(DynVec::parts(bytes)),
        TypeDesc::Table(t) => Table::encoding(t.parts(bytes)),
        TypeDesc::Option_(_) => Option_::encoding(Option_::value(bytes)),
        TypeDesc::Union(_) => Union::encoding(Union::item_id(bytes), Union::payload(bytes)),
    }
}

/// Reading an encoding, building from what was read and reading what was
/// built gives the value that the first reading gave, in every category.
/// What was built is the encoding itself, unless that is a table with
/// fields that the schema does not declare: those the builder leaves out.
pub proof fn lemma_round_trip(desc: TypeDesc, bytes: Seq<u8>, compatible: bool)
    requires
        desc.wf(),
        desc.verify_spec(bytes, compatible) is Ok,
    ensures
        desc.verify_spec(rebuilt(desc, bytes), compatible) is Ok,
        value(desc, rebuilt(desc, bytes)) == value(desc, bytes),
        !(desc matches TypeDesc::Table(t) && entry_count(bytes) > t.fields.len()) ==> rebuilt(
            desc,
            bytes,
        ) == bytes,
{
    match desc {
        TypeDesc::Byte => {},
        TypeDesc::Array(a) => {
            lemma_array_parts(a, bytes);
        },
        TypeDesc::Struct(s) => {
            lemma_struct_parts(s, bytes);
        },
        TypeDesc::FixVec(v) => {
            lemma_fixvec_parts(v, bytes);
        },
        TypeDesc::DynVec(v) => {
            lemma_dynvec_parts(v, bytes, compatible);
        },
        TypeDesc::Table(t) => {
            lemma_table_parts(t, bytes, compatible);
            lemma_table_round_trip(t, bytes, compatible);
            lemma_header_ok(t.name@, bytes);
        },
        TypeDesc::Option_(o) => {
            lemma_option_round_trip(o, bytes, compatible);
        },
        TypeDesc::Union(u) => {
            lemma_union_round_trip(u, bytes, compatible);
        },
    }
}

} // verus!
