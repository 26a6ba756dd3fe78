//! Tables: fields of any types behind an offset table. A table may hold more
//! fields than the schema declares; a reader that is told to be compatible
//! accepts them and leaves them alone.

use crate::defaults::{default_contents, default_parts, default_table_size};
use crate::error::{ErrorView, Verdict, VerificationError};
use crate::naming::{
    camel_case,
    camel_cases,
    find_name,
    name_views,
    position,
    to_camel,
    to_camel_all,
};
use crate::number::{HEADER_SIZE, Number, number_at, unpack_number};
use crate::offsets::{
    boundaries,
    check_header,
    encode_table,
    entry_count,
    header_verdict,
    is_non_decreasing,
    lemma_header_ok,
    lemma_header_same,
    lemma_table_canonical,
    lemma_table_encoding,
    lemma_table_encoding_empty,
    read_boundaries,
    read_offset,
    table_encoding,
    table_size,
};
use crate::pieces::{lemma_total_len_take, non_decreasing, pieces, views};
use crate::schema::{Table, TypeDesc};
use vstd::prelude::*;
use vstd::slice::slice_subrange;

verus! {

/// The verdict on the declared fields from field `i` on: that of the first
/// field that is no encoding of its type, if there is one.
pub open spec fn fields_verdict(
    fields: Seq<TypeDesc>,
    bytes: Seq<u8>,
    bounds: Seq<int>,
    i: int,
    compatible: bool,
) -> Verdict
    decreases fields, fields.len() - i,
{
    if i < 0 || i >= fields.len() {
        Ok(())
    } else {
        match fields[i].verify_spec(bytes.subrange(bounds[i], bounds[i + 1]), compatible) {
            Err(e) => Err(e),
            Ok(_) => fields_verdict(fields, bytes, bounds, i + 1, compatible),
        }
    }
}

/// The declared fields from field `i` on are all encodings of their types
/// exactly where the verdict on them is not an error.
pub proof fn lemma_fields_verdict(
    fields: Seq<TypeDesc>,
    bytes: Seq<u8>,
    bounds: Seq<int>,
    i: int,
    compatible: bool,
)
    requires
        0 <= i,
    ensures
        fields_verdict(fields, bytes, bounds, i, compatible) is Ok <==> forall|j: int|
            i <= j < fields.len() ==> (#[trigger] fields[j].verify_spec(
                bytes.subrange(bounds[j], bounds[j + 1]),
                compatible,
            )) is Ok,
    decreases fields.len() - i,
{
    if i < fields.len() {
        lemma_fields_verdict(fields, bytes, bounds, i + 1, compatible);
        let first = fields[i].verify_spec(bytes.subrange(bounds[i], bounds[i + 1]), compatible);
        if first is Ok && fields_verdict(fields, bytes, bounds, i + 1, compatible) is Ok {
            assert forall|j: int| i <= j < fields.len() implies (#[trigger] fields[j].verify_spec(
                bytes.subrange(bounds[j], bounds[j + 1]),
                compatible,
            )) is Ok by {
                if j > i {
                    assert(i + 1 <= j);
                }
            }
        }
    }
}

impl Table {
    /// The declared fields of an encoding, in order.
    pub open spec fn parts(&self, bytes: Seq<u8>) -> Seq<Seq<u8>> {
        pieces(bytes, boundaries(bytes, entry_count(bytes))).take(self.fields.len() as int)
    }

    /// The encoding that holds the given fields and no others.
    pub open spec fn encoding(parts: Seq<Seq<u8>>) -> Seq<u8> {
        table_encoding(parts)
    }

    /// What can be encoded: for each declared field an encoding of its
    /// type, of a size in all that a `Number` holds.
    pub open spec fn admits(&self, parts: Seq<Seq<u8>>, compatible: bool) -> bool {
        &&& parts.len() == self.fields.len()
        &&& table_size(parts) <= Number::MAX
        &&& forall|i: int|
            0 <= i < parts.len() ==> (#[trigger] self.fields[i].verify_spec(parts[i], compatible))
                is Ok
    }

    /// The verdict on the number of fields that an encoding holds.
    pub open spec fn count_verdict(&self, count: nat, compatible: bool) -> Verdict {
        if count < self.fields.len() || (count > self.fields.len() && !compatible) {
            Err(
                ErrorView::FieldCountNotMatch {
                    name: self.name@,
                    expected: self.fields.len() as nat,
                    actual: count,
                },
            )
        } else {
            Ok(())
        }
    }

    /// An encoding has a sound header, as many fields as the schema declares
    /// (or more, for a compatible reader), offsets that do not decrease, and
    /// for each declared field an encoding of its type.
    pub open spec fn verify_spec(&self, bytes: Seq<u8>, compatible: bool) -> Verdict
        decreases self, 0int,
    {
        match header_verdict(self.name@, bytes) {
            Err(e) => Err(e),
            Ok(count) => match self.count_verdict(count, compatible) {
                Err(e) => Err(e),
                Ok(_) => {
                    let bounds = boundaries(bytes, count);
                    if !non_decreasing(bounds) {
                        Err(ErrorView::OffsetsNotMatch { name: self.name@ })
                    } else {
                        fields_verdict(self.fields@, bytes, bounds, 0, compatible)
                    }
                },
            },
        }
    }

    /// Describes a table with the given fields. There is no such table
    /// where the names are not as many as the types, or a `Number` does not
    /// hold the size of the table in which every field has its default
    /// value.
    pub fn new(name: &str, field_names: &Vec<String>, fields: Vec<TypeDesc>) -> (r: Option<
        Table,
    >)
        requires
            forall|i: int| 0 <= i < fields.len() ==> (#[trigger] fields[i]).wf(),
        ensures
            r is Some <==> field_names.len() == fields.len() && table_size(
                default_parts(fields@),
            ) <= Number::MAX,
            r matches Some(t) ==> t.wf() && t.name@ == camel_case(name@) && t.fields == fields
                && name_views(t.field_names@) == camel_cases(field_names@),
    {
        if field_names.len() != fields.len() {
            return None;
        }
        match default_table_size(&fields) {
            None => None,
            Some(_) => Some(
                Table { name: to_camel(name), field_names: to_camel_all(field_names), fields },
            ),
        }
    }

    /// The position of the declared field with the given name.
    pub fn field_index(&self, name: &str) -> (found: Option<usize>)
        ensures
            match found {
                Some(i) => i < self.field_names.len() && find_name(
                    name_views(self.field_names@),
                    camel_case(name@),
                    0,
                ) == Some(i as int),
                None => find_name(name_views(self.field_names@), camel_case(name@), 0) is None,
            },
    {
        position(&self.field_names, name)
    }

    /// Checks that `slice` encodes a value of this table.
    pub fn verify(&self, slice: &[u8], compatible: bool) -> (r: Result<(), VerificationError>)
        ensures
            match r {
                Ok(_) => self.verify_spec(slice@, compatible) is Ok,
                Err(e) => self.verify_spec(slice@, compatible) == Err::<(), ErrorView>(e@),
            },
        decreases self,
    {
        let count = match check_header(&self.name, slice) {
            Ok(count) => count,
            Err(e) => {
                return Err(e);
            },
        };
        proof {
            lemma_header_ok(self.name@, slice@);
        }
        let declared = self.fields.len();
        if count < declared || (count > declared && !compatible) {
            return Err(
                VerificationError::FieldCountNotMatch {
                    name: self.name.clone(),
                    expected: declared as u64,
                    actual: count as u64,
                },
            );
        }
        let bounds = read_boundaries(slice, count);
        if !is_non_decreasing(&bounds) {
            return Err(VerificationError::OffsetsNotMatch { name: self.name.clone() });
        }
        let ghost ints = bounds@.map_values(|b: usize| b as int);
        let mut i: usize = 0;
        while i < declared
            invariant
                i <= declared,
                declared == self.fields.len(),
                declared <= count,
                header_verdict(self.name@, slice@) == Ok::<nat, ErrorView>(count as nat),
                self.count_verdict(count as nat, compatible) is Ok,
                bounds@.len() == count + 1,
                ints == bounds@.map_values(|b: usize| b as int),
                ints == boundaries(slice@, count as nat),
                non_decreasing(ints),
                fields_verdict(self.fields@, slice@, ints, 0, compatible) == fields_verdict(
                    self.fields@,
                    slice@,
                    ints,
                    i as int,
                    compatible,
                ),
            decreases declared - i,
        {
            assert(ints[i as int] <= ints[i + 1] <= ints[count as int]);
            let field = slice_subrange(slice, bounds[i], bounds[i + 1]);
            match self.fields[i].verify(field, compatible) {
                Err(e) => {
                    return Err(e);
                },
                Ok(_) => {},
            }
            i += 1;
        }
        Ok(())
    }
}

/// A slice read as a table.
#[derive(Debug, Clone, Copy)]
pub struct TableReader<'a> {
    pub desc: &'a Table,
    pub inner: &'a [u8],
}

impl<'a> TableReader<'a> {
    /// The slice is an encoding of the table, for a compatible reader.
    pub open spec fn wf(&self) -> bool {
        self.desc.wf() && self.desc.verify_spec(self.inner@, true) is Ok
    }

    /// The declared fields of the table.
    pub open spec fn parts(&self) -> Seq<Seq<u8>> {
        self.desc.parts(self.inner@)
    }

    /// Validates `slice` and reads it as a table.
    pub fn from_slice(desc: &'a Table, slice: &'a [u8], compatible: bool) -> (r: Result<
        Self,
        VerificationError,
    >)
        ensures
            match r {
                Ok(reader) => desc.verify_spec(slice@, compatible) is Ok && reader.desc == desc
                    && reader.inner == slice && (desc.wf() ==> reader.wf()),
                Err(e) => desc.verify_spec(slice@, compatible) == Err::<(), ErrorView>(e@),
            },
    {
        match desc.verify(slice, compatible) {
            Ok(_) => {
                proof {
                    if !compatible {
                        TypeDesc::Table(*desc).lemma_compatible(slice@);
                    }
                }
                Ok(TableReader { desc, inner: slice })
            },
            Err(e) => Err(e),
        }
    }

    /// Reads `slice` as a table without validating it.
    pub fn from_slice_unchecked(desc: &'a Table, slice: &'a [u8]) -> (reader: Self)
        ensures
            reader.desc == desc,
            reader.inner == slice,
    {
        TableReader { desc, inner: slice }
    }

    /// The slice behind the reader.
    pub fn as_slice(&self) -> (slice: &'a [u8])
        ensures
            slice == self.inner,
    {
        self.inner
    }

    /// The size of the encoding, as the header records it.
    pub fn total_size(&self) -> (size: usize)
        requires
            self.wf(),
        ensures
            size == number_at(self.inner@, 0),
            size == self.inner@.len(),
    {
        proof {
            lemma_header_ok(self.desc.name@, self.inner@);
        }
        unpack_number(self.inner) as usize
    }

    /// The number of fields that the encoding holds, declared or not.
    pub fn field_count(&self) -> (count: usize)
        requires
            self.wf(),
        ensures
            count == entry_count(self.inner@),
            count >= self.desc.fields.len(),
            4 * (count + 1) <= self.inner@.len(),
    {
        proof {
            lemma_header_ok(self.desc.name@, self.inner@);
        }
        if self.total_size() == HEADER_SIZE {
            return 0;
        }
        let first = unpack_number(slice_subrange(self.inner, HEADER_SIZE, self.inner.len()));
        assert(number_at(self.inner@.subrange(4, self.inner@.len() as int), 0) == number_at(
            self.inner@,
            4,
        ));
        (first / 4 - 1) as usize
    }

    /// The number of fields that the encoding holds, declared or not.
    pub fn len(&self) -> (count: usize)
        requires
            self.wf(),
        ensures
            count == entry_count(self.inner@),
    {
        self.field_count()
    }

    /// Whether the encoding holds no field at all.
    pub fn is_empty(&self) -> (empty: bool)
        requires
            self.wf(),
        ensures
            empty <==> entry_count(self.inner@) == 0,
    {
        self.len() == 0
    }

    /// The number of fields that the encoding holds beyond the declared
    /// ones.
    pub fn count_extra_fields(&self) -> (extra: usize)
        requires
            self.wf(),
        ensures
            extra == entry_count(self.inner@) - self.desc.fields.len(),
    {
        self.field_count() - self.desc.fields.len()
    }

    /// Whether the encoding holds fields beyond the declared ones.
    pub fn has_extra_fields(&self) -> (extra: bool)
        requires
            self.wf(),
        ensures
            extra <==> entry_count(self.inner@) > self.desc.fields.len(),
    {
        self.desc.fields.len() != self.field_count()
    }

    /// Declared field `index`: the bytes from its offset to the offset of
    /// the next field that the encoding holds, declared or not, or to the
    /// end where it holds no further field.
    pub fn field(&self, index: usize) -> (field: &'a [u8])
        requires
            self.wf(),
            index < self.desc.fields.len(),
        ensures
            field@ == self.parts()[index as int],
            self.desc.fields[index as int].verify_spec(field@, true) is Ok,
            field@ == self.inner@.subrange(
                number_at(self.inner@, 4 * (index + 1)) as int,
                if index + 1 < entry_count(self.inner@) {
                    number_at(self.inner@, 4 * (index + 2)) as int
                } else {
                    self.inner@.len() as int
                },
            ),
    {
        let count = self.field_count();
        let len = self.inner.len();
        let ghost bounds = boundaries(self.inner@, count as nat);
        proof {
            lemma_header_ok(self.desc.name@, self.inner@);
            lemma_fields_verdict(self.desc.fields@, self.inner@, bounds, 0, true);
            assert(bounds[index as int] <= bounds[index + 1] <= bounds[count as int]);
        }
        let start = read_offset(self.inner, index);
        let end = if index + 1 < count {
            read_offset(self.inner, index + 1)
        } else {
            len
        };
        slice_subrange(self.inner, start, end)
    }

    /// The declared field with the given name, if there is one.
    pub fn field_named(&self, name: &str) -> (field: Option<&'a [u8]>)
        requires
            self.wf(),
        ensures
            match find_name(name_views(self.desc.field_names@), camel_case(name@), 0) {
                Some(i) => 0 <= i < self.parts().len() && (field matches Some(f) && f@
                    == self.parts()[i]),
                None => field is None,
            },
    {
        match self.desc.field_index(name) {
            None => None,
            Some(index) => Some(self.field(index)),
        }
    }

    /// A builder that holds the declared fields of this table.
    pub fn as_builder(&self) -> (builder: TableBuilder<'a>)
        requires
            self.wf(),
        ensures
            builder.desc == self.desc,
            builder@ == self.parts(),
            builder.wf(),
    {
        let count = self.desc.fields.len();
        let mut items: Vec<Vec<u8>> = Vec::with_capacity(count);
        let mut k: usize = 0;
        proof {
            lemma_header_ok(self.desc.name@, self.inner@);
        }
        while k < count
            invariant
                self.wf(),
                count == self.desc.fields.len(),
                count == self.parts().len(),
                k <= count,
                items@.len() == k,
                forall|i: int| 0 <= i < k ==> (#[trigger] items@[i])@ == self.parts()[i],
            decreases count - k,
        {
            let field = self.field(k);
            items.push(vstd::slice::slice_to_vec(field));
            k += 1;
        }
        assert(views(items@) =~= self.parts());
        TableBuilder { desc: self.desc, items }
    }
}

/// The fields from which a table is put together.
#[derive(Debug)]
pub struct TableBuilder<'a> {
    pub desc: &'a Table,
    pub items: Vec<Vec<u8>>,
}

impl<'a> View for TableBuilder<'a> {
    type V = Seq<Seq<u8>>;

    open spec fn view(&self) -> Seq<Seq<u8>> {
        views(self.items@)
    }
}

impl<'a> TableBuilder<'a> {
    /// The builder holds one value for every declared field.
    pub open spec fn wf(&self) -> bool {
        self.desc.wf() && self@.len() == self.desc.fields.len()
    }

    /// A builder in which every field has its default value.
    pub fn new(desc: &'a Table) -> (builder: Self)
        requires
            desc.wf(),
        ensures
            builder.desc == desc,
            builder@ == default_parts(desc.fields@),
            builder.wf(),
    {
        TableBuilder { desc, items: default_contents(&desc.fields) }
    }

    /// Puts `field` in the place of declared field `index`. Nothing
    /// changes, and the answer is `false`, where there is no such field.
    pub fn set_field(&mut self, index: usize, field: &[u8]) -> (done: bool)
        requires
            old(self).wf(),
        ensures
            final(self).desc == old(self).desc,
            final(self).wf(),
            done <==> index < old(self).desc.fields.len(),
            done ==> final(self)@ == old(self)@.update(index as int, field@),
            !done ==> final(self)@ == old(self)@,
    {
        if index >= self.items.len() {
            return false;
        }
        self.items.set(index, vstd::slice::slice_to_vec(field));
        assert(self@ =~= old(self)@.update(index as int, field@));
        true
    }

    /// Puts `field` in the place of the declared field with the given name.
    /// Nothing changes, and the answer is `false`, where there is no such
    /// field.
    pub fn set_field_named(&mut self, name: &str, field: &[u8]) -> (done: bool)
        requires
            old(self).wf(),
        ensures
            final(self).desc == old(self).desc,
            final(self).wf(),
            match find_name(name_views(old(self).desc.field_names@), camel_case(name@), 0) {
                Some(i) => done && final(self)@ == old(self)@.update(i, field@),
                None => !done && final(self)@ == old(self)@,
            },
    {
        match self.desc.field_index(name) {
            None => false,
            Some(index) => self.set_field(index, field),
        }
    }

    /// The encoding of the table that holds the fields of the builder.
    /// There is none where the encoding would be larger than a `Number`
    /// can say.
    pub fn build(&self) -> (r: Option<Vec<u8>>)
        ensures
            r is Some <==> table_size(self@) <= Number::MAX,
            r matches Some(bytes) ==> bytes@ == Table::encoding(self@),
    {
        encode_table(&self.items)
    }
}

/// The declared fields of an encoding are encodings of their types. Where
/// the encoding holds no other fields, they are, behind their offset table,
/// the encoding.
pub proof fn lemma_table_parts(desc: Table, bytes: Seq<u8>, compatible: bool)
    requires
        desc.wf(),
        desc.verify_spec(bytes, compatible) is Ok,
    ensures
        desc.admits(desc.parts(bytes), compatible),
        entry_count(bytes) == desc.fields.len() ==> Table::encoding(desc.parts(bytes)) == bytes,
{
    lemma_header_ok(desc.name@, bytes);
    let count = entry_count(bytes);
    let declared = desc.fields.len() as int;
    let bounds = boundaries(bytes, count);
    let all = pieces(bytes, bounds);
    lemma_table_canonical(bytes, count);
    lemma_fields_verdict(desc.fields@, bytes, bounds, 0, compatible);
    lemma_total_len_take(all, declared, count as int);
    assert(all.take(declared).take(declared) =~= all.take(declared));
    lemma_total_len_take(all.take(declared), declared, declared);
    if count == declared {
        assert(all.take(declared) =~= all);
    }
}

/// What a builder puts together from encodings of the field types is an
/// encoding of the table without further fields, and reading it gives the
/// fields back.
pub proof fn lemma_table_build(desc: Table, parts: Seq<Seq<u8>>, compatible: bool)
    requires
        desc.wf(),
        desc.admits(parts, compatible),
    ensures
        desc.verify_spec(Table::encoding(parts), compatible) is Ok,
        desc.parts(Table::encoding(parts)) == parts,
        entry_count(Table::encoding(parts)) == desc.fields.len(),
{
    let enc = Table::encoding(parts);
    lemma_table_encoding(parts);
    lemma_header_ok(Seq::empty(), enc);
    lemma_header_same(desc.name@, enc);
    let bounds = boundaries(enc, parts.len());
    lemma_fields_verdict(desc.fields@, enc, bounds, 0, compatible);
    assert forall|j: int| 0 <= j < desc.fields.len() implies (
    #[trigger] desc.fields@[j].verify_spec(enc.subrange(bounds[j], bounds[j + 1]), compatible))
        is Ok by {
        assert(pieces(enc, bounds)[j] == parts[j]);
    }
    assert(parts.take(parts.len() as int) =~= parts);
}

/// Reading an encoding, building from what was read and reading again gives
/// what the first reading gave: the declared fields.
pub proof fn lemma_table_round_trip(desc: Table, bytes: Seq<u8>, compatible: bool)
    requires
        desc.wf(),
        desc.verify_spec(bytes, compatible) is Ok,
    ensures
        table_size(desc.parts(bytes)) <= Number::MAX,
        desc.verify_spec(Table::encoding(desc.parts(bytes)), compatible) is Ok,
        desc.parts(Table::encoding(desc.parts(bytes))) == desc.parts(bytes),
{
    lemma_table_parts(desc, bytes, compatible);
    lemma_table_build(desc, desc.parts(bytes), compatible);
}

/// An encoding with more fields than the schema declares, which a
/// compatible reader accepts, is refused by a strict reader for its number
/// of fields.
pub proof fn lemma_table_extra_fields(desc: Table, bytes: Seq<u8>)
    requires
        desc.verify_spec(bytes, true) is Ok,
        entry_count(bytes) > desc.fields.len(),
    ensures
        desc.verify_spec(bytes, false) == Err::<(), ErrorView>(
            ErrorView::FieldCountNotMatch {
                name: desc.name@,
                expected: desc.fields.len() as nat,
                actual: entry_count(bytes),
            },
        ),
{
    lemma_header_ok(desc.name@, bytes);
}

/// The encoding of a table without fields is its header alone, the bytes
/// 4, 0, 0, 0, and every reader accepts it as a table without fields.
pub proof fn lemma_table_without_fields(desc: Table, compatible: bool)
    requires
        desc.fields.len() == 0,
    ensures
        Table::encoding(Seq::empty()) == seq![4u8, 0u8, 0u8, 0u8],
        desc.verify_spec(Table::encoding(Seq::empty()), compatible) is Ok,
        entry_count(Table::encoding(Seq::empty())) == 0,
{
    let none = Seq::<Seq<u8>>::empty();
    lemma_table_encoding_empty();
    lemma_table_encoding(none);
    lemma_header_same(desc.name@, Table::encoding(none));
    lemma_header_ok(desc.name@, Table::encoding(none));
}

} // verus!
