//! Structs: fields of fixed sizes, one after the other, with no header.

use crate::error::{ErrorView, Verdict, VerificationError};
use crate::naming::{
    camel_case,
    camel_cases,
    find_name,
    name_views,
    position,
    to_camel,
    to_camel_all,
};
use crate::pieces::{
    append_all,
    concat,
    layout,
    lemma_concat_len,
    lemma_concat_pieces,
    lemma_pieces_of_concat,
    lemma_total_len_take,
    pieces,
    total_len,
    views,
    zeros,
};
use crate::schema::{Struct, sum_sizes, TypeDesc};
use vstd::prelude::*;
use vstd::slice::slice_subrange;

verus! {

impl Struct {
    /// An encoding of the struct is any slice of its total size.
    pub open spec fn verify_spec(&self, bytes: Seq<u8>) -> Verdict {
        if bytes.len() == self.total_size {
            Ok(())
        } else {
            Err(
                ErrorView::TotalSizeNotMatch {
                    name: self.name@,
                    expected: self.total_size as nat,
                    actual: bytes.len(),
                },
            )
        }
    }

    /// Where each field starts, and where the last one ends.
    pub open spec fn bounds(&self) -> Seq<int> {
        Seq::new((self.fields.len() + 1) as nat, |k: int| sum_sizes(self.field_sizes@, k) as int)
    }

    /// The fields of an encoding, in order.
    pub open spec fn parts(&self, bytes: Seq<u8>) -> Seq<Seq<u8>> {
        pieces(bytes, self.bounds())
    }

    /// The encoding that holds the given fields.
    pub open spec fn encoding(parts: Seq<Seq<u8>>) -> Seq<u8> {
        concat(parts)
    }

    /// What a builder may hold: one value of the right size for each field.
    pub open spec fn admits(&self, parts: Seq<Seq<u8>>) -> bool {
        &&& parts.len() == self.fields.len()
        &&& forall|k: int|
            0 <= k < parts.len() ==> (#[trigger] parts[k]).len() == self.field_sizes[k]
    }

    /// Describes a struct with the given fields, and works out where each
    /// field starts. There is no such struct where the names are not as
    /// many as the types, a field type has no fixed size or the total size
    /// is more than a `usize` holds.
    pub fn new(name: &str, field_names: &Vec<String>, fields: Vec<TypeDesc>) -> (r: Option<
        Struct,
    >)
        requires
            forall|i: int| 0 <= i < fields.len() ==> (#[trigger] fields[i]).wf(),
        ensures
            r is Some <==> field_names.len() == fields.len() && (forall|i: int|
                0 <= i < fields.len() ==> (#[trigger] fields[i]).fixed_size() is Some)
                && sum_fixed_sizes(fields@, fields.len() as int) <= usize::MAX,
            r matches Some(s) ==> s.wf() && s.name@ == camel_case(name@) && s.fields == fields
                && name_views(s.field_names@) == camel_cases(field_names@),
    {
        if field_names.len() != fields.len() {
            return None;
        }
        let mut field_sizes: Vec<usize> = Vec::with_capacity(fields.len());
        let mut offsets: Vec<usize> = Vec::with_capacity(fields.len());
        let mut offset: usize = 0;
        let mut i: usize = 0;
        while i < fields.len()
            invariant
                i <= fields.len(),
                field_sizes.len() == i,
                offsets.len() == i,
                offset == sum_sizes(field_sizes@, i as int),
                offset == sum_fixed_sizes(fields@, i as int),
                forall|j: int|
                    0 <= j < i ==> (#[trigger] fields[j]).fixed_size() == Some(
                        field_sizes[j] as nat,
                    ),
                forall|j: int| 0 <= j < i ==> offsets[j] == sum_sizes(field_sizes@, j),
            decreases fields.len() - i,
        {
            let size = match fields[i].size() {
                Some(size) => size,
                None => {
                    return None;
                },
            };
            let end = match offset.checked_add(size) {
                Some(end) => end,
                None => {
                    proof {
                        lemma_sum_fixed_sizes_grows(fields@, i + 1, fields.len() as int);
                    }
                    return None;
                },
            };
            let ghost before = field_sizes@;
            offsets.push(offset);
            field_sizes.push(size);
            proof {
                assert forall|j: int| 0 <= j <= i implies sum_sizes(field_sizes@, j) == sum_sizes(
                    before,
                    j,
                ) by {
                    lemma_sum_sizes_prefix(before, field_sizes@, j);
                }
            }
            offset = end;
            i += 1;
        }
        Some(
            Struct {
                name: to_camel(name),
                field_names: to_camel_all(field_names),
                fields,
                field_sizes,
                offsets,
                total_size: offset,
            },
        )
    }

    /// Where field `index` starts in an encoding, and where it ends.
    pub fn field_bounds(&self, index: usize) -> (bounds: (usize, usize))
        requires
            self.wf(),
            index < self.fields.len(),
        ensures
            bounds.0 == sum_sizes(self.field_sizes@, index as int),
            bounds.1 == sum_sizes(self.field_sizes@, index + 1),
            bounds.0 == self.offsets[index as int],
            bounds.1 == self.offsets[index as int] + self.field_sizes[index as int],
            bounds.1 <= self.total_size,
    {
        proof {
            lemma_sum_sizes_grows(self.field_sizes@, index + 1, self.fields.len() as int);
            assert(self.fields[index as int].wf());
        }
        let start = self.offsets[index];
        (start, start + self.field_sizes[index])
    }

    /// The position of the field with the given name.
    pub fn field_index(&self, name: &str) -> (found: Option<usize>)
        ensures
            match found {
                Some(i) => i < self.field_names.len() && find_name(
                    name_views(self.field_names@),
                    camel_case(name@),
                    0,
                ) == Some(i as int),
                None => find_name(name_views(self.field_names@), camel_case(name@), 0) is None,
            },
    {
        position(&self.field_names, name)
    }

    /// Checks that `slice` encodes a value of this struct.
    pub fn verify(&self, slice: &[u8]) -> (r: Result<(), VerificationError>)
        ensures
            match r {
                Ok(_) => self.verify_spec(slice@) is Ok,
                Err(e) => self.verify_spec(slice@) == Err::<(), ErrorView>(e@),
            },
    {
        if slice.len() != self.total_size {
            return Err(
                VerificationError::TotalSizeNotMatch {
                    name: self.name.clone(),
                    expected: self.total_size as u64,
                    actual: slice.len() as u64,
                },
            );
        }
        Ok(())
    }
}

/// The sum of the fixed sizes of the first `i` types; a type without a fixed
/// size counts as empty.
pub open spec fn sum_fixed_sizes(fields: Seq<TypeDesc>, i: int) -> nat
    decreases i,
{
    if i <= 0 {
        0
    } else {
        sum_fixed_sizes(fields, i - 1) + match fields[i - 1].fixed_size() {
            Some(n) => n,
            None => 0,
        }
    }
}

/// The sum of more fixed sizes is no smaller.
pub proof fn lemma_sum_fixed_sizes_grows(fields: Seq<TypeDesc>, i: int, j: int)
    requires
        i <= j,
    ensures
        sum_fixed_sizes(fields, i) <= sum_fixed_sizes(fields, j),
    decreases j - i,
{
    if i < j {
        lemma_sum_fixed_sizes_grows(fields, i, j - 1);
    }
}

/// The sum of the first sizes does not depend on the sizes behind them.
pub proof fn lemma_sum_sizes_prefix(a: Seq<usize>, b: Seq<usize>, i: int)
    requires
        i <= a.len() <= b.len(),
        forall|j: int| 0 <= j < a.len() ==> a[j] == b[j],
    ensures
        sum_sizes(a, i) == sum_sizes(b, i),
    decreases i,
{
    if i > 0 {
        lemma_sum_sizes_prefix(a, b, i - 1);
    }
}

/// The sum of more sizes is no smaller.
pub proof fn lemma_sum_sizes_grows(sizes: Seq<usize>, i: int, j: int)
    requires
        i <= j,
    ensures
        sum_sizes(sizes, i) <= sum_sizes(sizes, j),
    decreases j - i,
{
    if i < j {
        lemma_sum_sizes_grows(sizes, i, j - 1);
    }
}

/// A slice read as a struct.
#[derive(Debug, Clone, Copy)]
pub struct StructReader<'a> {
    pub desc: &'a Struct,
    pub inner: &'a [u8],
}

impl<'a> StructReader<'a> {
    /// The slice is an encoding of the struct.
    pub open spec fn wf(&self) -> bool {
        self.desc.wf() && self.desc.verify_spec(self.inner@) is Ok
    }

    /// The fields of the struct.
    pub open spec fn parts(&self) -> Seq<Seq<u8>> {
        self.desc.parts(self.inner@)
    }

    /// Validates `slice` and reads it as a struct. The flag plays no part:
    /// a struct holds nothing that can be extended.
    pub fn from_slice(desc: &'a Struct, slice: &'a [u8], compatible: bool) -> (r: Result<
        Self,
        VerificationError,
    >)
        ensures
            match r {
                Ok(reader) => desc.verify_spec(slice@) is Ok && reader.desc == desc
                    && reader.inner == slice,
                Err(e) => desc.verify_spec(slice@) == Err::<(), ErrorView>(e@),
            },
    {
        match desc.verify(slice) {
            Ok(_) => Ok(StructReader { desc, inner: slice }),
            Err(e) => Err(e),
        }
    }

    /// Reads `slice` as a struct without validating it.
    pub fn from_slice_unchecked(desc: &'a Struct, slice: &'a [u8]) -> (reader: Self)
        ensures
            reader.desc == desc,
            reader.inner == slice,
    {
        StructReader { desc, inner: slice }
    }

    /// The slice behind the reader.
    pub fn as_slice(&self) -> (slice: &'a [u8])
        ensures
            slice == self.inner,
    {
        self.inner
    }

    /// Field `index` of the struct: the bytes from its offset on, as many as
    /// its size.
    pub fn field(&self, index: usize) -> (field: &'a [u8])
        requires
            self.wf(),
            index < self.desc.fields.len(),
        ensures
            field@ == self.parts()[index as int],
            field@ == self.inner@.subrange(
                self.desc.offsets[index as int] as int,
                self.desc.offsets[index as int] + self.desc.field_sizes[index as int],
            ),
            self.desc.fields[index as int].verify_spec(field@, true) is Ok,
    {
        let (start, end) = self.desc.field_bounds(index);
        proof {
            self.desc.fields[index as int].lemma_fixed_size_valid(
                self.inner@.subrange(start as int, end as int),
            );
        }
        slice_subrange(self.inner, start, end)
    }

    /// The field with the given name, if there is one.
    pub fn field_named(&self, name: &str) -> (field: Option<&'a [u8]>)
        requires
            self.wf(),
        ensures
            match find_name(name_views(self.desc.field_names@), camel_case(name@), 0) {
                Some(i) => 0 <= i < self.parts().len() && (field matches Some(f) && f@
                    == self.parts()[i]),
                None => field is None,
            },
    {
        match self.desc.field_index(name) {
            None => None,
            Some(index) => Some(self.field(index)),
        }
    }

    /// A builder that holds the fields of this struct.
    pub fn as_builder(&self) -> (builder: StructBuilder<'a>)
        requires
            self.wf(),
        ensures
            builder.desc == self.desc,
            builder@ == self.parts(),
            builder.wf(),
    {
        let count = self.desc.fields.len();
        let mut items: Vec<Vec<u8>> = Vec::with_capacity(count);
        let mut k: usize = 0;
        while k < count
            invariant
                self.wf(),
                count == self.desc.fields.len(),
                k <= count,
                items@.len() == k,
                forall|i: int| 0 <= i < k ==> (#[trigger] items@[i])@ == self.parts()[i],
            decreases count - k,
        {
            let field = self.field(k);
            items.push(vstd::slice::slice_to_vec(field));
            k += 1;
        }
        proof {
            assert(views(items@) =~= self.parts());
            lemma_struct_parts(*self.desc, self.inner@);
        }
        StructBuilder { desc: self.desc, items }
    }
}

/// The fields from which a struct is put together.
#[derive(Debug)]
pub struct StructBuilder<'a> {
    pub desc: &'a Struct,
    pub items: Vec<Vec<u8>>,
}

impl<'a> View for StructBuilder<'a> {
    type V = Seq<Seq<u8>>;

    open spec fn view(&self) -> Seq<Seq<u8>> {
        views(self.items@)
    }
}

impl<'a> StructBuilder<'a> {
    /// The builder holds one value of the right size for every field.
    pub open spec fn wf(&self) -> bool {
        self.desc.wf() && self.desc.admits(self@)
    }

    /// A builder whose fields are all zero.
    pub fn new(desc: &'a Struct) -> (builder: Self)
        requires
            desc.wf(),
        ensures
            builder.desc == desc,
            builder.wf(),
            forall|k: int, i: int|
                #![trigger builder@[k][i]]
                0 <= k < desc.fields.len() && 0 <= i < desc.field_sizes[k] ==> builder@[k][i]
                    == 0,
    {
        let count = desc.fields.len();
        let mut items: Vec<Vec<u8>> = Vec::with_capacity(count);
        let mut k: usize = 0;
        while k < count
            invariant
                desc.wf(),
                count == desc.fields.len(),
                k <= count,
                items@.len() == k,
                forall|j: int|
                    0 <= j < k ==> (#[trigger] items@[j])@.len() == desc.field_sizes[j],
                forall|j: int, i: int|
                    #![trigger items@[j]@[i]]
                    0 <= j < k && 0 <= i < desc.field_sizes[j] ==> items@[j]@[i] == 0,
            decreases count - k,
        {
            items.push(zeros(desc.field_sizes[k]));
            k += 1;
        }
        StructBuilder { desc, items }
    }

    /// Puts `field` at position `index`. Nothing changes, and the answer is
    /// `false`, where there is no such field or `field` has another size
    /// than that field.
    pub fn set_field(&mut self, index: usize, field: &[u8]) -> (done: bool)
        requires
            old(self).wf(),
        ensures
            final(self).desc == old(self).desc,
            final(self).wf(),
            done <==> index < old(self).desc.fields.len() && field@.len() == old(
                self,
            ).desc.field_sizes[index as int],
            done ==> final(self)@ == old(self)@.update(index as int, field@),
            !done ==> final(self)@ == old(self)@,
    {
        if index >= self.desc.fields.len() || field.len() != self.desc.field_sizes[index] {
            return false;
        }
        self.items.set(index, vstd::slice::slice_to_vec(field));
        assert(self@ =~= old(self)@.update(index as int, field@));
        true
    }

    /// The encoding of the struct that holds the fields of the builder.
    pub fn build(&self) -> (bytes: Vec<u8>)
        ensures
            bytes@ == Struct::encoding(self@),
    {
        let mut bytes: Vec<u8> = Vec::new();
        append_all(&mut bytes, &self.items);
        assert(bytes@ =~= concat(self@));
        bytes
    }
}

/// Fields of the recorded sizes, laid back to back, start at the recorded
/// offsets.
pub proof fn lemma_struct_layout(desc: Struct, parts: Seq<Seq<u8>>)
    requires
        desc.wf(),
        desc.admits(parts),
    ensures
        layout(parts, 0) == desc.bounds(),
        total_len(parts) == desc.total_size,
{
    assert forall|k: int| 0 <= k <= parts.len() implies total_len(#[trigger] parts.take(k))
        == sum_sizes(desc.field_sizes@, k) by {
        lemma_total_len_sizes(desc.field_sizes@, parts, k);
    }
    assert(parts.take(parts.len() as int) =~= parts);
    assert(layout(parts, 0) =~= desc.bounds());
}

/// The lengths of the first pieces add up to the sum of their sizes.
pub proof fn lemma_total_len_sizes(sizes: Seq<usize>, parts: Seq<Seq<u8>>, k: int)
    requires
        0 <= k <= parts.len() <= sizes.len(),
        forall|j: int| 0 <= j < parts.len() ==> (#[trigger] parts[j]).len() == sizes[j],
    ensures
        total_len(parts.take(k)) == sum_sizes(sizes, k),
    decreases k,
{
    if k > 0 {
        lemma_total_len_sizes(sizes, parts, k - 1);
        lemma_total_len_take(parts, k - 1, k);
    } else {
        assert(parts.take(0) =~= Seq::<Seq<u8>>::empty());
    }
}

/// The fields of an encoding have the recorded sizes and, joined, are the
/// encoding.
pub proof fn lemma_struct_parts(desc: Struct, bytes: Seq<u8>)
    requires
        desc.wf(),
        desc.verify_spec(bytes) is Ok,
    ensures
        desc.admits(desc.parts(bytes)),
        Struct::encoding(desc.parts(bytes)) == bytes,
{
    let b = desc.bounds();
    assert forall|i: int, j: int| 0 <= i <= j < b.len() implies b[i] <= b[j] by {
        lemma_sum_sizes_grows(desc.field_sizes@, i, j);
    }
    lemma_concat_pieces(bytes, b);
    assert(bytes.subrange(0, bytes.len() as int) =~= bytes);
    assert forall|k: int| 0 <= k < desc.fields.len() implies (#[trigger] desc.parts(
        bytes,
    )[k]).len() == desc.field_sizes[k] by {
        lemma_sum_sizes_grows(desc.field_sizes@, k + 1, desc.fields.len() as int);
    }
}

/// What a builder puts together is an encoding of the struct, and reading
/// it gives the fields of the builder back.
pub proof fn lemma_struct_build(desc: Struct, parts: Seq<Seq<u8>>)
    requires
        desc.wf(),
        desc.admits(parts),
    ensures
        desc.verify_spec(Struct::encoding(parts)) is Ok,
        desc.parts(Struct::encoding(parts)) == parts,
{
    lemma_struct_layout(desc, parts);
    lemma_concat_len(parts);
    lemma_pieces_of_concat(Seq::empty(), parts, Seq::empty());
    assert(Seq::<u8>::empty() + concat(parts) + Seq::<u8>::empty() =~= concat(parts));
}

/// Reading an encoding, building from what was read and reading again gives
/// what the first reading gave.
pub proof fn lemma_struct_round_trip(desc: Struct, bytes: Seq<u8>)
    requires
        desc.wf(),
        desc.verify_spec(bytes) is Ok,
    ensures
        desc.verify_spec(Struct::encoding(desc.parts(bytes))) is Ok,
        desc.parts(Struct::encoding(desc.parts(bytes))) == desc.parts(bytes),
{
    lemma_struct_parts(desc, bytes);
}

} // verus!
