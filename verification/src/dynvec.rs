//! Dynamic vectors: any number of items of any sizes, behind an offset table.

use crate::error::{ErrorView, Verdict, VerificationError};
use crate::naming::{camel_case, to_camel};
use crate::number::{HEADER_SIZE, Number, number_at, unpack_number};
use crate::offsets::{
    boundaries,
    check_header,
    encode_table,
    entry_count,
    header_verdict,
    is_non_decreasing,
    lemma_header_ok,
    lemma_header_same,
    lemma_table_canonical,
    lemma_table_encoding,
    read_boundaries,
    read_offset,
    table_encoding,
    table_size,
};
use crate::pieces::{non_decreasing, pieces, views};
use crate::schema::{DynVec, TypeDesc};
use vstd::prelude::*;
use vstd::slice::slice_subrange;

verus! {

/// The verdict on the items from item `k` on: that of the first item that is
/// no encoding of `item`, if there is one.
pub open spec fn items_verdict(
    item: TypeDesc,
    bytes: Seq<u8>,
    bounds: Seq<int>,
    k: int,
    compatible: bool,
) -> Verdict
    decreases item, 1 + bounds.len() - k,
{
    if k < 0 || k + 1 >= bounds.len() {
        Ok(())
    } else {
        match item.verify_spec(bytes.subrange(bounds[k], bounds[k + 1]), compatible) {
            Err(e) => Err(e),
            Ok(_) => items_verdict(item, bytes, bounds, k + 1, compatible),
        }
    }
}

/// The items from item `k` on are all encodings of `item` exactly where the
/// verdict on them is not an error.
pub proof fn lemma_items_verdict(
    item: TypeDesc,
    bytes: Seq<u8>,
    bounds: Seq<int>,
    k: int,
    compatible: bool,
)
    requires
        0 <= k,
    ensures
        items_verdict(item, bytes, bounds, k, compatible) is Ok <==> forall|j: int|
            k <= j < bounds.len() - 1 ==> (#[trigger] item.verify_spec(
                bytes.subrange(bounds[j], bounds[j + 1]),
                compatible,
            )) is Ok,
    decreases bounds.len() - k,
{
    if k + 1 < bounds.len() {
        lemma_items_verdict(item, bytes, bounds, k + 1, compatible);
        let first = item.verify_spec(bytes.subrange(bounds[k], bounds[k + 1]), compatible);
        if first is Ok && items_verdict(item, bytes, bounds, k + 1, compatible) is Ok {
            assert forall|j: int| k <= j < bounds.len() - 1 implies (#[trigger] item.verify_spec(
                bytes.subrange(bounds[j], bounds[j + 1]),
                compatible,
            )) is Ok by {
                if j > k {
                    assert(k + 1 <= j);
                }
            }
        }
    }
}

impl DynVec {
    /// The items of an encoding, in order.
    pub open spec fn parts(bytes: Seq<u8>) -> Seq<Seq<u8>> {
        pieces(bytes, boundaries(bytes, entry_count(bytes)))
    }

    /// The encoding that holds the given items.
    pub open spec fn encoding(parts: Seq<Seq<u8>>) -> Seq<u8> {
        table_encoding(parts)
    }

    /// What can be encoded: encodings of the item type, of a size in all
    /// that a `Number` holds.
    pub open spec fn admits(&self, parts: Seq<Seq<u8>>, compatible: bool) -> bool {
        &&& table_size(parts) <= Number::MAX
        &&& forall|k: int|
            0 <= k < parts.len() ==> (#[trigger] self.item.verify_spec(parts[k], compatible))
                is Ok
    }

    /// An encoding has a sound header, offsets that do not decrease, and
    /// between each offset and the next an encoding of the item type.
    pub open spec fn verify_spec(&self, bytes: Seq<u8>, compatible: bool) -> Verdict
        decreases self, 0int,
    {
        match header_verdict(self.name@, bytes) {
            Err(e) => Err(e),
            Ok(count) => {
                let bounds = boundaries(bytes, count);
                if !non_decreasing(bounds) {
                    Err(ErrorView::OffsetsNotMatch { name: self.name@ })
                } else {
                    items_verdict(*self.item, bytes, bounds, 0, compatible)
                }
            },
        }
    }

    /// Describes a vector of items of type `item`.
    pub fn new(name: &str, item: TypeDesc) -> (v: DynVec)
        requires
            item.wf(),
        ensures
            v.wf(),
            v.name@ == camel_case(name@),
            *v.item == item,
    {
        DynVec { name: to_camel(name), item: Box::new(item) }
    }

    /// Checks that `slice` encodes a value of this vector.
    pub fn verify(&self, slice: &[u8], compatible: bool) -> (r: Result<(), VerificationError>)
        ensures
            match r {
                Ok(_) => self.verify_spec(slice@, compatible) is Ok,
                Err(e) => self.verify_spec(slice@, compatible) == Err::<(), ErrorView>(e@),
            },
        decreases self,
    {
        let count = match check_header(&self.name, slice) {
            Ok(count) => count,
            Err(e) => {
                return Err(e);
            },
        };
        proof {
            lemma_header_ok(self.name@, slice@);
        }
        let bounds = read_boundaries(slice, count);
        if !is_non_decreasing(&bounds) {
            return Err(VerificationError::OffsetsNotMatch { name: self.name.clone() });
        }
        let ghost ints = bounds@.map_values(|b: usize| b as int);
        let mut k: usize = 0;
        while k < count
            invariant
                k <= count,
                header_verdict(self.name@, slice@) == Ok::<nat, ErrorView>(count as nat),
                bounds@.len() == count + 1,
                ints == bounds@.map_values(|b: usize| b as int),
                ints == boundaries(slice@, count as nat),
                non_decreasing(ints),
                items_verdict(*self.item, slice@, ints, 0, compatible) == items_verdict(
                    *self.item,
                    slice@,
                    ints,
                    k as int,
                    compatible,
                ),
            decreases count - k,
        {
            assert(ints[k as int] <= ints[k + 1] <= ints[count as int]);
            let item = slice_subrange(slice, bounds[k], bounds[k + 1]);
            match self.item.verify(item, compatible) {
                Err(e) => {
                    return Err(e);
                },
                Ok(_) => {},
            }
            k += 1;
        }
        Ok(())
    }
}

/// A slice read as a dynamic vector.
#[derive(Debug, Clone, Copy)]
pub struct DynVecReader<'a> {
    pub desc: &'a DynVec,
    pub inner: &'a [u8],
}

impl<'a> DynVecReader<'a> {
    /// The slice is an encoding of the vector, for a compatible reader.
    pub open spec fn wf(&self) -> bool {
        self.desc.wf() && self.desc.verify_spec(self.inner@, true) is Ok
    }

    /// The items of the vector.
    pub open spec fn parts(&self) -> Seq<Seq<u8>> {
        DynVec::parts(self.inner@)
    }

    /// Validates `slice` and reads it as a vector.
    pub fn from_slice(desc: &'a DynVec, slice: &'a [u8], compatible: bool) -> (r: Result<
        Self,
        VerificationError,
    >)
        ensures
            match r {
                Ok(reader) => desc.verify_spec(slice@, compatible) is Ok && reader.desc == desc
                    && reader.inner == slice && (desc.wf() ==> reader.wf()),
                Err(e) => desc.verify_spec(slice@, compatible) == Err::<(), ErrorView>(e@),
            },
    {
        match desc.verify(slice, compatible) {
            Ok(_) => {
                proof {
                    if !compatible {
                        TypeDesc::DynVec(*desc).lemma_compatible(slice@);
                    }
                }
                Ok(DynVecReader { desc, inner: slice })
            },
            Err(e) => Err(e),
        }
    }

    /// Reads `slice` as a vector without validating it.
    pub fn from_slice_unchecked(desc: &'a DynVec, slice: &'a [u8]) -> (reader: Self)
        ensures
            reader.desc == desc,
            reader.inner == slice,
    {
        DynVecReader { desc, inner: slice }
    }

    /// The slice behind the reader.
    pub fn as_slice(&self) -> (slice: &'a [u8])
        ensures
            slice == self.inner,
    {
        self.inner
    }

    /// The size of the encoding, as the header records it.
    pub fn total_size(&self) -> (size: usize)
        requires
            self.wf(),
        ensures
            size == number_at(self.inner@, 0),
            size == self.inner@.len(),
    {
        proof {
            lemma_header_ok(self.desc.name@, self.inner@);
        }
        unpack_number(self.inner) as usize
    }

    /// The number of items that the first offset announces.
    pub fn item_count(&self) -> (count: usize)
        requires
            self.wf(),
        ensures
            count == entry_count(self.inner@),
            count == self.parts().len(),
            4 * (count + 1) <= self.inner@.len(),
    {
        proof {
            lemma_header_ok(self.desc.name@, self.inner@);
        }
        if self.total_size() == HEADER_SIZE {
            return 0;
        }
        let first = unpack_number(slice_subrange(self.inner, HEADER_SIZE, self.inner.len()));
        assert(number_at(self.inner@.subrange(4, self.inner@.len() as int), 0) == number_at(
            self.inner@,
            4,
        ));
        (first / 4 - 1) as usize
    }

    /// The number of items.
    pub fn len(&self) -> (count: usize)
        requires
            self.wf(),
        ensures
            count == self.parts().len(),
            4 * (count + 1) <= self.inner@.len(),
    {
        self.item_count()
    }

    /// Whether the vector has no items.
    pub fn is_empty(&self) -> (empty: bool)
        requires
            self.wf(),
        ensures
            empty <==> self.parts().len() == 0,
    {
        self.len() == 0
    }

    /// Item `index` of the vector: the bytes from its offset to the next
    /// offset, or to the end for the last item. An empty slice where the
    /// vector has no such item.
    pub fn get(&self, index: usize) -> (item: &'a [u8])
        requires
            self.wf(),
        ensures
            index < self.parts().len() ==> item@ == self.parts()[index as int]
                && self.desc.item.verify_spec(item@, true) is Ok,
            index >= self.parts().len() ==> item@.len() == 0,
    {
        let count = self.len();
        if index >= count {
            return slice_subrange(self.inner, 0, 0);
        }
        let len = self.inner.len();
        let ghost bounds = boundaries(self.inner@, count as nat);
        proof {
            lemma_header_ok(self.desc.name@, self.inner@);
            lemma_items_verdict(*self.desc.item, self.inner@, bounds, 0, true);
            assert(bounds[index as int] <= bounds[index + 1] <= bounds[count as int]);
        }
        let start = read_offset(self.inner, index);
        let end = if index == count - 1 {
            len
        } else {
            read_offset(self.inner, index + 1)
        };
        slice_subrange(self.inner, start, end)
    }

    /// A builder that holds the items of this vector.
    pub fn as_builder(&self) -> (builder: DynVecBuilder<'a>)
        requires
            self.wf(),
        ensures
            builder.desc == self.desc,
            builder@ == self.parts(),
    {
        let count = self.len();
        let mut items: Vec<Vec<u8>> = Vec::with_capacity(count);
        let mut k: usize = 0;
        while k < count
            invariant
                self.wf(),
                count == self.parts().len(),
                k <= count,
                items@.len() == k,
                forall|i: int| 0 <= i < k ==> (#[trigger] items@[i])@ == self.parts()[i],
            decreases count - k,
        {
            let item = self.get(k);
            items.push(vstd::slice::slice_to_vec(item));
            k += 1;
        }
        assert(views(items@) =~= self.parts());
        DynVecBuilder { desc: self.desc, items }
    }
}

/// The items from which a dynamic vector is put together.
#[derive(Debug)]
pub struct DynVecBuilder<'a> {
    pub desc: &'a DynVec,
    pub items: Vec<Vec<u8>>,
}

impl<'a> View for DynVecBuilder<'a> {
    type V = Seq<Seq<u8>>;

    open spec fn view(&self) -> Seq<Seq<u8>> {
        views(self.items@)
    }
}

impl<'a> DynVecBuilder<'a> {
    /// A builder without items.
    pub fn new(desc: &'a DynVec) -> (builder: Self)
        ensures
            builder.desc == desc,
            builder@.len() == 0,
    {
        DynVecBuilder { desc, items: Vec::new() }
    }

    /// Adds `item` as the last item.
    pub fn push(&mut self, item: &[u8])
        ensures
            final(self).desc == old(self).desc,
            final(self)@ == old(self)@.push(item@),
    {
        self.items.push(vstd::slice::slice_to_vec(item));
        assert(self@ =~= old(self)@.push(item@));
    }

    /// The encoding of the vector that holds the items of the builder.
    /// There is none where the encoding would be larger than a `Number`
    /// can say.
    pub fn build(&self) -> (r: Option<Vec<u8>>)
        ensures
            r is Some <==> table_size(self@) <= Number::MAX,
            r matches Some(bytes) ==> bytes@ == DynVec::encoding(self@),
    {
        encode_table(&self.items)
    }
}

/// The items of an encoding are encodings of the item type and, behind
/// their offset table, are the encoding.
pub proof fn lemma_dynvec_parts(desc: DynVec, bytes: Seq<u8>, compatible: bool)
    requires
        desc.wf(),
        desc.verify_spec(bytes, compatible) is Ok,
    ensures
        desc.admits(DynVec::parts(bytes), compatible),
        DynVec::encoding(DynVec::parts(bytes)) == bytes,
{
    lemma_header_ok(desc.name@, bytes);
    let count = entry_count(bytes);
    let bounds = boundaries(bytes, count);
    lemma_table_canonical(bytes, count);
    lemma_items_verdict(*desc.item, bytes, bounds, 0, compatible);
}

/// What a builder puts together from encodings of the item type is an
/// encoding of the vector, and reading it gives the items back.
pub proof fn lemma_dynvec_build(desc: DynVec, parts: Seq<Seq<u8>>, compatible: bool)
    requires
        desc.wf(),
        desc.admits(parts, compatible),
    ensures
        desc.verify_spec(DynVec::encoding(parts), compatible) is Ok,
        DynVec::parts(DynVec::encoding(parts)) == parts,
{
    let enc = DynVec::encoding(parts);
    lemma_table_encoding(parts);
    lemma_header_ok(Seq::empty(), enc);
    lemma_header_same(desc.name@, enc);
    let bounds = boundaries(enc, parts.len());
    lemma_items_verdict(*desc.item, enc, bounds, 0, compatible);
    assert forall|j: int| 0 <= j < bounds.len() - 1 implies (#[trigger] desc.item.verify_spec(
        enc.subrange(bounds[j], bounds[j + 1]),
        compatible,
    )) is Ok by {
        assert(pieces(enc, bounds)[j] == parts[j]);
    }
}

/// Reading an encoding, building from what was read and reading again gives
/// what the first reading gave.
pub proof fn lemma_dynvec_round_trip(desc: DynVec, bytes: Seq<u8>, compatible: bool)
    requires
        desc.wf(),
        desc.verify_spec(bytes, compatible) is Ok,
    ensures
        table_size(DynVec::parts(bytes)) <= Number::MAX,
        desc.verify_spec(DynVec::encoding(DynVec::parts(bytes)), compatible) is Ok,
        DynVec::parts(DynVec::encoding(DynVec::parts(bytes))) == DynVec::parts(bytes),
{
    lemma_dynvec_parts(desc, bytes, compatible);
}

} // verus!
