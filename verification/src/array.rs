//! Arrays: a fixed number of items of one fixed size, with no header.

use crate::error::{ErrorView, Verdict, VerificationError};
use crate::naming::{camel_case, to_camel};
use crate::pieces::{
    all_of_size,
    append_all,
    concat,
    lemma_concat_pieces,
    lemma_layout_uniform,
    lemma_pieces_of_concat,
    lemma_uniform_bounds,
    pieces,
    uniform_bounds,
    views,
    zeros,
};
use crate::schema::{Array, TypeDesc};
use vstd::prelude::*;
use vstd::slice::slice_subrange;

verus! {

impl Array {
    /// An encoding of the array is any slice of its total size.
    pub open spec fn verify_spec(&self, bytes: Seq<u8>) -> Verdict {
        if bytes.len() == self.total_size {
            Ok(())
        } else {
            Err(
                ErrorView::TotalSizeNotMatch {
                    name: self.name@,
                    expected: self.total_size as nat,
                    actual: bytes.len(),
                },
            )
        }
    }

    /// The items of an encoding, in order.
    pub open spec fn parts(&self, bytes: Seq<u8>) -> Seq<Seq<u8>> {
        pieces(bytes, uniform_bounds(0, self.item_size as nat, self.item_count as nat))
    }

    /// The encoding that holds the given items.
    pub open spec fn encoding(parts: Seq<Seq<u8>>) -> Seq<u8> {
        concat(parts)
    }

    /// What a builder may hold: as many items as the array has, each of the
    /// item size.
    pub open spec fn admits(&self, parts: Seq<Seq<u8>>) -> bool {
        parts.len() == self.item_count && all_of_size(parts, self.item_size as nat)
    }

    /// Describes an array of `item_count` items of type `item`. There is no
    /// such array where the item type has no fixed size or the total size is
    /// more than a `usize` holds.
    pub fn new(name: &str, item: TypeDesc, item_count: usize) -> (r: Option<Array>)
        requires
            item.wf(),
        ensures
            r is Some <==> item.fixed_size() is Some && item.fixed_size().unwrap() * item_count
                <= usize::MAX,
            r matches Some(a) ==> a.wf() && a.name@ == camel_case(name@) && *a.item == item
                && a.item_count == item_count,
    {
        match item.size() {
            None => None,
            Some(item_size) => match item_size.checked_mul(item_count) {
                None => None,
                Some(total_size) => Some(
                    Array {
                        name: to_camel(name),
                        item: Box::new(item),
                        item_size,
                        item_count,
                        total_size,
                    },
                ),
            },
        }
    }

    /// Where item `index` starts in an encoding, and where it ends.
    pub fn item_bounds(&self, index: usize) -> (bounds: (usize, usize))
        requires
            self.wf(),
            index < self.item_count,
        ensures
            bounds.0 == index * self.item_size,
            bounds.1 == (index + 1) * self.item_size,
            bounds.1 == bounds.0 + self.item_size,
            bounds.1 <= self.total_size,
    {
        proof {
            lemma_item_range(self.item_size as nat, self.item_count as nat, index as nat);
        }
        let start = self.item_size * index;
        (start, start + self.item_size)
    }

    /// Checks that `slice` encodes a value of this array.
    pub fn verify(&self, slice: &[u8]) -> (r: Result<(), VerificationError>)
        ensures
            match r {
                Ok(_) => self.verify_spec(slice@) is Ok,
                Err(e) => self.verify_spec(slice@) == Err::<(), ErrorView>(e@),
            },
    {
        if slice.len() != self.total_size {
            return Err(
                VerificationError::TotalSizeNotMatch {
                    name: self.name.clone(),
                    expected: self.total_size as u64,
                    actual: slice.len() as u64,
                },
            );
        }
        Ok(())
    }
}

/// A slice read as an array.
#[derive(Debug, Clone, Copy)]
pub struct ArrayReader<'a> {
    pub desc: &'a Array,
    pub inner: &'a [u8],
}

impl<'a> ArrayReader<'a> {
    /// The slice is an encoding of the array.
    pub open spec fn wf(&self) -> bool {
        self.desc.wf() && self.desc.verify_spec(self.inner@) is Ok
    }

    /// The items of the array.
    pub open spec fn parts(&self) -> Seq<Seq<u8>> {
        self.desc.parts(self.inner@)
    }

    /// Validates `slice` and reads it as an array. The flag plays no part:
    /// an array holds nothing that can be extended.
    pub fn from_slice(desc: &'a Array, slice: &'a [u8], compatible: bool) -> (r: Result<
        Self,
        VerificationError,
    >)
        ensures
            match r {
                Ok(reader) => desc.verify_spec(slice@) is Ok && reader.desc == desc
                    && reader.inner == slice,
                Err(e) => desc.verify_spec(slice@) == Err::<(), ErrorView>(e@),
            },
    {
        match desc.verify(slice) {
            Ok(_) => Ok(ArrayReader { desc, inner: slice }),
            Err(e) => Err(e),
        }
    }

    /// Reads `slice` as an array without validating it.
    pub fn from_slice_unchecked(desc: &'a Array, slice: &'a [u8]) -> (reader: Self)
        ensures
            reader.desc == desc,
            reader.inner == slice,
    {
        ArrayReader { desc, inner: slice }
    }

    /// The slice behind the reader.
    pub fn as_slice(&self) -> (slice: &'a [u8])
        ensures
            slice == self.inner,
    {
        self.inner
    }

    /// The whole body, where the items are bytes.
    pub fn raw_data(&self) -> (data: Option<&'a [u8]>)
        ensures
            data is Some <==> *self.desc.item == TypeDesc::Byte,
            data matches Some(d) ==> d == self.inner,
    {
        match *self.desc.item {
            TypeDesc::Byte => Some(self.inner),
            _ => None,
        }
    }

    /// Item `index` of the array.
    pub fn nth(&self, index: usize) -> (item: &'a [u8])
        requires
            self.wf(),
            index < self.desc.item_count,
        ensures
            item@ == self.parts()[index as int],
            self.desc.item.verify_spec(item@, true) is Ok,
    {
        let (start, end) = self.desc.item_bounds(index);
        proof {
            self.desc.item.lemma_fixed_size_valid(self.inner@.subrange(start as int, end as int));
        }
        slice_subrange(self.inner, start, end)
    }

    /// A builder that holds the items of this array.
    pub fn as_builder(&self) -> (builder: ArrayBuilder<'a>)
        requires
            self.wf(),
        ensures
            builder.desc == self.desc,
            builder@ == self.parts(),
            builder.wf(),
    {
        let mut items: Vec<Vec<u8>> = Vec::with_capacity(self.desc.item_count);
        let mut k: usize = 0;
        while k < self.desc.item_count
            invariant
                self.wf(),
                k <= self.desc.item_count,
                items@.len() == k,
                forall|i: int| 0 <= i < k ==> (#[trigger] items@[i])@ == self.parts()[i],
            decreases self.desc.item_count - k,
        {
            let item = self.nth(k);
            items.push(vstd::slice::slice_to_vec(item));
            k += 1;
        }
        proof {
            assert(views(items@) =~= self.parts());
            lemma_array_parts(*self.desc, self.inner@);
        }
        ArrayBuilder { desc: self.desc, items }
    }
}

/// The items from which an array is put together.
#[derive(Debug)]
pub struct ArrayBuilder<'a> {
    pub desc: &'a Array,
    pub items: Vec<Vec<u8>>,
}

impl<'a> View for ArrayBuilder<'a> {
    type V = Seq<Seq<u8>>;

    open spec fn view(&self) -> Seq<Seq<u8>> {
        views(self.items@)
    }
}

impl<'a> ArrayBuilder<'a> {
    /// The builder holds one item of the right size for every position.
    pub open spec fn wf(&self) -> bool {
        self.desc.wf() && self.desc.admits(self@)
    }

    /// A builder whose items are all zero.
    pub fn new(desc: &'a Array) -> (builder: Self)
        requires
            desc.wf(),
        ensures
            builder.desc == desc,
            builder.wf(),
            forall|k: int, i: int|
                #![trigger builder@[k][i]]
                0 <= k < desc.item_count && 0 <= i < desc.item_size ==> builder@[k][i] == 0,
    {
        let mut items: Vec<Vec<u8>> = Vec::with_capacity(desc.item_count);
        let mut k: usize = 0;
        while k < desc.item_count
            invariant
                k <= desc.item_count,
                items@.len() == k,
                forall|j: int| 0 <= j < k ==> (#[trigger] items@[j])@.len() == desc.item_size,
                forall|j: int, i: int|
                    #![trigger items@[j]@[i]]
                    0 <= j < k && 0 <= i < desc.item_size ==> items@[j]@[i] == 0,
            decreases desc.item_count - k,
        {
            items.push(zeros(desc.item_size));
            k += 1;
        }
        ArrayBuilder { desc, items }
    }

    /// Puts `item` at position `index`. Nothing changes, and the answer is
    /// `false`, where there is no such position or `item` has another size
    /// than the items of the array.
    pub fn set_nth(&mut self, index: usize, item: &[u8]) -> (done: bool)
        requires
            old(self).wf(),
        ensures
            final(self).desc == old(self).desc,
            final(self).wf(),
            done <==> index < old(self).desc.item_count && item@.len() == old(
                self,
            ).desc.item_size,
            done ==> final(self)@ == old(self)@.update(index as int, item@),
            !done ==> final(self)@ == old(self)@,
    {
        if index >= self.desc.item_count || item.len() != self.desc.item_size {
            return false;
        }
        self.items.set(index, vstd::slice::slice_to_vec(item));
        assert(self@ =~= old(self)@.update(index as int, item@));
        true
    }

    /// The encoding of the array that holds the items of the builder.
    pub fn build(&self) -> (bytes: Vec<u8>)
        ensures
            bytes@ == Array::encoding(self@),
    {
        let mut bytes: Vec<u8> = Vec::new();
        append_all(&mut bytes, &self.items);
        assert(bytes@ =~= concat(self@));
        bytes
    }
}

/// Item `index` of `count` items of `size` bytes ends within their total.
pub proof fn lemma_item_range(size: nat, count: nat, index: nat)
    by (nonlinear_arith)
    requires
        index < count,
    ensures
        size * index + size <= size * count,
        size * index == index * size,
        size * index + size == (index + 1) * size,
{
}

/// The items of an encoding, joined, are the encoding.
pub proof fn lemma_array_parts(desc: Array, bytes: Seq<u8>)
    requires
        desc.wf(),
        desc.verify_spec(bytes) is Ok,
    ensures
        desc.admits(desc.parts(bytes)),
        Array::encoding(desc.parts(bytes)) == bytes,
{
    let b = uniform_bounds(0, desc.item_size as nat, desc.item_count as nat);
    lemma_uniform_bounds(0, desc.item_size as nat, desc.item_count as nat);
    lemma_concat_pieces(bytes, b);
    assert(bytes.subrange(0, bytes.len() as int) =~= bytes);
    assert forall|k: int| 0 <= k < desc.item_count implies (#[trigger] desc.parts(bytes)[k]).len()
        == desc.item_size by {
        lemma_item_range(desc.item_size as nat, desc.item_count as nat, k as nat);
    }
}

/// What a builder puts together is an encoding of the array, and reading it
/// gives the items of the builder back.
pub proof fn lemma_array_build(desc: Array, parts: Seq<Seq<u8>>)
    requires
        desc.wf(),
        desc.admits(parts),
    ensures
        desc.verify_spec(Array::encoding(parts)) is Ok,
        desc.parts(Array::encoding(parts)) == parts,
{
    lemma_layout_uniform(parts, 0, desc.item_size as nat);
    crate::pieces::lemma_concat_len(parts);
    lemma_pieces_of_concat(Seq::empty(), parts, Seq::empty());
    assert(Seq::<u8>::empty() + concat(parts) + Seq::<u8>::empty() =~= concat(parts));
}

/// Reading an encoding, building from what was read and reading again gives
/// what the first reading gave.
pub proof fn lemma_array_round_trip(desc: Array, bytes: Seq<u8>)
    requires
        desc.wf(),
        desc.verify_spec(bytes) is Ok,
    ensures
        desc.verify_spec(Array::encoding(desc.parts(bytes))) is Ok,
        desc.parts(Array::encoding(desc.parts(bytes))) == desc.parts(bytes),
{
    lemma_array_parts(desc, bytes);
}

} // verus!
