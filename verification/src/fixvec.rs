//! Fixed vectors: an item count, then that many items of one fixed size.

use crate::array::lemma_item_range;
use crate::error::{ErrorView, Verdict, VerificationError};
use crate::naming::{camel_case, to_camel};
use crate::number::{
    HEADER_SIZE,
    lemma_bytes_of_four,
    lemma_number_bytes_of_number_at,
    lemma_number_round_trip,
    Number,
    number_at,
    number_bytes,
    pack_number,
    unpack_number,
};
use crate::pieces::{
    all_of_size,
    append_all,
    concat,
    lemma_concat_len,
    lemma_concat_pieces,
    lemma_layout_uniform,
    lemma_pieces_of_concat,
    lemma_uniform_bounds,
    pieces,
    uniform_bounds,
    views,
};
use crate::schema::{FixVec, TypeDesc};
use vstd::prelude::*;
use vstd::slice::slice_subrange;

verus! {

impl FixVec {
    /// The size of an encoding that announces `count` items.
    pub open spec fn size_for(&self, count: nat) -> nat {
        4 + count * (self.item_size as nat)
    }

    /// An encoding holds its item count and then exactly that many items.
    pub open spec fn verify_spec(&self, bytes: Seq<u8>) -> Verdict {
        if bytes.len() < 4 {
            Err(ErrorView::HeaderIsBroken { name: self.name@, expected: 4, actual: bytes.len() })
        } else if bytes.len() != self.size_for(number_at(bytes, 0)) {
            Err(
                ErrorView::TotalSizeNotMatch {
                    name: self.name@,
                    expected: self.size_for(number_at(bytes, 0)),
                    actual: bytes.len(),
                },
            )
        } else {
            Ok(())
        }
    }

    /// The items of an encoding, in order.
    pub open spec fn parts(&self, bytes: Seq<u8>) -> Seq<Seq<u8>> {
        pieces(bytes, uniform_bounds(4, self.item_size as nat, number_at(bytes, 0)))
    }

    /// The encoding that holds the given items.
    pub open spec fn encoding(parts: Seq<Seq<u8>>) -> Seq<u8> {
        number_bytes(parts.len()) + concat(parts)
    }

    /// What a builder may hold: items of the item size, no more of them than
    /// a `Number` counts.
    pub open spec fn admits(&self, parts: Seq<Seq<u8>>) -> bool {
        parts.len() <= Number::MAX && all_of_size(parts, self.item_size as nat)
    }

    /// Describes a vector of items of type `item`. There is no such vector
    /// where the item type has no fixed size, or one that a `Number` does
    /// not hold.
    pub fn new(name: &str, item: TypeDesc) -> (r: Option<FixVec>)
        requires
            item.wf(),
        ensures
            r is Some <==> item.fixed_size() is Some && item.fixed_size().unwrap() <= Number::MAX,
            r matches Some(v) ==> v.wf() && v.name@ == camel_case(name@) && *v.item == item,
    {
        match item.size() {
            None => None,
            Some(item_size) => if item_size > Number::MAX as usize {
                None
            } else {
                Some(
                    FixVec {
                        name: to_camel(name),
                        item: Box::new(item),
                        item_size: item_size as Number,
                    },
                )
            },
        }
    }

    /// Checks that `slice` encodes a value of this vector.
    pub fn verify(&self, slice: &[u8]) -> (r: Result<(), VerificationError>)
        ensures
            match r {
                Ok(_) => self.verify_spec(slice@) is Ok,
                Err(e) => self.verify_spec(slice@) == Err::<(), ErrorView>(e@),
            },
    {
        let len = slice.len();
        if len < HEADER_SIZE {
            return Err(
                VerificationError::HeaderIsBroken {
                    name: self.name.clone(),
                    expected: HEADER_SIZE as u64,
                    actual: len as u64,
                },
            );
        }
        let item_count = unpack_number(slice);
        proof {
            lemma_size_fits(self.item_size as nat, item_count as nat);
        }
        let total_size: u64 = HEADER_SIZE as u64 + self.item_size as u64 * item_count as u64;
        if len as u64 != total_size {
            return Err(
                VerificationError::TotalSizeNotMatch {
                    name: self.name.clone(),
                    expected: total_size,
                    actual: len as u64,
                },
            );
        }
        Ok(())
    }
}

/// The size of a vector of `count` items of `size` bytes fits in 64 bits.
pub proof fn lemma_size_fits(size: nat, count: nat)
    by (nonlinear_arith)
    requires
        size <= u32::MAX,
        count <= u32::MAX,
    ensures
        4 + size * count <= u64::MAX,
        size * count == count * size,
{
}

/// A slice read as a fixed vector.
#[derive(Debug, Clone, Copy)]
pub struct FixVecReader<'a> {
    pub desc: &'a FixVec,
    pub inner: &'a [u8],
}

impl<'a> FixVecReader<'a> {
    /// The slice is an encoding of the vector.
    pub open spec fn wf(&self) -> bool {
        self.desc.wf() && self.desc.verify_spec(self.inner@) is Ok
    }

    /// The items of the vector.
    pub open spec fn parts(&self) -> Seq<Seq<u8>> {
        self.desc.parts(self.inner@)
    }

    /// Validates `slice` and reads it as a vector. The flag plays no part:
    /// the items hold nothing that can be extended.
    pub fn from_slice(desc: &'a FixVec, slice: &'a [u8], compatible: bool) -> (r: Result<
        Self,
        VerificationError,
    >)
        ensures
            match r {
                Ok(reader) => desc.verify_spec(slice@) is Ok && reader.desc == desc
                    && reader.inner == slice,
                Err(e) => desc.verify_spec(slice@) == Err::<(), ErrorView>(e@),
            },
    {
        match desc.verify(slice) {
            Ok(_) => Ok(FixVecReader { desc, inner: slice }),
            Err(e) => Err(e),
        }
    }

    /// Reads `slice` as a vector without validating it.
    pub fn from_slice_unchecked(desc: &'a FixVec, slice: &'a [u8]) -> (reader: Self)
        ensures
            reader.desc == desc,
            reader.inner == slice,
    {
        FixVecReader { desc, inner: slice }
    }

    /// The slice behind the reader.
    pub fn as_slice(&self) -> (slice: &'a [u8])
        ensures
            slice == self.inner,
    {
        self.inner
    }

    /// The number of items that the header announces.
    pub fn item_count(&self) -> (count: usize)
        requires
            self.wf(),
        ensures
            count == number_at(self.inner@, 0),
            count == self.parts().len(),
            count <= Number::MAX,
    {
        unpack_number(self.inner) as usize
    }

    /// The size of the encoding: the header and the items.
    pub fn total_size(&self) -> (size: usize)
        requires
            self.wf(),
        ensures
            size == self.desc.size_for(number_at(self.inner@, 0)),
            size == self.inner@.len(),
    {
        let count = self.item_count();
        proof {
            lemma_size_fits(self.desc.item_size as nat, count as nat);
            assert(self.inner@.len() == self.inner.len());
        }
        HEADER_SIZE + self.desc.item_size as usize * count
    }

    /// The number of items.
    pub fn len(&self) -> (count: usize)
        requires
            self.wf(),
        ensures
            count == self.parts().len(),
            count <= Number::MAX,
    {
        self.item_count()
    }

    /// Whether the vector has no items.
    pub fn is_empty(&self) -> (empty: bool)
        requires
            self.wf(),
        ensures
            empty <==> self.parts().len() == 0,
    {
        self.len() == 0
    }

    /// Item `index` of the vector; an empty slice where the vector has no
    /// such item.
    pub fn get(&self, index: usize) -> (item: &'a [u8])
        requires
            self.wf(),
        ensures
            index < self.parts().len() ==> item@ == self.parts()[index as int]
                && self.desc.item.verify_spec(item@, true) is Ok,
            index >= self.parts().len() ==> item@.len() == 0,
    {
        let count = self.len();
        if index < count {
            let size = self.desc.item_size as usize;
            proof {
                lemma_size_fits(size as nat, count as nat);
                lemma_item_range(size as nat, count as nat, index as nat);
                assert(self.inner@.len() == self.inner.len());
            }
            let start = HEADER_SIZE + size * index;
            proof {
                self.desc.item.lemma_fixed_size_valid(
                    self.inner@.subrange(start as int, start + size),
                );
            }
            slice_subrange(self.inner, start, start + size)
        } else {
            slice_subrange(self.inner, 0, 0)
        }
    }

    /// The items as one run of bytes, where the items are bytes.
    pub fn raw_data(&self) -> (data: Option<&'a [u8]>)
        requires
            self.wf(),
        ensures
            data is Some <==> *self.desc.item == TypeDesc::Byte,
            data matches Some(d) ==> d@ == self.inner@.skip(4),
    {
        match *self.desc.item {
            TypeDesc::Byte => Some(slice_subrange(self.inner, HEADER_SIZE, self.inner.len())),
            _ => None,
        }
    }

    /// A builder that holds the items of this vector.
    pub fn as_builder(&self) -> (builder: FixVecBuilder<'a>)
        requires
            self.wf(),
        ensures
            builder.desc == self.desc,
            builder@ == self.parts(),
            builder.wf(),
    {
        let count = self.len();
        let mut items: Vec<Vec<u8>> = Vec::with_capacity(count);
        let mut k: usize = 0;
        while k < count
            invariant
                self.wf(),
                count == self.parts().len(),
                k <= count,
                items@.len() == k,
                forall|i: int| 0 <= i < k ==> (#[trigger] items@[i])@ == self.parts()[i],
            decreases count - k,
        {
            let item = self.get(k);
            items.push(vstd::slice::slice_to_vec(item));
            k += 1;
        }
        proof {
            assert(views(items@) =~= self.parts());
            lemma_fixvec_parts(*self.desc, self.inner@);
        }
        FixVecBuilder { desc: self.desc, items }
    }
}

/// The items from which a fixed vector is put together.
#[derive(Debug)]
pub struct FixVecBuilder<'a> {
    pub desc: &'a FixVec,
    pub items: Vec<Vec<u8>>,
}

impl<'a> View for FixVecBuilder<'a> {
    type V = Seq<Seq<u8>>;

    open spec fn view(&self) -> Seq<Seq<u8>> {
        views(self.items@)
    }
}

impl<'a> FixVecBuilder<'a> {
    /// Every item has the item size, and a `Number` counts the items.
    pub open spec fn wf(&self) -> bool {
        self.desc.wf() && self.desc.admits(self@)
    }

    /// A builder without items.
    pub fn new(desc: &'a FixVec) -> (builder: Self)
        requires
            desc.wf(),
        ensures
            builder.desc == desc,
            builder@.len() == 0,
            builder.wf(),
    {
        FixVecBuilder { desc, items: Vec::new() }
    }

    /// Adds `item` as the last item. Nothing changes, and the answer is
    /// `false`, where `item` has another size than the items of the vector
    /// or a `Number` could not count one item more.
    pub fn push(&mut self, item: &[u8]) -> (done: bool)
        requires
            old(self).wf(),
        ensures
            final(self).desc == old(self).desc,
            final(self).wf(),
            done <==> item@.len() == old(self).desc.item_size && old(self)@.len() < Number::MAX,
            done ==> final(self)@ == old(self)@.push(item@),
            !done ==> final(self)@ == old(self)@,
    {
        if item.len() != self.desc.item_size as usize || self.items.len() >= Number::MAX as usize
        {
            return false;
        }
        self.items.push(vstd::slice::slice_to_vec(item));
        assert(self@ =~= old(self)@.push(item@));
        true
    }

    /// The encoding of the vector that holds the items of the builder.
    pub fn build(&self) -> (bytes: Vec<u8>)
        requires
            self.wf(),
        ensures
            bytes@ == FixVec::encoding(self@),
    {
        let mut bytes = pack_number(self.items.len() as Number);
        append_all(&mut bytes, &self.items);
        bytes
    }
}

/// The items of an encoding have the item size and, behind their count, are
/// the encoding.
pub proof fn lemma_fixvec_parts(desc: FixVec, bytes: Seq<u8>)
    requires
        desc.wf(),
        desc.verify_spec(bytes) is Ok,
    ensures
        desc.admits(desc.parts(bytes)),
        desc.parts(bytes).len() == number_at(bytes, 0),
        FixVec::encoding(desc.parts(bytes)) == bytes,
{
    let count = number_at(bytes, 0);
    let size = desc.item_size as nat;
    let b = uniform_bounds(4, size, count);
    lemma_number_bytes_of_number_at(bytes, 0);
    lemma_uniform_bounds(4, size, count);
    lemma_concat_pieces(bytes, b);
    assert(bytes.subrange(0, 4) + bytes.subrange(4, bytes.len() as int) =~= bytes);
    assert forall|k: int| 0 <= k < count implies (#[trigger] desc.parts(bytes)[k]).len()
        == size by {
        lemma_item_range(size, count, k as nat);
    }
}

/// What a builder puts together is an encoding of the vector, and reading
/// it gives the items of the builder back.
pub proof fn lemma_fixvec_build(desc: FixVec, parts: Seq<Seq<u8>>)
    requires
        desc.wf(),
        desc.admits(parts),
    ensures
        desc.verify_spec(FixVec::encoding(parts)) is Ok,
        desc.parts(FixVec::encoding(parts)) == parts,
{
    let n = parts.len();
    let enc = FixVec::encoding(parts);
    lemma_number_round_trip(n, Seq::empty(), concat(parts));
    assert(Seq::<u8>::empty() + number_bytes(n) + concat(parts) =~= enc);
    lemma_layout_uniform(parts, 4, desc.item_size as nat);
    lemma_concat_len(parts);
    lemma_pieces_of_concat(number_bytes(n), parts, Seq::empty());
    assert(number_bytes(n) + concat(parts) + Seq::<u8>::empty() =~= enc);
}

/// Reading an encoding, building from what was read and reading again gives
/// what the first reading gave.
pub proof fn lemma_fixvec_round_trip(desc: FixVec, bytes: Seq<u8>)
    requires
        desc.wf(),
        desc.verify_spec(bytes) is Ok,
    ensures
        desc.admits(desc.parts(bytes)),
        desc.verify_spec(FixVec::encoding(desc.parts(bytes))) is Ok,
        desc.parts(FixVec::encoding(desc.parts(bytes))) == desc.parts(bytes),
{
    lemma_fixvec_parts(desc, bytes);
}

/// The encoding of a vector without items is its count alone, four zero
/// bytes, whatever the size of an item.
pub proof fn lemma_fixvec_without_items(desc: FixVec)
    requires
        desc.wf(),
    ensures
        FixVec::encoding(Seq::empty()) == seq![0u8, 0u8, 0u8, 0u8],
        desc.verify_spec(FixVec::encoding(Seq::empty())) is Ok,
        desc.parts(FixVec::encoding(Seq::empty())).len() == 0,
{
    let none = Seq::<Seq<u8>>::empty();
    lemma_bytes_of_four();
    assert(FixVec::encoding(none) =~= number_bytes(0));
    lemma_fixvec_build(desc, none);
}

} // verus!
