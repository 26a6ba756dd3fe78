//! Unions: a discriminant, then a value of the variant that it selects.

use crate::error::{ErrorView, Verdict, VerificationError};
use crate::naming::{camel_case, to_camel};
use crate::number::{
    HEADER_SIZE,
    lemma_number_bytes_of_number_at,
    lemma_number_round_trip,
    Number,
    number_at,
    number_bytes,
    pack_number,
    unpack_number,
};
use crate::schema::{TypeDesc, Union, UnionItem};
use vstd::prelude::*;
use vstd::slice::slice_subrange;

verus! {

/// The position, from `from` on, of the first variant with discriminant
/// `id`, if there is one.
pub open spec fn find_item(items: Seq<UnionItem>, id: nat, from: int) -> Option<int>
    decreases items.len() - from,
{
    if from < 0 || from >= items.len() {
        None
    } else if items[from].id == id {
        Some(from)
    } else {
        find_item(items, id, from + 1)
    }
}

/// What `find_item` finds is a variant with the discriminant asked for, and
/// no variant before it has that discriminant.
pub proof fn lemma_find_item(items: Seq<UnionItem>, id: nat, from: int)
    requires
        0 <= from,
    ensures
        match find_item(items, id, from) {
            Some(i) => from <= i < items.len() && items[i].id == id && forall|j: int|
                from <= j < i ==> (#[trigger] items[j]).id != id,
            None => forall|j: int| from <= j < items.len() ==> (#[trigger] items[j]).id != id,
        },
    decreases items.len() - from,
{
    if from < items.len() && items[from].id != id {
        lemma_find_item(items, id, from + 1);
    }
}

impl Union {
    /// An encoding holds the discriminant of a declared variant and then an
    /// encoding of that variant.
    pub open spec fn verify_spec(&self, bytes: Seq<u8>, compatible: bool) -> Verdict
        decreases self, 0int,
    {
        if bytes.len() < 4 {
            Err(ErrorView::HeaderIsBroken { name: self.name@, expected: 4, actual: bytes.len() })
        } else {
            match find_item(self.items@, number_at(bytes, 0), 0) {
                None => Err(
                    ErrorView::UnknownItem { name: self.name@, item_id: number_at(bytes, 0) },
                ),
                Some(i) => {
                    proof {
                        lemma_find_item(self.items@, number_at(bytes, 0), 0);
                    }
                    self.items[i].typ.verify_spec(bytes.skip(4), compatible)
                },
            }
        }
    }

    /// The discriminant that an encoding holds.
    pub open spec fn item_id(bytes: Seq<u8>) -> nat {
        number_at(bytes, 0)
    }

    /// The encoding of the variant that an encoding holds.
    pub open spec fn payload(bytes: Seq<u8>) -> Seq<u8> {
        bytes.skip(4)
    }

    /// The encoding that holds the given variant behind the discriminant.
    pub open spec fn encoding(item_id: nat, payload: Seq<u8>) -> Seq<u8> {
        number_bytes(item_id) + payload
    }

    /// What can be encoded: the discriminant of a declared variant and an
    /// encoding of that variant.
    pub open spec fn admits(&self, item_id: nat, payload: Seq<u8>, compatible: bool) -> bool {
        match find_item(self.items@, item_id, 0) {
            None => false,
            Some(i) => 0 <= i < self.items.len() && self.items[i].typ.verify_spec(
                payload,
                compatible,
            ) is Ok,
        }
    }

    /// Describes a union of the given variants. There is no such union
    /// without variants, or with two variants of one discriminant.
    pub fn new(name: &str, items: Vec<UnionItem>) -> (r: Option<Union>)
        requires
            forall|i: int| 0 <= i < items.len() ==> (#[trigger] items[i]).typ.wf(),
        ensures
            r is Some <==> items.len() > 0 && forall|i: int, j: int|
                0 <= i < j < items.len() ==> (#[trigger] items[i]).id != (#[trigger] items[j]).id,
            r matches Some(u) ==> u.wf() && u.name@ == camel_case(name@) && u.items == items,
    {
        if items.len() == 0 || !distinct_ids(&items) {
            return None;
        }
        Some(Union { name: to_camel(name), items })
    }

    /// The position of the variant with discriminant `id`.
    pub fn find(&self, id: Number) -> (found: Option<usize>)
        ensures
            match found {
                Some(i) => find_item(self.items@, id as nat, 0) == Some(i as int) && i
                    < self.items.len(),
                None => find_item(self.items@, id as nat, 0) is None,
            },
    {
        let mut i: usize = 0;
        while i < self.items.len()
            invariant
                i <= self.items.len(),
                find_item(self.items@, id as nat, 0) == find_item(self.items@, id as nat, i as int),
            decreases self.items.len() - i,
        {
            if self.items[i].id == id {
                return Some(i);
            }
            i += 1;
        }
        None
    }

    /// Checks that `slice` encodes a value of this union.
    pub fn verify(&self, slice: &[u8], compatible: bool) -> (r: Result<(), VerificationError>)
        ensures
            match r {
                Ok(_) => self.verify_spec(slice@, compatible) is Ok,
                Err(e) => self.verify_spec(slice@, compatible) == Err::<(), ErrorView>(e@),
            },
        decreases self,
    {
        let len = slice.len();
        if len < HEADER_SIZE {
            return Err(
                VerificationError::HeaderIsBroken {
                    name: self.name.clone(),
                    expected: HEADER_SIZE as u64,
                    actual: len as u64,
                },
            );
        }
        let item_id = unpack_number(slice);
        match self.find(item_id) {
            None => Err(VerificationError::UnknownItem { name: self.name.clone(), item_id }),
            Some(i) => {
                let payload = slice_subrange(slice, HEADER_SIZE, len);
                assert(payload@ == slice@.skip(4));
                self.items[i].typ.verify(payload, compatible)
            },
        }
    }
}

/// Tells whether no two of the variants share a discriminant.
pub fn distinct_ids(items: &Vec<UnionItem>) -> (ok: bool)
    ensures
        ok <==> forall|i: int, j: int|
            0 <= i < j < items.len() ==> (#[trigger] items[i]).id != (#[trigger] items[j]).id,
{
    let mut j: usize = 1;
    while j < items.len()
        invariant
            1 <= j,
            forall|a: int, b: int|
                0 <= a < b < j && b < items.len() ==> (#[trigger] items[a]).id != (
                #[trigger] items[b]).id,
        decreases items.len() - j,
    {
        let mut i: usize = 0;
        while i < j
            invariant
                i <= j < items.len(),
                forall|a: int| 0 <= a < i ==> (#[trigger] items[a]).id != items[j as int].id,
            decreases j - i,
        {
            if items[i].id == items[j].id {
                return false;
            }
            i += 1;
        }
        j += 1;
    }
    true
}

/// A slice read as a union.
#[derive(Debug, Clone, Copy)]
pub struct UnionReader<'a> {
    pub desc: &'a Union,
    pub inner: &'a [u8],
}

impl<'a> UnionReader<'a> {
    /// The slice is an encoding of the union, for a compatible reader.
    pub open spec fn wf(&self) -> bool {
        self.desc.wf() && self.desc.verify_spec(self.inner@, true) is Ok
    }

    /// Validates `slice` and reads it as a union.
    pub fn from_slice(desc: &'a Union, slice: &'a [u8], compatible: bool) -> (r: Result<
        Self,
        VerificationError,
    >)
        ensures
            match r {
                Ok(reader) => desc.verify_spec(slice@, compatible) is Ok && reader.desc == desc
                    && reader.inner == slice && (desc.wf() ==> reader.wf()),
                Err(e) => desc.verify_spec(slice@, compatible) == Err::<(), ErrorView>(e@),
            },
    {
        match desc.verify(slice, compatible) {
            Ok(_) => {
                proof {
                    if !compatible {
                        TypeDesc::Union(*desc).lemma_compatible(slice@);
                    }
                }
                Ok(UnionReader { desc, inner: slice })
            },
            Err(e) => Err(e),
        }
    }

    /// Reads `slice` as a union without validating it.
    pub fn from_slice_unchecked(desc: &'a Union, slice: &'a [u8]) -> (reader: Self)
        ensures
            reader.desc == desc,
            reader.inner == slice,
    {
        UnionReader { desc, inner: slice }
    }

    /// The slice behind the reader.
    pub fn as_slice(&self) -> (slice: &'a [u8])
        ensures
            slice == self.inner,
    {
        self.inner
    }

    /// The discriminant of the variant that the union holds.
    pub fn item_id(&self) -> (id: Number)
        requires
            self.wf(),
        ensures
            id == Union::item_id(self.inner@),
    {
        unpack_number(self.inner)
    }

    /// The position, among the declared variants, of the variant that the
    /// union holds.
    pub fn variant(&self) -> (index: usize)
        requires
            self.wf(),
        ensures
            index < self.desc.items.len(),
            find_item(self.desc.items@, Union::item_id(self.inner@), 0) == Some(index as int),
            self.desc.items[index as int].id == Union::item_id(self.inner@),
    {
        proof {
            lemma_find_item(self.desc.items@, Union::item_id(self.inner@), 0);
        }
        match self.desc.find(self.item_id()) {
            Some(index) => index,
            None => vstd::pervasive::unreached(),
        }
    }

    /// The encoding of the variant that the union holds.
    pub fn payload(&self) -> (payload: &'a [u8])
        requires
            self.wf(),
        ensures
            payload@ == Union::payload(self.inner@),
            self.desc.admits(Union::item_id(self.inner@), payload@, true),
    {
        proof {
            lemma_find_item(self.desc.items@, Union::item_id(self.inner@), 0);
        }
        slice_subrange(self.inner, HEADER_SIZE, self.inner.len())
    }

    /// A builder that holds the variant of this union and its discriminant.
    pub fn as_builder(&self) -> (builder: UnionBuilder<'a>)
        requires
            self.wf(),
        ensures
            builder.desc == self.desc,
            builder.item_id == Union::item_id(self.inner@),
            builder.payload@ == Union::payload(self.inner@),
    {
        UnionBuilder {
            desc: self.desc,
            item_id: self.item_id(),
            payload: vstd::slice::slice_to_vec(self.payload()),
        }
    }
}

/// The variant from which a union is put together.
#[derive(Debug)]
pub struct UnionBuilder<'a> {
    pub desc: &'a Union,
    pub item_id: Number,
    pub payload: Vec<u8>,
}

impl<'a> UnionBuilder<'a> {
    /// A builder that holds the default value of the first variant.
    pub fn new(desc: &'a Union) -> (builder: Self)
        requires
            desc.wf(),
        ensures
            builder.desc == desc,
            builder.item_id == desc.items[0].id,
            builder.payload@ == desc.items[0].typ.default_spec(),
    {
        UnionBuilder {
            desc,
            item_id: desc.items[0].id,
            payload: desc.items[0].typ.default_content(),
        }
    }

    /// Puts the variant with discriminant `item_id` and encoding `payload`
    /// in the place of what the builder holds. Nothing changes, and the
    /// answer is `false`, where no variant is declared with `item_id`.
    pub fn set(&mut self, item_id: Number, payload: &[u8]) -> (done: bool)
        ensures
            final(self).desc == old(self).desc,
            done <==> find_item(old(self).desc.items@, item_id as nat, 0) is Some,
            done ==> final(self).item_id == item_id && final(self).payload@ == payload@,
            !done ==> final(self).item_id == old(self).item_id && final(self).payload@ == old(
                self,
            ).payload@,
    {
        match self.desc.find(item_id) {
            None => false,
            Some(_) => {
                self.item_id = item_id;
                self.payload = vstd::slice::slice_to_vec(payload);
                true
            },
        }
    }

    /// The encoding of the union that holds the variant of the builder.
    pub fn build(&self) -> (bytes: Vec<u8>)
        ensures
            bytes@ == Union::encoding(self.item_id as nat, self.payload@),
    {
        let mut bytes = pack_number(self.item_id);
        bytes.extend_from_slice(self.payload.as_slice());
        assert(bytes@ =~= Union::encoding(self.item_id as nat, self.payload@));
        bytes
    }
}

/// A discriminant that no declared variant has is refused as an unknown
/// item.
pub proof fn lemma_union_unknown_item(desc: Union, bytes: Seq<u8>, compatible: bool)
    requires
        bytes.len() >= 4,
        forall|i: int|
            0 <= i < desc.items.len() ==> (#[trigger] desc.items[i]).id != Union::item_id(bytes),
    ensures
        desc.verify_spec(bytes, compatible) == Err::<(), ErrorView>(
            ErrorView::UnknownItem { name: desc.name@, item_id: Union::item_id(bytes) },
        ),
{
    lemma_find_item(desc.items@, Union::item_id(bytes), 0);
}

/// Behind the discriminant of a declared variant, the verdict on the
/// encoding is the verdict of that variant on what follows.
pub proof fn lemma_union_known_item(desc: Union, bytes: Seq<u8>, compatible: bool, i: int)
    requires
        desc.wf(),
        bytes.len() >= 4,
        0 <= i < desc.items.len(),
        desc.items[i].id == Union::item_id(bytes),
    ensures
        desc.verify_spec(bytes, compatible) == desc.items[i].typ.verify_spec(
            Union::payload(bytes),
            compatible,
        ),
{
    lemma_find_item(desc.items@, Union::item_id(bytes), 0);
}

/// What a builder puts together from a declared discriminant and an
/// encoding of its variant is an encoding of the union, and reading it
/// gives both back.
pub proof fn lemma_union_build(desc: Union, item_id: nat, payload: Seq<u8>, compatible: bool)
    requires
        item_id <= Number::MAX,
        desc.admits(item_id, payload, compatible),
    ensures
        desc.verify_spec(Union::encoding(item_id, payload), compatible) is Ok,
        Union::item_id(Union::encoding(item_id, payload)) == item_id,
        Union::payload(Union::encoding(item_id, payload)) == payload,
{
    let enc = Union::encoding(item_id, payload);
    lemma_number_round_trip(item_id, Seq::empty(), payload);
    assert(Seq::<u8>::empty() + number_bytes(item_id) + payload =~= enc);
    assert(enc.skip(4) =~= payload);
}

/// Reading an encoding, building from what was read and reading again gives
/// what the first reading gave.
pub proof fn lemma_union_round_trip(desc: Union, bytes: Seq<u8>, compatible: bool)
    requires
        desc.verify_spec(bytes, compatible) is Ok,
    ensures
        Union::encoding(Union::item_id(bytes), Union::payload(bytes)) == bytes,
        desc.verify_spec(
            Union::encoding(Union::item_id(bytes), Union::payload(bytes)),
            compatible,
        ) is Ok,
        Union::item_id(Union::encoding(Union::item_id(bytes), Union::payload(bytes)))
            == Union::item_id(bytes),
        Union::payload(Union::encoding(Union::item_id(bytes), Union::payload(bytes)))
            == Union::payload(bytes),
{
    lemma_number_bytes_of_number_at(bytes, 0);
    assert(bytes.subrange(0, 4) + bytes.skip(4) =~= bytes);
}

} // verus!
