//! Validation of a slice against any type of a schema.

use crate::dynvec::items_verdict;
use crate::error::{ErrorView, Verdict, VerificationError};
use crate::number::number_at;
use crate::offsets::{boundaries, header_verdict};
use crate::schema::TypeDesc;
use crate::table::fields_verdict;
use crate::union::{find_item, lemma_find_item};
use vstd::prelude::*;

verus! {

impl TypeDesc {
    /// Whether `bytes` encode a value of this type, and if not, the first
    /// check that fails. `compatible` says whether a table may hold more
    /// fields than the schema declares.
    pub open spec fn verify_spec(&self, bytes: Seq<u8>, compatible: bool) -> Verdict
        decreases self, 0int,
    {
        match self {
            TypeDesc::Byte => if bytes.len() == 1 {
                Ok(())
            } else {
                Err(
                    ErrorView::TotalSizeNotMatch {
                        name: "Byte"@,
                        expected: 1,
                        actual: bytes.len(),
                    },
                )
            },
            TypeDesc::Array(a) => a.verify_spec(bytes),
            TypeDesc::Struct(s) => s.verify_spec(bytes),
            TypeDesc::FixVec(v) => v.verify_spec(bytes),
            TypeDesc::DynVec(v) => v.verify_spec(bytes, compatible),
            TypeDesc::Table(t) => t.verify_spec(bytes, compatible),
            TypeDesc::Option_(o) => o.verify_spec(bytes, compatible),
            TypeDesc::Union(u) => u.verify_spec(bytes, compatible),
        }
    }

    /// What a strict reader accepts, a compatible reader accepts too.
    pub proof fn lemma_compatible(&self, bytes: Seq<u8>)
        requires
            self.verify_spec(bytes, false) is Ok,
        ensures
            self.verify_spec(bytes, true) is Ok,
        decreases self, 0int,
    {
        match self {
            TypeDesc::DynVec(v) => {
                let count = header_verdict(v.name@, bytes)->Ok_0;
                lemma_items_compatible(*v.item, bytes, boundaries(bytes, count), 0);
            },
            TypeDesc::Table(t) => {
                let count = header_verdict(t.name@, bytes)->Ok_0;
                lemma_fields_compatible(t.fields@, bytes, boundaries(bytes, count), 0);
            },
            TypeDesc::Option_(o) => {
                if bytes.len() > 0 {
                    o.item.lemma_compatible(bytes);
                }
            },
            TypeDesc::Union(u) => {
                let id = number_at(bytes, 0);
                lemma_find_item(u.items@, id, 0);
                let i = find_item(u.items@, id, 0)->Some_0;
                u.items[i].typ.lemma_compatible(bytes.skip(4));
            },
            _ => {},
        }
    }

    /// Checks that `slice` encodes a value of this type.
    pub fn verify(&self, slice: &[u8], compatible: bool) -> (r: Result<(), VerificationError>)
        ensures
            match r {
                Ok(_) => self.verify_spec(slice@, compatible) is Ok,
                Err(e) => self.verify_spec(slice@, compatible) == Err::<(), ErrorView>(e@),
            },
        decreases self,
    {
        match self {
            TypeDesc::Byte => {
                if slice.len() != 1 {
                    return Err(
                        VerificationError::TotalSizeNotMatch {
                            name: "Byte".to_owned(),
                            expected: 1,
                            actual: slice.len() as u64,
                        },
                    );
                }
                Ok(())
            },
            TypeDesc::Array(a) => a.verify(slice),
            TypeDesc::Struct(s) => s.verify(slice),
            TypeDesc::FixVec(v) => v.verify(slice),
            TypeDesc::DynVec(v) => v.verify(slice, compatible),
            TypeDesc::Table(t) => t.verify(slice, compatible),
            TypeDesc::Option_(o) => o.verify(slice, compatible),
            TypeDesc::Union(u) => u.verify(slice, compatible),
        }
    }

    /// An encoding of a type of fixed size is any slice of that size.
    pub proof fn lemma_fixed_size_valid(&self, bytes: Seq<u8>)
        requires
            self.fixed_size() is Some,
        ensures
            forall|compatible: bool|
                #![auto]
                self.verify_spec(bytes, compatible) is Ok <==> bytes.len()
                    == self.fixed_size().unwrap(),
    {
    }
}

/// Items that a strict reader accepts, a compatible reader accepts too.
pub proof fn lemma_items_compatible(item: TypeDesc, bytes: Seq<u8>, bounds: Seq<int>, k: int)
    requires
        items_verdict(item, bytes, bounds, k, false) is Ok,
    ensures
        items_verdict(item, bytes, bounds, k, true) is Ok,
    decreases item, 1 + bounds.len() - k,
{
    if 0 <= k && k + 1 < bounds.len() {
        item.lemma_compatible(bytes.subrange(bounds[k], bounds[k + 1]));
        lemma_items_compatible(item, bytes, bounds, k + 1);
    }
}

/// Fields that a strict reader accepts, a compatible reader accepts too.
pub proof fn lemma_fields_compatible(
    fields: Seq<TypeDesc>,
    bytes: Seq<u8>,
    bounds: Seq<int>,
    i: int,
)
    requires
        fields_verdict(fields, bytes, bounds, i, false) is Ok,
    ensures
        fields_verdict(fields, bytes, bounds, i, true) is Ok,
    decreases fields, fields.len() - i,
{
    if 0 <= i < fields.len() {
        fields[i].lemma_compatible(bytes.subrange(bounds[i], bounds[i + 1]));
        lemma_fields_compatible(fields, bytes, bounds, i + 1);
    }
}

} // verus!
