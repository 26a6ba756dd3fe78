//! One reader for every type of a schema: validation that goes by the
//! category of the descriptor and hands back the reader of that category.

use crate::array::ArrayReader;
use crate::dynvec::DynVecReader;
use crate::error::{ErrorView, VerificationError};
use crate::fixvec::FixVecReader;
use crate::option::OptionReader;
use crate::schema::TypeDesc;
use crate::structure::StructReader;
use crate::table::TableReader;
use crate::union::UnionReader;
use vstd::prelude::*;

verus! {

/// A slice read as a value of some type.
#[derive(Debug, Clone, Copy)]
pub enum Reader<'a> {
    /// The one byte of the primitive type.
    Byte(&'a [u8]),
    Array(ArrayReader<'a>),
    Struct(StructReader<'a>),
    FixVec(FixVecReader<'a>),
    DynVec(DynVecReader<'a>),
    Table(TableReader<'a>),
    Option_(OptionReader<'a>),
    Union(UnionReader<'a>),
}

impl<'a> Reader<'a> {
    /// The slice behind the reader, as a sequence of bytes.
    pub open spec fn bytes(&self) -> Seq<u8> {
        match self {
            Reader::Byte(inner) => inner@,
            Reader::Array(reader) => reader.inner@,
            Reader::Struct(reader) => reader.inner@,
            Reader::FixVec(reader) => reader.inner@,
            Reader::DynVec(reader) => reader.inner@,
            Reader::Table(reader) => reader.inner@,
            Reader::Option_(reader) => reader.inner@,
            Reader::Union(reader) => reader.inner@,
        }
    }

    /// The reader is that of the category of `desc`, for `desc`.
    pub open spec fn reads(&self, desc: TypeDesc) -> bool {
        match self {
            Reader::Byte(_) => desc is Byte,
            Reader::Array(reader) => desc == TypeDesc::Array(*reader.desc),
            Reader::Struct(reader) => desc == TypeDesc::Struct(*reader.desc),
            Reader::FixVec(reader) => desc == TypeDesc::FixVec(*reader.desc),
            Reader::DynVec(reader) => desc == TypeDesc::DynVec(*reader.desc),
            Reader::Table(reader) => desc == TypeDesc::Table(*reader.desc),
            Reader::Option_(reader) => desc == TypeDesc::Option_(*reader.desc),
            Reader::Union(reader) => desc == TypeDesc::Union(*reader.desc),
        }
    }

    /// The slice is an encoding of the type, for a compatible reader.
    pub open spec fn wf(&self) -> bool {
        match self {
            Reader::Byte(inner) => inner@.len() == 1,
            Reader::Array(reader) => reader.wf(),
            Reader::Struct(reader) => reader.wf(),
            Reader::FixVec(reader) => reader.wf(),
            Reader::DynVec(reader) => reader.wf(),
            Reader::Table(reader) => reader.wf(),
            Reader::Option_(reader) => reader.wf(),
            Reader::Union(reader) => reader.wf(),
        }
    }

    /// The slice behind the reader.
    pub fn as_slice(&self) -> (slice: &'a [u8])
        ensures
            slice@ == self.bytes(),
    {
        match self {
            Reader::Byte(inner) => inner,
            Reader::Array(reader) => reader.as_slice(),
            Reader::Struct(reader) => reader.as_slice(),
            Reader::FixVec(reader) => reader.as_slice(),
            Reader::DynVec(reader) => reader.as_slice(),
            Reader::Table(reader) => reader.as_slice(),
            Reader::Option_(reader) => reader.as_slice(),
            Reader::Union(reader) => reader.as_slice(),
        }
    }
}

impl TypeDesc {
    /// Reads `slice` as a value of this type without validating it.
    pub fn from_slice_unchecked<'a>(&'a self, slice: &'a [u8]) -> (reader: Reader<'a>)
        ensures
            reader.reads(*self),
            reader.bytes() == slice@,
    {
        match self {
            TypeDesc::Byte => Reader::Byte(slice),
            TypeDesc::Array(a) => Reader::Array(ArrayReader::from_slice_unchecked(a, slice)),
            TypeDesc::Struct(s) => Reader::Struct(StructReader::from_slice_unchecked(s, slice)),
            TypeDesc::FixVec(v) => Reader::FixVec(FixVecReader::from_slice_unchecked(v, slice)),
            TypeDesc::DynVec(v) => Reader::DynVec(DynVecReader::from_slice_unchecked(v, slice)),
            TypeDesc::Table(t) => Reader::Table(TableReader::from_slice_unchecked(t, slice)),
            TypeDesc::Option_(o) => Reader::Option_(OptionReader::from_slice_unchecked(o, slice)),
            TypeDesc::Union(u) => Reader::Union(UnionReader::from_slice_unchecked(u, slice)),
        }
    }

    /// Validates `slice` and reads it as a value of this type.
    pub fn from_slice<'a>(&'a self, slice: &'a [u8], compatible: bool) -> (r: Result<
        Reader<'a>,
        VerificationError,
    >)
        ensures
            match r {
                Ok(reader) => self.verify_spec(slice@, compatible) is Ok && reader.reads(*self)
                    && reader.bytes() == slice@ && (self.wf() ==> reader.wf()),
                Err(e) => self.verify_spec(slice@, compatible) == Err::<(), ErrorView>(e@),
            },
    {
        match self.verify(slice, compatible) {
            Ok(_) => {
                proof {
                    if !compatible {
                        self.lemma_compatible(slice@);
                    }
                }
                Ok(self.from_slice_unchecked(slice))
            },
            Err(e) => Err(e),
        }
    }
}

} // verus!
