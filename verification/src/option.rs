//! Options: nothing, or one value of the item type. An empty slice is the
//! absent value; any other slice is the encoding of the value itself.

use crate::error::{ErrorView, Verdict, VerificationError};
use crate::naming::{camel_case, to_camel};
use crate::schema::{Option_, TypeDesc};
use vstd::prelude::*;

verus! {

impl Option_ {
    /// An encoding is empty or an encoding of the item type.
    pub open spec fn verify_spec(&self, bytes: Seq<u8>, compatible: bool) -> Verdict
        decreases self, 0int,
    {
        if bytes.len() == 0 {
            Ok(())
        } else {
            self.item.verify_spec(bytes, compatible)
        }
    }

    /// The value that an encoding holds.
    pub open spec fn value(bytes: Seq<u8>) -> Option<Seq<u8>> {
        if bytes.len() == 0 {
            None
        } else {
            Some(bytes)
        }
    }

    /// The encoding of a value.
    pub open spec fn encoding(value: Option<Seq<u8>>) -> Seq<u8> {
        match value {
            None => Seq::empty(),
            Some(bytes) => bytes,
        }
    }

    /// Describes an option of type `item`.
    pub fn new(name: &str, item: TypeDesc) -> (o: Option_)
        requires
            item.wf(),
        ensures
            o.wf(),
            o.name@ == camel_case(name@),
            *o.item == item,
    {
        Option_ { name: to_camel(name), item: Box::new(item) }
    }

    /// Checks that `slice` encodes a value of this option.
    pub fn verify(&self, slice: &[u8], compatible: bool) -> (r: Result<(), VerificationError>)
        ensures
            match r {
                Ok(_) => self.verify_spec(slice@, compatible) is Ok,
                Err(e) => self.verify_spec(slice@, compatible) == Err::<(), ErrorView>(e@),
            },
        decreases self,
    {
        if slice.len() == 0 {
            return Ok(());
        }
        self.item.verify(slice, compatible)
    }
}

/// A slice read as an option.
#[derive(Debug, Clone, Copy)]
pub struct OptionReader<'a> {
    pub desc: &'a Option_,
    pub inner: &'a [u8],
}

impl<'a> OptionReader<'a> {
    /// The slice is an encoding of the option, for a compatible reader.
    pub open spec fn wf(&self) -> bool {
        self.desc.wf() && self.desc.verify_spec(self.inner@, true) is Ok
    }

    /// The value that the option holds.
    pub open spec fn value(&self) -> Option<Seq<u8>> {
        Option_::value(self.inner@)
    }

    /// Validates `slice` and reads it as an option.
    pub fn from_slice(desc: &'a Option_, slice: &'a [u8], compatible: bool) -> (r: Result<
        Self,
        VerificationError,
    >)
        ensures
            match r {
                Ok(reader) => desc.verify_spec(slice@, compatible) is Ok && reader.desc == desc
                    && reader.inner == slice && (desc.wf() ==> reader.wf()),
                Err(e) => desc.verify_spec(slice@, compatible) == Err::<(), ErrorView>(e@),
            },
    {
        match desc.verify(slice, compatible) {
            Ok(_) => {
                proof {
                    if !compatible {
                        TypeDesc::Option_(*desc).lemma_compatible(slice@);
                    }
                }
                Ok(OptionReader { desc, inner: slice })
            },
            Err(e) => Err(e),
        }
    }

    /// Reads `slice` as an option without validating it.
    pub fn from_slice_unchecked(desc: &'a Option_, slice: &'a [u8]) -> (reader: Self)
        ensures
            reader.desc == desc,
            reader.inner == slice,
    {
        OptionReader { desc, inner: slice }
    }

    /// The slice behind the reader.
    pub fn as_slice(&self) -> (slice: &'a [u8])
        ensures
            slice == self.inner,
    {
        self.inner
    }

    /// Whether the option holds a value.
    pub fn is_some(&self) -> (some: bool)
        ensures
            some <==> self.value() is Some,
    {
        self.inner.len() != 0
    }

    /// Whether the option holds no value.
    pub fn is_none(&self) -> (none: bool)
        ensures
            none <==> self.value() is None,
    {
        self.inner.len() == 0
    }

    /// The encoding of the value that the option holds, if it holds one.
    pub fn to_opt(&self) -> (item: Option<&'a [u8]>)
        ensures
            item is Some <==> self.value() is Some,
            item matches Some(bytes) ==> bytes == self.inner && self.value() == Some(bytes@),
            item is Some && self.wf() ==> self.desc.item.verify_spec(self.inner@, true) is Ok,
    {
        if self.inner.len() == 0 {
            None
        } else {
            Some(self.inner)
        }
    }

    /// A builder that holds the value of this option.
    pub fn as_builder(&self) -> (builder: OptionBuilder<'a>)
        ensures
            builder.desc == self.desc,
            builder@ == self.value(),
    {
        let item = match self.to_opt() {
            None => None,
            Some(bytes) => Some(vstd::slice::slice_to_vec(bytes)),
        };
        OptionBuilder { desc: self.desc, item }
    }
}

/// The value from which an option is put together.
#[derive(Debug)]
pub struct OptionBuilder<'a> {
    pub desc: &'a Option_,
    pub item: Option<Vec<u8>>,
}

impl<'a> View for OptionBuilder<'a> {
    type V = Option<Seq<u8>>;

    open spec fn view(&self) -> Option<Seq<u8>> {
        match self.item {
            None => None,
            Some(bytes) => Some(bytes@),
        }
    }
}

impl<'a> OptionBuilder<'a> {
    /// A builder that holds no value.
    pub fn new(desc: &'a Option_) -> (builder: Self)
        ensures
            builder.desc == desc,
            builder@ is None,
    {
        OptionBuilder { desc, item: None }
    }

    /// Puts `item` in the place of what the builder holds.
    pub fn set(&mut self, item: Option<&[u8]>)
        ensures
            final(self).desc == old(self).desc,
            final(self)@ == match item {
                None => None,
                Some(bytes) => Some(bytes@),
            },
    {
        self.item = match item {
            None => None,
            Some(bytes) => Some(vstd::slice::slice_to_vec(bytes)),
        };
    }

    /// The encoding of the option that holds the value of the builder.
    pub fn build(&self) -> (bytes: Vec<u8>)
        ensures
            bytes@ == Option_::encoding(self@),
    {
        match &self.item {
            None => Vec::new(),
            Some(item) => vstd::slice::slice_to_vec(item.as_slice()),
        }
    }
}

/// The empty slice is the absent value, whatever the item type.
pub proof fn lemma_option_none(desc: Option_, compatible: bool)
    ensures
        desc.verify_spec(Seq::empty(), compatible) is Ok,
        Option_::value(Seq::empty()) is None,
{
}

/// The verdict on a slice that is not empty is the verdict of the item type
/// on that slice.
pub proof fn lemma_option_some(desc: Option_, bytes: Seq<u8>, compatible: bool)
    requires
        bytes.len() > 0,
    ensures
        desc.verify_spec(bytes, compatible) == desc.item.verify_spec(bytes, compatible),
        Option_::value(bytes) == Some(bytes),
{
}

/// What a builder puts together from nothing, or from an encoding of the
/// item type that is not empty, is an encoding of the option, and reading
/// it gives the value back.
pub proof fn lemma_option_build(desc: Option_, value: Option<Seq<u8>>, compatible: bool)
    requires
        value matches Some(bytes) ==> bytes.len() > 0 && desc.item.verify_spec(bytes, compatible)
            is Ok,
    ensures
        desc.verify_spec(Option_::encoding(value), compatible) is Ok,
        Option_::value(Option_::encoding(value)) == value,
{
}

/// Reading an encoding, building from what was read and reading again gives
/// what the first reading gave.
pub proof fn lemma_option_round_trip(desc: Option_, bytes: Seq<u8>, compatible: bool)
    requires
        desc.verify_spec(bytes, compatible) is Ok,
    ensures
        Option_::encoding(Option_::value(bytes)) == bytes,
        desc.verify_spec(Option_::encoding(Option_::value(bytes)), compatible) is Ok,
        Option_::value(Option_::encoding(Option_::value(bytes))) == Option_::value(bytes),
{
    assert(Option_::encoding(Option_::value(bytes)) =~= bytes);
}

} // verus!
