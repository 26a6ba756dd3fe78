//! The default value of each type: the encoding in which every byte of a
//! fixed-size type is zero, every vector is empty, every option is absent,
//! every table holds the defaults of its fields and every union holds the
//! default of its first variant.

use crate::number::{number_bytes, pack_number};
use crate::offsets::{encode_table, lemma_table_encoding_len, table_encoding, table_size};
use crate::pieces::{lemma_total_len_take, total_len, views, zeros};
use crate::schema::TypeDesc;
use vstd::prelude::*;

verus! {

/// The default values of the given types, in order.
pub open spec fn default_parts(fields: Seq<TypeDesc>) -> Seq<Seq<u8>>
    decreases fields,
{
    Seq::new(
        fields.len(),
        |i: int|
            if 0 <= i < fields.len() {
                fields[i].default_spec()
            } else {
                Seq::empty()
            },
    )
}

impl TypeDesc {
    /// The encoding of the default value of this type.
    pub open spec fn default_spec(&self) -> Seq<u8>
        decreases self,
    {
        match self {
            TypeDesc::Byte => seq![0u8],
            TypeDesc::Array(a) => Seq::new(a.total_size as nat, |i: int| 0u8),
            TypeDesc::Struct(s) => Seq::new(s.total_size as nat, |i: int| 0u8),
            TypeDesc::FixVec(_) => number_bytes(0),
            TypeDesc::DynVec(_) => number_bytes(4),
            TypeDesc::Table(t) => table_encoding(default_parts(t.fields@)),
            TypeDesc::Option_(_) => Seq::empty(),
            TypeDesc::Union(u) => if u.items.len() > 0 {
                number_bytes(u.items[0].id as nat) + u.items[0].typ.default_spec()
            } else {
                Seq::empty()
            },
        }
    }

    /// The size of the default value of this type, where a `usize` holds
    /// it.
    pub fn default_size(&self) -> (size: Option<usize>)
        requires
            self.wf(),
        ensures
            match size {
                Some(n) => n == self.default_spec().len(),
                None => self.default_spec().len() > usize::MAX,
            },
        decreases self,
    {
        match self {
            TypeDesc::Byte => Some(1),
            TypeDesc::Array(a) => Some(a.total_size),
            TypeDesc::Struct(s) => Some(s.total_size),
            TypeDesc::FixVec(_) => Some(4),
            TypeDesc::DynVec(_) => Some(4),
            TypeDesc::Table(t) => {
                proof {
                    lemma_table_encoding_len(default_parts(t.fields@));
                }
                default_table_size(&t.fields)
            },
            TypeDesc::Option_(_) => Some(0),
            TypeDesc::Union(u) => match u.items[0].typ.default_size() {
                None => None,
                Some(n) => n.checked_add(4),
            },
        }
    }

    /// The encoding of the default value of this type.
    pub fn default_content(&self) -> (bytes: Vec<u8>)
        requires
            self.wf(),
        ensures
            bytes@ == self.default_spec(),
        decreases self,
    {
        match self {
            TypeDesc::Byte => {
                let bytes = zeros(1);
                assert(bytes@ =~= seq![0u8]);
                bytes
            },
            TypeDesc::Array(a) => {
                let bytes = zeros(a.total_size);
                assert(bytes@ =~= self.default_spec());
                bytes
            },
            TypeDesc::Struct(s) => {
                let bytes = zeros(s.total_size);
                assert(bytes@ =~= self.default_spec());
                bytes
            },
            TypeDesc::FixVec(_) => pack_number(0),
            TypeDesc::DynVec(_) => pack_number(4),
            TypeDesc::Table(t) => {
                let parts = default_contents(&t.fields);
                match encode_table(&parts) {
                    Some(bytes) => bytes,
                    None => vstd::pervasive::unreached(),
                }
            },
            TypeDesc::Option_(_) => Vec::new(),
            TypeDesc::Union(u) => {
                let mut bytes = pack_number(u.items[0].id);
                let inner = u.items[0].typ.default_content();
                bytes.extend_from_slice(inner.as_slice());
                assert(bytes@ =~= self.default_spec());
                bytes
            },
        }
    }
}

/// The default values of the given types, in order.
pub fn default_contents(fields: &Vec<TypeDesc>) -> (parts: Vec<Vec<u8>>)
    requires
        forall|i: int| 0 <= i < fields.len() ==> (#[trigger] fields[i]).wf(),
    ensures
        views(parts@) == default_parts(fields@),
    decreases fields,
{
    let mut parts: Vec<Vec<u8>> = Vec::with_capacity(fields.len());
    let mut i: usize = 0;
    while i < fields.len()
        invariant
            i <= fields.len(),
            parts@.len() == i,
            forall|j: int| 0 <= j < fields.len() ==> (#[trigger] fields[j]).wf(),
            forall|j: int| 0 <= j < i ==> (#[trigger] parts@[j])@ == fields[j].default_spec(),
        decreases fields.len() - i,
    {
        parts.push(fields[i].default_content());
        i += 1;
    }
    assert(views(parts@) =~= default_parts(fields@));
    parts
}

/// The size of the table in which each of the given fields has its default
/// value, where a `Number` holds it.
pub fn default_table_size(fields: &Vec<TypeDesc>) -> (size: Option<usize>)
    requires
        forall|i: int| 0 <= i < fields.len() ==> (#[trigger] fields[i]).wf(),
    ensures
        match size {
            Some(n) => n == table_size(default_parts(fields@)),
            None => table_size(default_parts(fields@)) > u32::MAX,
        },
        size is Some <==> table_size(default_parts(fields@)) <= u32::MAX,
    decreases fields,
{
    let count = fields.len();
    if count >= 0x3fff_ffff {
        return None;
    }
    let ghost parts = default_parts(fields@);
    let mut size: usize = 4 * (count + 1);
    let mut i: usize = 0;
    proof {
        assert(parts.take(0) =~= Seq::<Seq<u8>>::empty());
    }
    while i < count
        invariant
            i <= count,
            count == fields.len(),
            count < 0x3fff_ffff,
            parts == default_parts(fields@),
            forall|j: int| 0 <= j < fields.len() ==> (#[trigger] fields[j]).wf(),
            size == 4 * (count + 1) + total_len(parts.take(i as int)),
            size <= u32::MAX,
        decreases count - i,
    {
        proof {
            lemma_total_len_take(parts, i as int, count as int);
            lemma_total_len_take(parts, i + 1, count as int);
        }
        match fields[i].default_size() {
            None => {
                return None;
            },
            Some(n) => {
                if n > u32::MAX as usize - size {
                    return None;
                }
                size += n;
            },
        }
        i += 1;
    }
    proof {
        lemma_total_len_take(parts, count as int, count as int);
    }
    Some(size)
}

} // verus!
