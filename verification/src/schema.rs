//! Type descriptors: what a schema says of a type, fixed before any byte is
//! read. A descriptor names its category, the types of its items or fields,
//! and the sizes and offsets that follow from them.

use crate::defaults::{default_parts, default_table_size};
use crate::number::Number;
use crate::offsets::table_size;
use crate::structure::lemma_sum_sizes_grows;
use crate::union::distinct_ids;
use vstd::prelude::*;

verus! {

/// A type of the schema.
#[derive(Debug)]
pub enum TypeDesc {
    /// The primitive: one byte.
    Byte,
    Array(Array),
    Struct(Struct),
    FixVec(FixVec),
    DynVec(DynVec),
    Table(Table),
    Option_(Option_),
    Union(Union),
}

/// A fixed number of items of one fixed-size type, with no header.
#[derive(Debug)]
pub struct Array {
    pub name: String,
    pub item: Box<TypeDesc>,
    pub item_size: usize,
    pub item_count: usize,
    pub total_size: usize,
}

/// Fields of fixed-size types, one after the other, with no header.
/// `field_names[i]` is the name of field `i`, `offsets[i]` is where it
/// starts and `field_sizes[i]` its size.
#[derive(Debug)]
pub struct Struct {
    pub name: String,
    pub field_names: Vec<String>,
    pub fields: Vec<TypeDesc>,
    pub field_sizes: Vec<usize>,
    pub offsets: Vec<usize>,
    pub total_size: usize,
}

/// Any number of items of one fixed-size type, behind an item count.
#[derive(Debug)]
pub struct FixVec {
    pub name: String,
    pub item: Box<TypeDesc>,
    pub item_size: Number,
}

/// Any number of items of one type, behind a total size and an offset table.
#[derive(Debug)]
pub struct DynVec {
    pub name: String,
    pub item: Box<TypeDesc>,
}

/// Fields of any types, behind a total size and an offset table that may
/// hold more entries than the schema declares fields. `field_names[i]` is
/// the name of field `i`.
#[derive(Debug)]
pub struct Table {
    pub name: String,
    pub field_names: Vec<String>,
    pub fields: Vec<TypeDesc>,
}

/// Nothing, or one value of the item type.
#[derive(Debug)]
pub struct Option_ {
    pub name: String,
    pub item: Box<TypeDesc>,
}

/// One variant of a union and the discriminant that selects it.
#[derive(Debug)]
pub struct UnionItem {
    pub id: Number,
    pub typ: TypeDesc,
}

/// One value of one of the declared variants, behind its discriminant.
#[derive(Debug)]
pub struct Union {
    pub name: String,
    pub items: Vec<UnionItem>,
}

/// The sum of the first `i` sizes.
pub open spec fn sum_sizes(sizes: Seq<usize>, i: int) -> nat
    decreases i,
{
    if i <= 0 {
        0
    } else {
        sum_sizes(sizes, i - 1) + sizes[i - 1] as nat
    }
}

impl TypeDesc {
    /// The size of every encoding of this type, where the schema fixes it.
    pub open spec fn fixed_size(&self) -> Option<nat> {
        match self {
            TypeDesc::Byte => Some(1),
            TypeDesc::Array(a) => Some(a.total_size as nat),
            TypeDesc::Struct(s) => Some(s.total_size as nat),
            _ => None,
        }
    }

    /// The descriptor is consistent: see `wf` of each category.
    pub open spec fn wf(&self) -> bool
        decreases self,
    {
        match self {
            TypeDesc::Byte => true,
            TypeDesc::Array(a) => a.wf(),
            TypeDesc::Struct(s) => s.wf(),
            TypeDesc::FixVec(v) => v.wf(),
            TypeDesc::DynVec(v) => v.wf(),
            TypeDesc::Table(t) => t.wf(),
            TypeDesc::Option_(o) => o.wf(),
            TypeDesc::Union(u) => u.wf(),
        }
    }

    /// The size of every encoding of this type, where the schema fixes it.
    pub fn size(&self) -> (size: Option<usize>)
        ensures
            size is Some <==> self.fixed_size() is Some,
            size matches Some(n) ==> self.fixed_size() == Some(n as nat),
    {
        match self {
            TypeDesc::Byte => Some(1),
            TypeDesc::Array(a) => Some(a.total_size),
            TypeDesc::Struct(s) => Some(s.total_size),
            _ => None,
        }
    }

    /// The name of the type, as errors report it.
    pub open spec fn name_spec(&self) -> Seq<char> {
        match self {
            TypeDesc::Byte => "Byte"@,
            TypeDesc::Array(a) => a.name@,
            TypeDesc::Struct(s) => s.name@,
            TypeDesc::FixVec(v) => v.name@,
            TypeDesc::DynVec(v) => v.name@,
            TypeDesc::Table(t) => t.name@,
            TypeDesc::Option_(o) => o.name@,
            TypeDesc::Union(u) => u.name@,
        }
    }

    /// The name of the type, as errors report it.
    pub fn name(&self) -> (name: &str)
        ensures
            name@ == self.name_spec(),
    {
        match self {
            TypeDesc::Byte => "Byte",
            TypeDesc::Array(a) => a.name.as_str(),
            TypeDesc::Struct(s) => s.name.as_str(),
            TypeDesc::FixVec(v) => v.name.as_str(),
            TypeDesc::DynVec(v) => v.name.as_str(),
            TypeDesc::Table(t) => t.name.as_str(),
            TypeDesc::Option_(o) => o.name.as_str(),
            TypeDesc::Union(u) => u.name.as_str(),
        }
    }

    /// Tells whether the descriptor is consistent.
    pub fn is_wf(&self) -> (ok: bool)
        ensures
            ok == self.wf(),
        decreases self,
    {
        match self {
            TypeDesc::Byte => true,
            TypeDesc::Array(a) => {
                if !a.item.is_wf() {
                    return false;
                }
                let sized = match a.item.size() {
                    Some(size) => size == a.item_size,
                    None => false,
                };
                let total = match a.item_size.checked_mul(a.item_count) {
                    Some(total) => total == a.total_size,
                    None => false,
                };
                sized && total
            },
            TypeDesc::Struct(s) => {
                let count = s.fields.len();
                if s.field_names.len() != count || s.field_sizes.len() != count
                    || s.offsets.len() != count || !all_wf(&s.fields) {
                    return false;
                }
                let mut offset: usize = 0;
                let mut i: usize = 0;
                while i < count
                    invariant
                        i <= count,
                        *self == TypeDesc::Struct(*s),
                        count == s.fields.len(),
                        s.field_names.len() == count,
                        s.field_sizes.len() == count,
                        s.offsets.len() == count,
                        offset == sum_sizes(s.field_sizes@, i as int),
                        forall|j: int| 0 <= j < count ==> (#[trigger] s.fields[j]).wf(),
                        forall|j: int|
                            0 <= j < i ==> (#[trigger] s.fields[j]).fixed_size() == Some(
                                s.field_sizes[j] as nat,
                            ) && s.offsets[j] == sum_sizes(s.field_sizes@, j),
                    decreases count - i,
                {
                    let sized = match s.fields[i].size() {
                        Some(size) => size == s.field_sizes[i],
                        None => false,
                    };
                    if !sized || s.offsets[i] != offset {
                        return false;
                    }
                    offset = match offset.checked_add(s.field_sizes[i]) {
                        Some(end) => end,
                        None => {
                            proof {
                                lemma_sum_sizes_grows(s.field_sizes@, i + 1, count as int);
                            }
                            return false;
                        },
                    };
                    i += 1;
                }
                s.total_size == offset
            },
            TypeDesc::FixVec(v) => {
                if !v.item.is_wf() {
                    return false;
                }
                match v.item.size() {
                    Some(size) => size == v.item_size as usize,
                    None => false,
                }
            },
            TypeDesc::DynVec(v) => v.item.is_wf(),
            TypeDesc::Table(t) => {
                if t.field_names.len() != t.fields.len() || !all_wf(&t.fields) {
                    return false;
                }
                default_table_size(&t.fields).is_some()
            },
            TypeDesc::Option_(o) => o.item.is_wf(),
            TypeDesc::Union(u) => {
                if u.items.len() == 0 {
                    return false;
                }
                let mut i: usize = 0;
                while i < u.items.len()
                    invariant
                        i <= u.items.len(),
                        *self == TypeDesc::Union(*u),
                        forall|j: int| 0 <= j < i ==> (#[trigger] u.items[j]).typ.wf(),
                    decreases u.items.len() - i,
                {
                    proof {
                        assert(self->Union_0 == *u);
                        assert(decreases_to!(*self => self->Union_0));
                        assert(decreases_to!(*u => u.items));
                        assert(decreases_to!(u.items => u.items[i as int]));
                    }
                    if !u.items[i].typ.is_wf() {
                        return false;
                    }
                    i += 1;
                }
                distinct_ids(&u.items)
            },
        }
    }
}

impl Array {
    /// The item type has the fixed size `item_size`, and `total_size` is the
    /// size of `item_count` items.
    pub open spec fn wf(&self) -> bool
        decreases self,
    {
        &&& self.item.wf()
        &&& self.item.fixed_size() == Some(self.item_size as nat)
        &&& self.total_size == self.item_size * self.item_count
    }
}

impl Struct {
    /// Every field has a name, every field type has the fixed size recorded
    /// for it, each offset is the sum of the sizes before it, and
    /// `total_size` is the sum of all.
    pub open spec fn wf(&self) -> bool
        decreases self,
    {
        &&& self.field_names.len() == self.fields.len()
        &&& self.field_sizes.len() == self.fields.len()
        &&& self.offsets.len() == self.fields.len()
        &&& self.total_size == sum_sizes(self.field_sizes@, self.fields.len() as int)
        &&& forall|i: int|
            0 <= i < self.fields.len() ==> {
                &&& (#[trigger] self.fields[i]).wf()
                &&& self.fields[i].fixed_size() == Some(self.field_sizes[i] as nat)
                &&& self.offsets[i] == sum_sizes(self.field_sizes@, i)
            }
    }
}

impl FixVec {
    /// The item type has the fixed size `item_size`.
    pub open spec fn wf(&self) -> bool
        decreases self,
    {
        &&& self.item.wf()
        &&& self.item.fixed_size() == Some(self.item_size as nat)
    }
}

impl DynVec {
    /// The item type is well formed.
    pub open spec fn wf(&self) -> bool
        decreases self,
    {
        self.item.wf()
    }
}

impl Table {
    /// Every field has a name, and a `Number` holds the size of the table
    /// in which every field has its default value.
    pub open spec fn wf(&self) -> bool
        decreases self,
    {
        &&& self.field_names.len() == self.fields.len()
        &&& table_size(default_parts(self.fields@)) <= Number::MAX
        &&& forall|i: int| 0 <= i < self.fields.len() ==> (#[trigger] self.fields[i]).wf()
    }
}

impl Option_ {
    /// The item type is well formed.
    pub open spec fn wf(&self) -> bool
        decreases self,
    {
        self.item.wf()
    }
}

impl Union {
    /// There is a first variant, and no two variants share a discriminant.
    pub open spec fn wf(&self) -> bool
        decreases self,
    {
        &&& self.items.len() > 0
        &&& forall|i: int| 0 <= i < self.items.len() ==> (#[trigger] self.items[i]).typ.wf()
        &&& forall|i: int, j: int|
            0 <= i < j < self.items.len() ==> (#[trigger] self.items[i]).id != (
            #[trigger] self.items[j]).id
    }
}

/// Tells whether every one of the given descriptors is consistent.
pub fn all_wf(fields: &Vec<TypeDesc>) -> (ok: bool)
    ensures
        ok <==> forall|i: int| 0 <= i < fields.len() ==> (#[trigger] fields[i]).wf(),
    decreases fields,
{
    let mut i: usize = 0;
    while i < fields.len()
        invariant
            i <= fields.len(),
            forall|j: int| 0 <= j < i ==> (#[trigger] fields[j]).wf(),
        decreases fields.len() - i,
    {
        if !fields[i].is_wf() {
            return false;
        }
        i += 1;
    }
    true
}

} // verus!
