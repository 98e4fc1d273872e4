use vstd::prelude::*;

use crate::bitmap::{validity_fits, Bitmap};
use crate::boolean::BooleanArray;
use crate::datatypes::{physical_of, DataType, PhysicalType, PrimitiveType, UnionMode};
use crate::native::NativeType;
use crate::select::{lemma_select_index, lemma_select_pointwise, select};
use crate::primitive::PrimitiveArray;
use crate::union::UnionArray;
use crate::utf8::Utf8Array;

verus! {

/// The logical content of one slot of an array, whatever its layout.
pub enum Slot {
    /// A null slot.
    Null,
    /// A boolean value.
    Boolean(bool),
    /// An integer value.
    Int(int),
    /// The bytes of a string.
    Utf8(Seq<u8>),
    /// A union slot: the index of the selected member field, and that field's slot.
    Member(int, Box<Slot>),
    /// A union slot whose type id or offset does not lead to a slot of a member field.
    Unresolved,
}

/// The content of primitive slots.
pub open spec fn int_content<T: NativeType>(slots: Seq<Option<T>>) -> Seq<Slot> {
    slots.map_values(
        |o: Option<T>|
            match o {
                Some(v) => Slot::Int(v.spec_int()),
                None => Slot::Null,
            },
    )
}

/// The content of boolean slots.
pub open spec fn bool_content(slots: Seq<Option<bool>>) -> Seq<Slot> {
    slots.map_values(
        |o: Option<bool>|
            match o {
                Some(v) => Slot::Boolean(v),
                None => Slot::Null,
            },
    )
}

/// The content of string slots.
pub open spec fn utf8_content(slots: Seq<Option<Seq<u8>>>) -> Seq<Slot> {
    slots.map_values(
        |o: Option<Seq<u8>>|
            match o {
                Some(v) => Slot::Utf8(v),
                None => Slot::Null,
            },
    )
}

/// A slot that holds no value: a null slot, a union slot that reads a null slot of its
/// member, or a union slot that does not resolve.
pub open spec fn is_null_slot(s: Slot) -> bool
    decreases s,
{
    match s {
        Slot::Null => true,
        Slot::Member(_, b) => is_null_slot(*b),
        Slot::Unresolved => true,
        _ => false,
    }
}

/// `length` null slots of type `t` fit the layout's offsets: a dense union (at any depth
/// of union members) needs 32-bit offsets, strings need one offset more than slots.
pub open spec fn null_length_fits(t: DataType, length: int) -> bool
    decreases t,
{
    match t {
        DataType::Union(fs, _, m) => {
            &&& (m == UnionMode::Dense ==> length <= i32::MAX)
            &&& forall|k: int| 0 <= k < fs@.len() ==> null_length_fits(#[trigger] fs@[k].data_type, length)
        },
        DataType::Utf8 => length < usize::MAX,
        _ => true,
    }
}

/// Two arrays have the same layout variant.
pub open spec fn same_variant(a: Array, b: Array) -> bool {
    match (a, b) {
        (Array::Null(_), Array::Null(_)) => true,
        (Array::Boolean(_), Array::Boolean(_)) => true,
        (Array::Int8(_), Array::Int8(_)) => true,
        (Array::Int16(_), Array::Int16(_)) => true,
        (Array::Int32(_), Array::Int32(_)) => true,
        (Array::Int64(_), Array::Int64(_)) => true,
        (Array::UInt8(_), Array::UInt8(_)) => true,
        (Array::UInt16(_), Array::UInt16(_)) => true,
        (Array::UInt32(_), Array::UInt32(_)) => true,
        (Array::UInt64(_), Array::UInt64(_)) => true,
        (Array::Utf8(_), Array::Utf8(_)) => true,
        (Array::Union(_), Array::Union(_)) => true,
        _ => false,
    }
}

/// An array whose slots are all null; it stores nothing but its length.
#[derive(Debug)]
pub struct NullArray {
    data_type: DataType,
    length: usize,
}

impl NullArray {
    /// The logical type resolves to the null layout.
    #[verifier::type_invariant]
    spec fn inv(self) -> bool {
        physical_of(self.data_type) == PhysicalType::Null
    }

    /// The logical type.
    pub closed spec fn spec_data_type(&self) -> DataType {
        self.data_type
    }

    /// The number of slots.
    pub closed spec fn spec_len(&self) -> nat {
        self.length as nat
    }

    /// An array of `length` null slots. The logical type must resolve to the null layout.
    pub fn new_null(data_type: DataType, length: usize) -> (r: Self)
        requires
            physical_of(data_type) == PhysicalType::Null,
        ensures
            r.spec_data_type() == data_type,
            r.spec_len() == length,
    {
        NullArray { data_type, length }
    }

    /// An empty array.
    pub fn new_empty(data_type: DataType) -> (r: Self)
        requires
            physical_of(data_type) == PhysicalType::Null,
        ensures
            r.spec_data_type() == data_type,
            r.spec_len() == 0,
    {
        NullArray { data_type, length: 0 }
    }

    /// The number of slots.
    pub fn len(&self) -> (r: usize)
        ensures
            r == self.spec_len(),
    {
        self.length
    }

    /// The logical type.
    pub fn data_type(&self) -> (r: &DataType)
        ensures
            *r == self.spec_data_type(),
            physical_of(*r) == PhysicalType::Null,
    {
        proof {
            use_type_invariant(self);
        }
        &self.data_type
    }

    /// The window of `length` slots from `offset`.
    pub fn slice(&self, offset: usize, length: usize) -> (r: Self)
        requires
            offset + length <= self.spec_len(),
        ensures
            r.spec_data_type() == self.spec_data_type(),
            r.spec_len() == length,
    {
        proof {
            use_type_invariant(self);
        }
        NullArray { data_type: self.data_type.clone(), length }
    }
}

impl Clone for NullArray {
    fn clone(&self) -> (r: Self)
        ensures
            r.spec_data_type() == self.spec_data_type(),
            r.spec_len() == self.spec_len(),
    {
        proof {
            use_type_invariant(self);
        }
        NullArray { data_type: self.data_type.clone(), length: self.length }
    }
}

/// An array of any layout: one variant per physical type (per native type for primitives).
#[derive(Debug)]
pub enum Array {
    Null(NullArray),
    Boolean(BooleanArray),
    Int8(PrimitiveArray<i8>),
    Int16(PrimitiveArray<i16>),
    Int32(PrimitiveArray<i32>),
    Int64(PrimitiveArray<i64>),
    UInt8(PrimitiveArray<u8>),
    UInt16(PrimitiveArray<u16>),
    UInt32(PrimitiveArray<u32>),
    UInt64(PrimitiveArray<u64>),
    Utf8(Utf8Array),
    Union(UnionArray),
}

impl Array {
    /// The validity bitmap of the array's own layout, if any.
    pub open spec fn validity_view(&self) -> Option<Bitmap> {
        match self {
            Array::Null(_) => None,
            Array::Boolean(a) => a.spec_validity(),
            Array::Int8(a) => a.spec_validity(),
            Array::Int16(a) => a.spec_validity(),
            Array::Int32(a) => a.spec_validity(),
            Array::Int64(a) => a.spec_validity(),
            Array::UInt8(a) => a.spec_validity(),
            Array::UInt16(a) => a.spec_validity(),
            Array::UInt32(a) => a.spec_validity(),
            Array::UInt64(a) => a.spec_validity(),
            Array::Utf8(a) => a.spec_validity(),
            Array::Union(_) => None,
        }
    }

    /// The number of slots.
    pub open spec fn spec_len(&self) -> int {
        match self {
            Array::Null(a) => a.spec_len() as int,
            Array::Boolean(a) => a.slots().len() as int,
            Array::Int8(a) => a.slots().len() as int,
            Array::Int16(a) => a.slots().len() as int,
            Array::Int32(a) => a.slots().len() as int,
            Array::Int64(a) => a.slots().len() as int,
            Array::UInt8(a) => a.slots().len() as int,
            Array::UInt16(a) => a.slots().len() as int,
            Array::UInt32(a) => a.slots().len() as int,
            Array::UInt64(a) => a.slots().len() as int,
            Array::Utf8(a) => a.slots().len() as int,
            Array::Union(a) => a.spec_types().len() as int,
        }
    }

    /// The content has one slot per slot of the array.
    pub proof fn lemma_content_len(&self)
        ensures
            self.content().len() == self.spec_len(),
    {
    }

    /// The logical content of the slots.
    pub open spec fn content(&self) -> Seq<Slot>
        decreases self, 2int,
    {
        match self {
            Array::Null(a) => Seq::new(a.spec_len(), |i: int| Slot::Null),
            Array::Boolean(a) => bool_content(a.slots()),
            Array::Int8(a) => int_content(a.slots()),
            Array::Int16(a) => int_content(a.slots()),
            Array::Int32(a) => int_content(a.slots()),
            Array::Int64(a) => int_content(a.slots()),
            Array::UInt8(a) => int_content(a.slots()),
            Array::UInt16(a) => int_content(a.slots()),
            Array::UInt32(a) => int_content(a.slots()),
            Array::UInt64(a) => int_content(a.slots()),
            Array::Utf8(a) => utf8_content(a.slots()),
            Array::Union(a) => a.content(),
        }
    }

    /// The logical type.
    pub open spec fn spec_data_type(&self) -> DataType {
        match self {
            Array::Null(a) => a.spec_data_type(),
            Array::Boolean(a) => a.spec_data_type(),
            Array::Int8(a) => a.spec_data_type(),
            Array::Int16(a) => a.spec_data_type(),
            Array::Int32(a) => a.spec_data_type(),
            Array::Int64(a) => a.spec_data_type(),
            Array::UInt8(a) => a.spec_data_type(),
            Array::UInt16(a) => a.spec_data_type(),
            Array::UInt32(a) => a.spec_data_type(),
            Array::UInt64(a) => a.spec_data_type(),
            Array::Utf8(a) => a.spec_data_type(),
            Array::Union(a) => a.spec_data_type(),
        }
    }

    /// The number of slots.
    pub fn len(&self) -> (r: usize)
        ensures
            r == self.content().len(),
            r == self.spec_len(),
    {
        match self {
            Array::Null(a) => a.len(),
            Array::Boolean(a) => a.len(),
            Array::Int8(a) => a.len(),
            Array::Int16(a) => a.len(),
            Array::Int32(a) => a.len(),
            Array::Int64(a) => a.len(),
            Array::UInt8(a) => a.len(),
            Array::UInt16(a) => a.len(),
            Array::UInt32(a) => a.len(),
            Array::UInt64(a) => a.len(),
            Array::Utf8(a) => a.len(),
            Array::Union(a) => a.len(),
        }
    }

    /// The logical type.
    pub fn data_type(&self) -> (r: &DataType)
        ensures
            *r == self.spec_data_type(),
    {
        match self {
            Array::Null(a) => a.data_type(),
            Array::Boolean(a) => a.data_type(),
            Array::Int8(a) => a.data_type(),
            Array::Int16(a) => a.data_type(),
            Array::Int32(a) => a.data_type(),
            Array::Int64(a) => a.data_type(),
            Array::UInt8(a) => a.data_type(),
            Array::UInt16(a) => a.data_type(),
            Array::UInt32(a) => a.data_type(),
            Array::UInt64(a) => a.data_type(),
            Array::Utf8(a) => a.data_type(),
            Array::Union(a) => a.data_type(),
        }
    }

    /// The validity bitmap, if any. Null and union arrays have none of their own.
    pub fn validity(&self) -> (r: Option<&Bitmap>)
        ensures
            r is Some <==> self.validity_view() is Some,
            r matches Some(v) ==> *v == self.validity_view()->Some_0,
            r matches Some(v) ==> v@.len() == self.content().len(),
    {
        match self {
            Array::Null(_) => None,
            Array::Boolean(a) => a.validity(),
            Array::Int8(a) => a.validity(),
            Array::Int16(a) => a.validity(),
            Array::Int32(a) => a.validity(),
            Array::Int64(a) => a.validity(),
            Array::UInt8(a) => a.validity(),
            Array::UInt16(a) => a.validity(),
            Array::UInt32(a) => a.validity(),
            Array::UInt64(a) => a.validity(),
            Array::Utf8(a) => a.validity(),
            Array::Union(_) => None,
        }
    }

    /// The window of `length` slots from `offset`. It shares the storage of `self`.
    pub fn slice(&self, offset: usize, length: usize) -> (r: Array)
        requires
            offset + length <= self.content().len(),
        ensures
            r.spec_data_type() == self.spec_data_type(),
            r.content() == self.content().subrange(offset as int, offset + length),
            same_variant(r, *self),
            r.validity_view() is Some <==> self.validity_view() is Some,
            r.validity_view() matches Some(v) ==> v@ == self.validity_view()->Some_0@.subrange(
                offset as int,
                offset + length,
            ),
    {
        let r = match self {
            Array::Null(a) => Array::Null(a.slice(offset, length)),
            Array::Boolean(a) => Array::Boolean(a.slice(offset, length)),
            Array::Int8(a) => Array::Int8(a.slice(offset, length)),
            Array::Int16(a) => Array::Int16(a.slice(offset, length)),
            Array::Int32(a) => Array::Int32(a.slice(offset, length)),
            Array::Int64(a) => Array::Int64(a.slice(offset, length)),
            Array::UInt8(a) => Array::UInt8(a.slice(offset, length)),
            Array::UInt16(a) => Array::UInt16(a.slice(offset, length)),
            Array::UInt32(a) => Array::UInt32(a.slice(offset, length)),
            Array::UInt64(a) => Array::UInt64(a.slice(offset, length)),
            Array::Utf8(a) => Array::Utf8(a.slice(offset, length)),
            Array::Union(a) => Array::Union(a.slice(offset, length)),
        };
        assert(r.content() =~= self.content().subrange(offset as int, offset + length));
        r
    }
}

impl Array {
    /// An array of `length` null slots of the given logical type. For a union type the
    /// member fields are null and every slot selects type id 0. The offsets of dense
    /// unions and of strings must fit their integers.
    pub fn new_null(data_type: DataType, length: usize) -> (r: Array)
        requires
            null_length_fits(data_type, length as int),
        ensures
            r.spec_data_type() == data_type,
            r.content().len() == length,
            forall|i: int| 0 <= i < length ==> is_null_slot(#[trigger] r.content()[i]),
            physical_of(data_type) != PhysicalType::Union ==> forall|i: int|
                0 <= i < length ==> #[trigger] r.content()[i] == Slot::Null,
        decreases data_type, 1int,
    {
        let r = match data_type.to_physical_type() {
            PhysicalType::Null => Array::Null(NullArray::new_null(data_type, length)),
            PhysicalType::Boolean => Array::Boolean(BooleanArray::new_null(data_type, length)),
            PhysicalType::Primitive(PrimitiveType::Int8) => Array::Int8(PrimitiveArray::new_null(data_type, length)),
            PhysicalType::Primitive(PrimitiveType::Int16) => Array::Int16(PrimitiveArray::new_null(data_type, length)),
            PhysicalType::Primitive(PrimitiveType::Int32) => Array::Int32(PrimitiveArray::new_null(data_type, length)),
            PhysicalType::Primitive(PrimitiveType::Int64) => Array::Int64(PrimitiveArray::new_null(data_type, length)),
            PhysicalType::Primitive(PrimitiveType::UInt8) => Array::UInt8(PrimitiveArray::new_null(data_type, length)),
            PhysicalType::Primitive(PrimitiveType::UInt16) => Array::UInt16(PrimitiveArray::new_null(data_type, length)),
            PhysicalType::Primitive(PrimitiveType::UInt32) => Array::UInt32(PrimitiveArray::new_null(data_type, length)),
            PhysicalType::Primitive(PrimitiveType::UInt64) => Array::UInt64(PrimitiveArray::new_null(data_type, length)),
            PhysicalType::Utf8 => Array::Utf8(Utf8Array::new_null(data_type, length)),
            PhysicalType::Union => Array::Union(UnionArray::new_null(data_type, length)),
        };
        r
    }

    /// An empty array of the given logical type.
    pub fn new_empty(data_type: DataType) -> (r: Array)
        ensures
            r.spec_data_type() == data_type,
            r.content().len() == 0,
        decreases data_type, 1int,
    {
        match data_type.to_physical_type() {
            PhysicalType::Null => Array::Null(NullArray::new_empty(data_type)),
            PhysicalType::Boolean => Array::Boolean(BooleanArray::new_empty(data_type)),
            PhysicalType::Primitive(PrimitiveType::Int8) => Array::Int8(PrimitiveArray::new_empty(data_type)),
            PhysicalType::Primitive(PrimitiveType::Int16) => Array::Int16(PrimitiveArray::new_empty(data_type)),
            PhysicalType::Primitive(PrimitiveType::Int32) => Array::Int32(PrimitiveArray::new_empty(data_type)),
            PhysicalType::Primitive(PrimitiveType::Int64) => Array::Int64(PrimitiveArray::new_empty(data_type)),
            PhysicalType::Primitive(PrimitiveType::UInt8) => Array::UInt8(PrimitiveArray::new_empty(data_type)),
            PhysicalType::Primitive(PrimitiveType::UInt16) => Array::UInt16(PrimitiveArray::new_empty(data_type)),
            PhysicalType::Primitive(PrimitiveType::UInt32) => Array::UInt32(PrimitiveArray::new_empty(data_type)),
            PhysicalType::Primitive(PrimitiveType::UInt64) => Array::UInt64(PrimitiveArray::new_empty(data_type)),
            PhysicalType::Utf8 => Array::Utf8(Utf8Array::new_empty(data_type)),
            PhysicalType::Union => Array::Union(UnionArray::new_empty(data_type)),
        }
    }
}

impl Clone for Array {
    fn clone(&self) -> (r: Array)
        ensures
            r.spec_data_type() == self.spec_data_type(),
            r.content() == self.content(),
    {
        match self {
            Array::Null(a) => Array::Null(a.clone()),
            Array::Boolean(a) => Array::Boolean(a.clone()),
            Array::Int8(a) => Array::Int8(a.clone()),
            Array::Int16(a) => Array::Int16(a.clone()),
            Array::Int32(a) => Array::Int32(a.clone()),
            Array::Int64(a) => Array::Int64(a.clone()),
            Array::UInt8(a) => Array::UInt8(a.clone()),
            Array::UInt16(a) => Array::UInt16(a.clone()),
            Array::UInt32(a) => Array::UInt32(a.clone()),
            Array::UInt64(a) => Array::UInt64(a.clone()),
            Array::Utf8(a) => Array::Utf8(a.clone()),
            Array::Union(a) => Array::Union(a.clone()),
        }
    }
}

/// Selecting primitive slots selects their content.
pub proof fn lemma_int_content_select<T: NativeType>(s: Seq<Option<T>>, m: Seq<bool>)
    requires
        s.len() <= m.len(),
    ensures
        int_content(select(s, m)) == select(int_content(s), m),
{
    lemma_select_index(s, m);
    lemma_select_index(int_content(s), m);
    lemma_select_pointwise(int_content(s), m, int_content(select(s, m)));
}

/// Selecting boolean slots selects their content.
pub proof fn lemma_bool_content_select(s: Seq<Option<bool>>, m: Seq<bool>)
    requires
        s.len() <= m.len(),
    ensures
        bool_content(select(s, m)) == select(bool_content(s), m),
{
    lemma_select_index(s, m);
    lemma_select_index(bool_content(s), m);
    lemma_select_pointwise(bool_content(s), m, bool_content(select(s, m)));
}

/// Selecting string slots selects their content.
pub proof fn lemma_utf8_content_select(s: Seq<Option<Seq<u8>>>, m: Seq<bool>)
    requires
        s.len() <= m.len(),
    ensures
        utf8_content(select(s, m)) == select(utf8_content(s), m),
{
    lemma_select_index(s, m);
    lemma_select_index(utf8_content(s), m);
    lemma_select_pointwise(utf8_content(s), m, utf8_content(select(s, m)));
}

/// A window of `length` slots from `offset` has `length` slots, and its window from 0
/// of the same length reads, slot by slot, what the array holds from `offset` on.
pub proof fn lemma_slice_reads(array: Array, offset: int, length: int, sliced: Array, again: Array)
    requires
        0 <= offset,
        0 <= length,
        offset + length <= array.content().len(),
        sliced.content() == array.content().subrange(offset, offset + length),
        again.content() == sliced.content().subrange(0, length),
    ensures
        sliced.content().len() == length,
        again.content().len() == length,
        forall|i: int| 0 <= i < length ==> #[trigger] again.content()[i] == array.content()[offset + i],
{
}

impl Array {
    /// This array with its validity bitmap replaced (not merged). Null and union arrays
    /// have no validity of their own, and the bitmap must have one bit per slot.
    pub fn with_validity(&self, validity: Option<Bitmap>) -> (r: Array)
        requires
            !(self is Null),
            !(self is Union),
            validity_fits(validity, self.content().len() as int),
        ensures
            r.spec_data_type() == self.spec_data_type(),
            r.validity_view() == validity,
            r.content().len() == self.content().len(),
    {
        match self {
            Array::Boolean(a) => Array::Boolean(a.with_validity(validity)),
            Array::Int8(a) => Array::Int8(a.with_validity(validity)),
            Array::Int16(a) => Array::Int16(a.with_validity(validity)),
            Array::Int32(a) => Array::Int32(a.with_validity(validity)),
            Array::Int64(a) => Array::Int64(a.with_validity(validity)),
            Array::UInt8(a) => Array::UInt8(a.with_validity(validity)),
            Array::UInt16(a) => Array::UInt16(a.with_validity(validity)),
            Array::UInt32(a) => Array::UInt32(a.with_validity(validity)),
            Array::UInt64(a) => Array::UInt64(a.with_validity(validity)),
            Array::Utf8(a) => Array::Utf8(a.with_validity(validity)),
            _ => unreached(),
        }
    }
}

} // verus!
