use vstd::prelude::*;

use crate::bitmap::{clone_validity, slice_validity, valid_at, validity_fits, Bitmap};
use crate::buffer::Buffer;
use crate::datatypes::{physical_of, DataType, PhysicalType};
use crate::native::NativeType;

verus! {

/// An array of fixed-width integers with optional nulls. Cloning and slicing share the
/// storage.
#[derive(Debug)]
pub struct PrimitiveArray<T: NativeType> {
    data_type: DataType,
    values: Buffer<T>,
    validity: Option<Bitmap>,
}

impl<T: NativeType> PrimitiveArray<T> {
    /// The logical type resolves to this array's layout, and the validity covers every slot.
    #[verifier::type_invariant]
    spec fn inv(self) -> bool {
        &&& physical_of(self.data_type) == PhysicalType::Primitive(T::spec_primitive())
        &&& validity_fits(self.validity, self.values@.len() as int)
    }

    /// The logical type.
    pub closed spec fn spec_data_type(&self) -> DataType {
        self.data_type
    }

    /// The values, including those under null slots.
    pub closed spec fn spec_values(&self) -> Seq<T> {
        self.values@
    }

    /// The validity bitmap, if any.
    pub closed spec fn spec_validity(&self) -> Option<Bitmap> {
        self.validity
    }

    /// The slots: `None` where null, else the value.
    pub open spec fn slots(&self) -> Seq<Option<T>> {
        Seq::new(
            self.spec_values().len(),
            |i: int|
                if valid_at(self.spec_validity(), i) {
                    Some(self.spec_values()[i])
                } else {
                    None
                },
        )
    }

    /// An array from its parts.
    /// The logical type must resolve to this primitive layout, and a validity bitmap must
    /// have one bit per value.
    pub fn from_data(data_type: DataType, values: Buffer<T>, validity: Option<Bitmap>) -> (r: Self)
        requires
            physical_of(data_type) == PhysicalType::Primitive(T::spec_primitive()),
            validity_fits(validity, values@.len() as int),
        ensures
            r.spec_data_type() == data_type,
            r.spec_values() == values@,
            r.spec_validity() == validity,
    {
        PrimitiveArray { data_type, values, validity }
    }

    /// An array of the given values, none null, with the canonical logical type of `T`
    /// (`DataType::Int32` for `i32`, and so on).
    pub fn from_slice(values: &[T]) -> (r: Self)
        ensures
            r.spec_data_type() == T::spec_data_type(),
            physical_of(r.spec_data_type()) == PhysicalType::Primitive(T::spec_primitive()),
            r.spec_values() == values@,
            r.spec_validity() is None,
    {
        let mut v: Vec<T> = Vec::with_capacity(values.len());
        let mut i: usize = 0;
        while i < values.len()
            invariant
                i <= values@.len(),
                v@ == values@.take(i as int),
            decreases values@.len() - i,
        {
            v.push(values[i]);
            assert(values@.take(i + 1) =~= values@.take(i as int).push(values@[i as int]));
            i = i + 1;
        }
        assert(values@.take(i as int) =~= values@);
        PrimitiveArray { data_type: T::data_type(), values: Buffer::from_vec(v), validity: None }
    }

    /// An empty array of the given logical type.
    pub fn new_empty(data_type: DataType) -> (r: Self)
        requires
            physical_of(data_type) == PhysicalType::Primitive(T::spec_primitive()),
        ensures
            r.spec_data_type() == data_type,
            r.slots().len() == 0,
    {
        PrimitiveArray { data_type, values: Buffer::new(), validity: None }
    }

    /// An array of `length` null slots.
    pub fn new_null(data_type: DataType, length: usize) -> (r: Self)
        requires
            physical_of(data_type) == PhysicalType::Primitive(T::spec_primitive()),
        ensures
            r.spec_data_type() == data_type,
            r.slots().len() == length,
            forall|i: int| 0 <= i < length ==> #[trigger] r.slots()[i] is None,
            r.spec_validity() is Some,
            r.spec_validity()->Some_0@.len() == length,
            forall|i: int| 0 <= i < length ==> !#[trigger] r.spec_validity()->Some_0@[i],
    {
        let mut v: Vec<T> = Vec::with_capacity(length);
        let mut i: usize = 0;
        while i < length
            invariant
                i <= length,
                v@.len() == i,
            decreases length - i,
        {
            v.push(T::zero());
            i = i + 1;
        }
        PrimitiveArray {
            data_type,
            values: Buffer::from_vec(v),
            validity: Some(Bitmap::new_zeroed(length)),
        }
    }

    /// The number of slots.
    pub fn len(&self) -> (r: usize)
        ensures
            r == self.slots().len(),
    {
        self.values.len()
    }

    /// The value at slot `i` (whatever it holds, also under a null slot).
    pub fn value(&self, i: usize) -> (r: T)
        requires
            i < self.slots().len(),
        ensures
            r == self.spec_values()[i as int],
    {
        self.values.get(i)
    }

    /// Whether slot `i` is not null.
    pub fn is_valid(&self, i: usize) -> (r: bool)
        requires
            i < self.slots().len(),
        ensures
            r == self.slots()[i as int] is Some,
    {
        proof {
            use_type_invariant(self);
        }
        match &self.validity {
            Some(v) => v.get_bit(i),
            None => true,
        }
    }

    /// The values.
    pub fn values(&self) -> (r: &Buffer<T>)
        ensures
            r@ == self.spec_values(),
    {
        &self.values
    }

    /// The validity bitmap, if any.
    pub fn validity(&self) -> (r: Option<&Bitmap>)
        ensures
            r is Some <==> self.spec_validity() is Some,
            r matches Some(v) ==> *v == self.spec_validity()->Some_0,
            validity_fits(self.spec_validity(), self.spec_values().len() as int),
    {
        proof {
            use_type_invariant(self);
        }
        self.validity.as_ref()
    }

    /// The logical type.
    pub fn data_type(&self) -> (r: &DataType)
        ensures
            *r == self.spec_data_type(),
            physical_of(*r) == PhysicalType::Primitive(T::spec_primitive()),
    {
        proof {
            use_type_invariant(self);
        }
        &self.data_type
    }

    /// The window of `length` slots from `offset`. It shares the storage of `self`.
    pub fn slice(&self, offset: usize, length: usize) -> (r: Self)
        requires
            offset + length <= self.slots().len(),
        ensures
            r.spec_data_type() == self.spec_data_type(),
            r.spec_values() == self.spec_values().subrange(offset as int, offset + length),
            r.slots() == self.slots().subrange(offset as int, offset + length),
            r.spec_validity() is Some <==> self.spec_validity() is Some,
            r.spec_validity() matches Some(v) ==> v@ == self.spec_validity()->Some_0@.subrange(
                offset as int,
                offset + length,
            ),
    {
        proof {
            use_type_invariant(self);
        }
        let r = PrimitiveArray {
            data_type: self.data_type.clone(),
            values: self.values.slice_unchecked(offset, length),
            validity: slice_validity(&self.validity, offset, length),
        };
        assert(r.slots() =~= self.slots().subrange(offset as int, offset + length));
        r
    }

    /// This array with its validity bitmap replaced (not merged).
    /// The bitmap must have one bit per slot.
    pub fn with_validity(&self, validity: Option<Bitmap>) -> (r: Self)
        requires
            validity_fits(validity, self.slots().len() as int),
        ensures
            r.spec_data_type() == self.spec_data_type(),
            r.spec_values() == self.spec_values(),
            r.spec_validity() == validity,
    {
        proof {
            use_type_invariant(self);
        }
        PrimitiveArray { data_type: self.data_type.clone(), values: self.values.clone(), validity }
    }
}

impl<T: NativeType> Clone for PrimitiveArray<T> {
    fn clone(&self) -> (r: Self)
        ensures
            r.spec_data_type() == self.spec_data_type(),
            r.spec_values() == self.spec_values(),
            r.slots() == self.slots(),
    {
        proof {
            use_type_invariant(self);
        }
        let r = PrimitiveArray {
            data_type: self.data_type.clone(),
            values: self.values.clone(),
            validity: clone_validity(&self.validity),
        };
        assert(r.slots() =~= self.slots());
        r
    }
}

} // verus!
