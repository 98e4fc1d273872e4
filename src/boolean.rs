use vstd::prelude::*;

use crate::bitmap::{clone_validity, slice_validity, valid_at, validity_fits, Bitmap};
use crate::datatypes::{physical_of, DataType, PhysicalType};

verus! {

/// An array of booleans with optional nulls, one bit per value. Cloning and slicing
/// share the bits.
#[derive(Debug)]
pub struct BooleanArray {
    data_type: DataType,
    values: Bitmap,
    validity: Option<Bitmap>,
}

impl BooleanArray {
    /// The logical type resolves to the boolean layout, and the validity covers every slot.
    #[verifier::type_invariant]
    spec fn inv(self) -> bool {
        &&& physical_of(self.data_type) == PhysicalType::Boolean
        &&& validity_fits(self.validity, self.values@.len() as int)
    }

    /// The logical type.
    pub closed spec fn spec_data_type(&self) -> DataType {
        self.data_type
    }

    /// The values, including those under null slots.
    pub closed spec fn spec_values(&self) -> Seq<bool> {
        self.values@
    }

    /// The validity bitmap, if any.
    pub closed spec fn spec_validity(&self) -> Option<Bitmap> {
        self.validity
    }

    /// The slots: `None` where null, else the value.
    pub open spec fn slots(&self) -> Seq<Option<bool>> {
        Seq::new(
            self.spec_values().len(),
            |i: int|
                if valid_at(self.spec_validity(), i) {
                    Some(self.spec_values()[i])
                } else {
                    None
                },
        )
    }

    /// Whether slot `i` holds `true`: not null, and set. This is how a mask selects.
    pub open spec fn selects(&self, i: int) -> bool {
        valid_at(self.spec_validity(), i) && self.spec_values()[i]
    }

    /// The selection that this array makes as a mask, slot by slot.
    pub open spec fn selection(&self) -> Seq<bool> {
        Seq::new(self.spec_values().len(), |i: int| self.selects(i))
    }

    /// An array from its parts.
    /// The logical type must resolve to the boolean layout, and a validity bitmap must
    /// have one bit per value.
    pub fn from_data(data_type: DataType, values: Bitmap, validity: Option<Bitmap>) -> (r: Self)
        requires
            physical_of(data_type) == PhysicalType::Boolean,
            validity_fits(validity, values@.len() as int),
        ensures
            r.spec_data_type() == data_type,
            r.spec_values() == values@,
            r.spec_validity() == validity,
    {
        BooleanArray { data_type, values, validity }
    }

    /// An array of the given values, none null.
    pub fn from_slice(values: &[bool]) -> (r: Self)
        ensures
            r.spec_data_type() == DataType::Boolean,
            r.spec_values() == values@,
            r.spec_validity() is None,
    {
        BooleanArray { data_type: DataType::Boolean, values: Bitmap::from_bools(values), validity: None }
    }

    /// An empty array of the given logical type.
    pub fn new_empty(data_type: DataType) -> (r: Self)
        requires
            physical_of(data_type) == PhysicalType::Boolean,
        ensures
            r.spec_data_type() == data_type,
            r.slots().len() == 0,
    {
        Self::from_data(data_type, Bitmap::new(), None)
    }

    /// An array of `length` null slots.
    pub fn new_null(data_type: DataType, length: usize) -> (r: Self)
        requires
            physical_of(data_type) == PhysicalType::Boolean,
        ensures
            r.spec_data_type() == data_type,
            r.slots().len() == length,
            forall|i: int| 0 <= i < length ==> #[trigger] r.slots()[i] is None,
            r.spec_validity() is Some,
            r.spec_validity()->Some_0@.len() == length,
            forall|i: int| 0 <= i < length ==> !#[trigger] r.spec_validity()->Some_0@[i],
    {
        let bitmap = Bitmap::new_zeroed(length);
        Self::from_data(data_type, bitmap.clone(), Some(bitmap))
    }

    /// The number of slots.
    pub fn len(&self) -> (r: usize)
        ensures
            r == self.slots().len(),
    {
        self.values.len()
    }

    /// The value at slot `i` (whatever it holds, also under a null slot).
    pub fn value(&self, i: usize) -> (r: bool)
        requires
            i < self.slots().len(),
        ensures
            r == self.spec_values()[i as int],
    {
        self.values.get_bit(i)
    }

    /// Whether slot `i` is not null.
    pub fn is_valid(&self, i: usize) -> (r: bool)
        requires
            i < self.slots().len(),
        ensures
            r == self.slots()[i as int] is Some,
    {
        proof {
            use_type_invariant(self);
        }
        match &self.validity {
            Some(v) => v.get_bit(i),
            None => true,
        }
    }

    /// The validity bitmap, if any.
    pub fn validity(&self) -> (r: Option<&Bitmap>)
        ensures
            r is Some <==> self.spec_validity() is Some,
            r matches Some(v) ==> *v == self.spec_validity()->Some_0,
            validity_fits(self.spec_validity(), self.spec_values().len() as int),
    {
        proof {
            use_type_invariant(self);
        }
        self.validity.as_ref()
    }

    /// The values.
    pub fn values(&self) -> (r: &Bitmap)
        ensures
            r@ == self.spec_values(),
    {
        &self.values
    }

    /// The logical type.
    pub fn data_type(&self) -> (r: &DataType)
        ensures
            *r == self.spec_data_type(),
            physical_of(*r) == PhysicalType::Boolean,
    {
        proof {
            use_type_invariant(self);
        }
        &self.data_type
    }

    /// The window of `length` slots from `offset`. It shares the bits of `self`.
    pub fn slice(&self, offset: usize, length: usize) -> (r: Self)
        requires
            offset + length <= self.slots().len(),
        ensures
            r.spec_data_type() == self.spec_data_type(),
            r.spec_values() == self.spec_values().subrange(offset as int, offset + length),
            r.slots() == self.slots().subrange(offset as int, offset + length),
            r.spec_validity() is Some <==> self.spec_validity() is Some,
            r.spec_validity() matches Some(v) ==> v@ == self.spec_validity()->Some_0@.subrange(
                offset as int,
                offset + length,
            ),
    {
        proof {
            use_type_invariant(self);
        }
        let r = BooleanArray {
            data_type: self.data_type.clone(),
            values: self.values.slice_unchecked(offset, length),
            validity: slice_validity(&self.validity, offset, length),
        };
        assert(r.slots() =~= self.slots().subrange(offset as int, offset + length));
        r
    }

    /// This array with its validity bitmap replaced (not merged).
    /// The bitmap must have one bit per slot.
    pub fn with_validity(&self, validity: Option<Bitmap>) -> (r: Self)
        requires
            validity_fits(validity, self.slots().len() as int),
        ensures
            r.spec_data_type() == self.spec_data_type(),
            r.spec_values() == self.spec_values(),
            r.spec_validity() == validity,
    {
        proof {
            use_type_invariant(self);
        }
        BooleanArray { data_type: self.data_type.clone(), values: self.values.clone(), validity }
    }
}

impl Clone for BooleanArray {
    fn clone(&self) -> (r: Self)
        ensures
            r.spec_data_type() == self.spec_data_type(),
            r.spec_values() == self.spec_values(),
            r.slots() == self.slots(),
    {
        proof {
            use_type_invariant(self);
        }
        let r = BooleanArray {
            data_type: self.data_type.clone(),
            values: self.values.clone(),
            validity: clone_validity(&self.validity),
        };
        assert(r.slots() =~= self.slots());
        r
    }
}

} // verus!
