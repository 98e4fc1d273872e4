use vstd::prelude::*;
use vstd::string::StringSliceAdditionalSpecFns;

use crate::bitmap::{clone_validity, slice_validity, valid_at, validity_fits, Bitmap};
use crate::buffer::Buffer;
use crate::datatypes::{physical_of, DataType, PhysicalType};

verus! {

/// The total number of UTF-8 bytes of the given strings.
pub open spec fn total_bytes(ss: Seq<&str>) -> int
    decreases ss.len(),
{
    if ss.len() == 0 {
        0
    } else {
        total_bytes(ss.drop_last()) + ss.last().spec_bytes().len()
    }
}

/// Offsets that delimit `n` slots of a byte buffer of length `values_len`: `n + 1` of
/// them, starting at zero or more, never decreasing, and ending within the buffer.
pub open spec fn offsets_delimit(offsets: Seq<i32>, n: int, values_len: int) -> bool {
    &&& 0 <= n
    &&& offsets.len() == n + 1
    &&& 0 <= offsets[0]
    &&& forall|i: int, j: int| 0 <= i <= j <= n ==> offsets[i] <= offsets[j]
    &&& offsets[n] <= values_len
}

/// An array of UTF-8 strings with optional nulls: slot `i` holds the bytes from
/// `offsets[i]` to `offsets[i + 1]` of a shared byte buffer.
#[derive(Debug)]
pub struct Utf8Array {
    data_type: DataType,
    offsets: Buffer<i32>,
    values: Buffer<u8>,
    validity: Option<Bitmap>,
}

impl Utf8Array {
    /// The logical type resolves to the UTF-8 layout, the offsets delimit the slots, and
    /// the validity covers every slot.
    #[verifier::type_invariant]
    spec fn inv(self) -> bool {
        &&& physical_of(self.data_type) == PhysicalType::Utf8
        &&& offsets_delimit(self.offsets@, self.offsets@.len() - 1, self.values@.len() as int)
        &&& validity_fits(self.validity, self.offsets@.len() - 1)
    }

    /// The logical type.
    pub closed spec fn spec_data_type(&self) -> DataType {
        self.data_type
    }

    /// The offsets, one more than the slots.
    pub closed spec fn spec_offsets(&self) -> Seq<i32> {
        self.offsets@
    }

    /// The bytes that the offsets point into.
    pub closed spec fn spec_bytes(&self) -> Seq<u8> {
        self.values@
    }

    /// The validity bitmap, if any.
    pub closed spec fn spec_validity(&self) -> Option<Bitmap> {
        self.validity
    }

    /// The number of slots.
    pub open spec fn spec_len(&self) -> int {
        self.spec_offsets().len() - 1
    }

    /// The bytes of slot `i`, whether null or not.
    pub open spec fn bytes_at(&self, i: int) -> Seq<u8> {
        self.spec_bytes().subrange(self.spec_offsets()[i] as int, self.spec_offsets()[i + 1] as int)
    }

    /// The slots: `None` where null, else the bytes of the string.
    pub open spec fn slots(&self) -> Seq<Option<Seq<u8>>> {
        Seq::new(
            self.spec_len() as nat,
            |i: int|
                if valid_at(self.spec_validity(), i) {
                    Some(self.bytes_at(i))
                } else {
                    None
                },
        )
    }

    /// An array from its parts. The logical type must resolve to the UTF-8 layout, the
    /// offsets must delimit the slots within `values`, and a validity bitmap must have one
    /// bit per slot. The bytes are taken to be UTF-8.
    pub fn from_data(
        data_type: DataType,
        offsets: Buffer<i32>,
        values: Buffer<u8>,
        validity: Option<Bitmap>,
    ) -> (r: Self)
        requires
            physical_of(data_type) == PhysicalType::Utf8,
            offsets_delimit(offsets@, offsets@.len() - 1, values@.len() as int),
            validity_fits(validity, offsets@.len() - 1),
        ensures
            r.spec_data_type() == data_type,
            r.spec_offsets() == offsets@,
            r.spec_bytes() == values@,
            r.spec_validity() == validity,
    {
        Utf8Array { data_type, offsets, values, validity }
    }

    /// An array of the given strings, none null. Their bytes must fit 32-bit offsets.
    pub fn from_slice(strings: &[&str]) -> (r: Self)
        requires
            total_bytes(strings@) <= i32::MAX,
        ensures
            r.spec_data_type() == DataType::Utf8,
            r.slots().len() == strings@.len(),
            forall|i: int|
                0 <= i < strings@.len() ==> #[trigger] r.slots()[i] == Some(strings@[i].spec_bytes()),
    {
        let mut offsets: Vec<i32> = Vec::new();
        let mut bytes: Vec<u8> = Vec::new();
        offsets.push(0);
        let mut i: usize = 0;
        while i < strings.len()
            invariant
                i <= strings@.len(),
                total_bytes(strings@) <= i32::MAX,
                offsets@.len() == i + 1,
                bytes@.len() == total_bytes(strings@.take(i as int)),
                offsets_delimit(offsets@, i as int, bytes@.len() as int),
                offsets@[i as int] == bytes@.len(),
                forall|k: int|
                    0 <= k < i ==> #[trigger] bytes@.subrange(offsets@[k] as int, offsets@[k + 1] as int)
                        == strings@[k].spec_bytes(),
            decreases strings@.len() - i,
        {
            proof {
                assert(strings@.take(i + 1).drop_last() =~= strings@.take(i as int));
                lemma_total_bytes_prefix(strings@, i + 1);
            }
            let s: &[u8] = strings[i].as_bytes();
            let ghost before = bytes@;
            let mut k: usize = 0;
            while k < s.len()
                invariant
                    k <= s@.len(),
                    bytes@ == before + s@.take(k as int),
                    before.len() + s@.len() <= i32::MAX,
                decreases s@.len() - k,
            {
                bytes.push(s[k]);
                assert(s@.take(k + 1) =~= s@.take(k as int).push(s@[k as int]));
                k = k + 1;
            }
            assert(s@.take(k as int) =~= s@);
            let ghost old_offsets = offsets@;
            offsets.push(bytes.len() as i32);
            assert forall|k2: int| 0 <= k2 < i + 1 implies #[trigger] bytes@.subrange(
                offsets@[k2] as int,
                offsets@[k2 + 1] as int,
            ) == strings@[k2].spec_bytes() by {
                if k2 < i {
                    assert(bytes@.subrange(offsets@[k2] as int, offsets@[k2 + 1] as int) =~= before.subrange(
                        offsets@[k2] as int,
                        offsets@[k2 + 1] as int,
                    ));
                } else {
                    assert(bytes@.subrange(offsets@[k2] as int, offsets@[k2 + 1] as int) =~= s@);
                }
            }
            i = i + 1;
        }
        let r = Utf8Array {
            data_type: DataType::Utf8,
            offsets: Buffer::from_vec(offsets),
            values: Buffer::from_vec(bytes),
            validity: None,
        };
        r
    }

    /// An empty array of the given logical type.
    pub fn new_empty(data_type: DataType) -> (r: Self)
        requires
            physical_of(data_type) == PhysicalType::Utf8,
        ensures
            r.spec_data_type() == data_type,
            r.slots().len() == 0,
    {
        let mut offsets: Vec<i32> = Vec::new();
        offsets.push(0);
        Utf8Array {
            data_type,
            offsets: Buffer::from_vec(offsets),
            values: Buffer::new(),
            validity: None,
        }
    }

    /// An array of `length` null slots.
    pub fn new_null(data_type: DataType, length: usize) -> (r: Self)
        requires
            physical_of(data_type) == PhysicalType::Utf8,
            length < usize::MAX,
        ensures
            r.spec_data_type() == data_type,
            r.slots().len() == length,
            forall|i: int| 0 <= i < length ==> #[trigger] r.slots()[i] is None,
            r.spec_validity() is Some,
            r.spec_validity()->Some_0@.len() == length,
            forall|i: int| 0 <= i < length ==> !#[trigger] r.spec_validity()->Some_0@[i],
    {
        let mut offsets: Vec<i32> = Vec::with_capacity(length + 1);
        let mut i: usize = 0;
        while i <= length
            invariant
                i <= length + 1,
                length < usize::MAX,
                offsets@.len() == i,
                forall|k: int| 0 <= k < i ==> offsets@[k] == 0,
            decreases length + 1 - i,
        {
            offsets.push(0);
            i = i + 1;
        }
        Utf8Array {
            data_type,
            offsets: Buffer::from_vec(offsets),
            values: Buffer::new(),
            validity: Some(Bitmap::new_zeroed(length)),
        }
    }

    /// The number of slots.
    pub fn len(&self) -> (r: usize)
        ensures
            r == self.slots().len(),
    {
        proof {
            use_type_invariant(self);
        }
        self.offsets.len() - 1
    }

    /// The bytes of slot `i` (whatever it holds, also under a null slot), sharing the
    /// storage of `self`.
    pub fn value(&self, i: usize) -> (r: Buffer<u8>)
        requires
            i < self.slots().len(),
        ensures
            r@ == self.bytes_at(i as int),
    {
        proof {
            use_type_invariant(self);
        }
        let n = self.offsets.len();
        assert(i + 1 < n);
        let start = self.offsets.get(i) as usize;
        let end = self.offsets.get(i + 1) as usize;
        self.values.slice_unchecked(start, end - start)
    }

    /// Whether slot `i` is not null.
    pub fn is_valid(&self, i: usize) -> (r: bool)
        requires
            i < self.slots().len(),
        ensures
            r == self.slots()[i as int] is Some,
    {
        proof {
            use_type_invariant(self);
        }
        match &self.validity {
            Some(v) => v.get_bit(i),
            None => true,
        }
    }

    /// The offsets.
    pub fn offsets(&self) -> (r: &Buffer<i32>)
        ensures
            r@ == self.spec_offsets(),
            offsets_delimit(self.spec_offsets(), self.spec_len(), self.spec_bytes().len() as int),
    {
        proof {
            use_type_invariant(self);
        }
        &self.offsets
    }

    /// The bytes that the offsets point into.
    pub fn values(&self) -> (r: &Buffer<u8>)
        ensures
            r@ == self.spec_bytes(),
    {
        &self.values
    }

    /// The validity bitmap, if any.
    pub fn validity(&self) -> (r: Option<&Bitmap>)
        ensures
            r is Some <==> self.spec_validity() is Some,
            r matches Some(v) ==> *v == self.spec_validity()->Some_0,
            validity_fits(self.spec_validity(), self.spec_len()),
    {
        proof {
            use_type_invariant(self);
        }
        self.validity.as_ref()
    }

    /// The logical type.
    pub fn data_type(&self) -> (r: &DataType)
        ensures
            *r == self.spec_data_type(),
            physical_of(*r) == PhysicalType::Utf8,
    {
        proof {
            use_type_invariant(self);
        }
        &self.data_type
    }

    /// The window of `length` slots from `offset`. It shares the storage of `self`.
    pub fn slice(&self, offset: usize, length: usize) -> (r: Self)
        requires
            offset + length <= self.slots().len(),
        ensures
            r.spec_data_type() == self.spec_data_type(),
            r.slots() == self.slots().subrange(offset as int, offset + length),
            r.spec_validity() is Some <==> self.spec_validity() is Some,
            r.spec_validity() matches Some(v) ==> v@ == self.spec_validity()->Some_0@.subrange(
                offset as int,
                offset + length,
            ),
    {
        proof {
            use_type_invariant(self);
        }
        let n = self.offsets.len();
        assert(offset + length + 1 <= n);
        let offsets = self.offsets.slice_unchecked(offset, length + 1);
        assert(offsets_delimit(offsets@, length as int, self.values@.len() as int)) by {
            assert(offsets@[0] == self.offsets@[offset as int]);
            assert forall|i: int, j: int| 0 <= i <= j <= length implies offsets@[i] <= offsets@[j] by {
                assert(offsets@[i] == self.offsets@[offset + i]);
                assert(offsets@[j] == self.offsets@[offset + j]);
            }
            assert(offsets@[length as int] == self.offsets@[offset + length]);
        }
        let r = Utf8Array {
            data_type: self.data_type.clone(),
            offsets,
            values: self.values.clone(),
            validity: slice_validity(&self.validity, offset, length),
        };
        assert(r.slots() =~= self.slots().subrange(offset as int, offset + length));
        r
    }

    /// This array with its validity bitmap replaced (not merged).
    /// The bitmap must have one bit per slot.
    pub fn with_validity(&self, validity: Option<Bitmap>) -> (r: Self)
        requires
            validity_fits(validity, self.slots().len() as int),
        ensures
            r.spec_data_type() == self.spec_data_type(),
            r.spec_offsets() == self.spec_offsets(),
            r.spec_bytes() == self.spec_bytes(),
            r.spec_validity() == validity,
    {
        proof {
            use_type_invariant(self);
        }
        Utf8Array {
            data_type: self.data_type.clone(),
            offsets: self.offsets.clone(),
            values: self.values.clone(),
            validity,
        }
    }
}

impl Clone for Utf8Array {
    fn clone(&self) -> (r: Self)
        ensures
            r.spec_data_type() == self.spec_data_type(),
            r.slots() == self.slots(),
    {
        proof {
            use_type_invariant(self);
        }
        let r = Utf8Array {
            data_type: self.data_type.clone(),
            offsets: self.offsets.clone(),
            values: self.values.clone(),
            validity: clone_validity(&self.validity),
        };
        assert(r.slots() =~= self.slots());
        r
    }
}

/// The bytes of a prefix of strings are no more than those of all of them.
pub proof fn lemma_total_bytes_prefix(ss: Seq<&str>, n: int)
    requires
        0 <= n <= ss.len(),
    ensures
        total_bytes(ss.take(n)) <= total_bytes(ss),
    decreases ss.len() - n,
{
    if n < ss.len() {
        lemma_total_bytes_prefix(ss, n + 1);
        assert(ss.take(n + 1).drop_last() =~= ss.take(n));
    } else {
        assert(ss.take(n) =~= ss);
    }
}

} // verus!
