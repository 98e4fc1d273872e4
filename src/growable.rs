//! Builders that assemble an array from runs of slots of source arrays of one layout:
//! one for primitive, boolean and UTF-8 arrays. Null and union arrays have none. A null
//! array holds only its length, so the filter counts the selected slots directly. A union
//! array is filtered by selecting its type ids and offsets (dense mode), or its type ids
//! and the same window of each member field (sparse mode); see `UnionArray::filter_window`.

use vstd::prelude::*;

use crate::bitmap::MutableBitmap;
use crate::boolean::BooleanArray;
use crate::buffer::Buffer;
use crate::datatypes::{physical_of, DataType, PhysicalType};
use crate::native::NativeType;
use crate::primitive::PrimitiveArray;
use crate::utf8::{offsets_delimit, Utf8Array};

verus! {

/// Builds a primitive array by appending runs of slots taken from source arrays.
pub struct GrowablePrimitive<'a, T: NativeType> {
    data_type: DataType,
    arrays: Vec<&'a PrimitiveArray<T>>,
    values: Vec<T>,
    /// Whether the output tracks validity; `validity` is filled only then.
    use_validity: bool,
    validity: MutableBitmap,
}

impl<'a, T: NativeType> GrowablePrimitive<'a, T> {
    /// The sources.
    pub closed spec fn spec_arrays(&self) -> Seq<&'a PrimitiveArray<T>> {
        self.arrays@
    }

    /// The logical type of the output.
    pub closed spec fn spec_data_type(&self) -> DataType {
        self.data_type
    }

    /// The slots appended so far.
    pub closed spec fn slots(&self) -> Seq<Option<T>> {
        Seq::new(
            self.values@.len(),
            |i: int|
                if self.use_validity && !self.validity@[i] {
                    None
                } else {
                    Some(self.values@[i])
                },
        )
    }

    /// The accumulated values and validity agree in length when validity is tracked, and
    /// when it is not, no source has nulls.
    pub closed spec fn wf(&self) -> bool {
        &&& physical_of(self.data_type) == PhysicalType::Primitive(T::spec_primitive())
        &&& self.validity.wf()
        &&& self.use_validity ==> self.validity@.len() == self.values@.len()
        &&& !self.use_validity ==> forall|k: int|
            0 <= k < self.arrays@.len() ==> (#[trigger] self.arrays@[k]).spec_validity() is None
    }

    /// A builder over `arrays` (at least one), whose output takes the first array's
    /// logical type. Validity is tracked when `use_validity` is set or a source has a
    /// validity bitmap; `capacity` is the expected number of output slots.
    pub fn new(arrays: Vec<&'a PrimitiveArray<T>>, use_validity: bool, capacity: usize) -> (r: Self)
        requires
            arrays@.len() > 0,
        ensures
            r.wf(),
            r.spec_arrays() == arrays@,
            r.spec_data_type() == arrays@[0].spec_data_type(),
            r.slots().len() == 0,
    {
        let mut track = use_validity;
        let mut k: usize = 0;
        while k < arrays.len()
            invariant
                k <= arrays@.len(),
                !track ==> forall|j: int| 0 <= j < k ==> (#[trigger] arrays@[j]).spec_validity() is None,
            decreases arrays@.len() - k,
        {
            if arrays[k].validity().is_some() {
                track = true;
            }
            k = k + 1;
        }
        let validity = MutableBitmap::with_capacity(if track {
            capacity
        } else {
            0
        });
        let data_type = arrays[0].data_type().clone();
        let r = GrowablePrimitive {
            data_type,
            arrays,
            values: Vec::with_capacity(capacity),
            use_validity: track,
            validity,
        };
        assert(r.slots() =~= Seq::<Option<T>>::empty());
        r
    }

    /// Appends slots `start .. start + len` of source `index`.
    pub fn extend(&mut self, index: usize, start: usize, len: usize)
        requires
            old(self).wf(),
            index < old(self).spec_arrays().len(),
            start + len <= old(self).spec_arrays()[index as int].slots().len(),
            old(self).slots().len() + len <= usize::MAX,
        ensures
            final(self).wf(),
            final(self).spec_arrays() == old(self).spec_arrays(),
            final(self).spec_data_type() == old(self).spec_data_type(),
            final(self).slots() == old(self).slots() + old(self).spec_arrays()[index as int].slots().subrange(
                start as int,
                start + len,
            ),
    {
        let array: &PrimitiveArray<T> = self.arrays[index];
        let ghost src = array.slots();
        let ghost before = self.slots();
        let n = array.len();
        let mut k: usize = 0;
        while k < len
            invariant
                self.wf(),
                n == src.len(),
                self.arrays@ == old(self).arrays@,
                self.data_type == old(self).data_type,
                index < self.arrays@.len(),
                array == self.arrays@[index as int],
                src == array.slots(),
                k <= len,
                start + len <= src.len(),
                before.len() + len <= usize::MAX,
                self.slots() == before + src.subrange(start as int, start + k),
            decreases len - k,
        {
            let i = start + k;
            let ghost prev = self.slots();
            let ghost prev_validity = self.validity@;
            let valid = array.is_valid(i);
            assert(self.values@.len() == before.len() + k) by {
                assert(self.slots().len() == self.values@.len());
            }
            if self.use_validity {
                self.validity.push(valid);
            } else {
                assert(self.arrays@[index as int].spec_validity() is None);
            }
            self.values.push(array.value(i));
            assert(self.slots()[before.len() + k] == src[i as int]);
            assert forall|j: int| 0 <= j < prev.len() implies self.slots()[j] == prev[j] by {
                if self.use_validity {
                    assert(self.validity@[j] == prev_validity[j]);
                }
            }
            assert(self.slots() =~= prev.push(src[i as int]));
            assert(src.subrange(start as int, start + k + 1) =~= src.subrange(start as int, start + k).push(
                src[i as int],
            ));
            assert(self.slots() =~= before + src.subrange(start as int, start + k + 1));
            k = k + 1;
        }
    }

    /// The array built so far.
    pub fn into_array(self) -> (r: PrimitiveArray<T>)
        requires
            self.wf(),
            self.spec_arrays().len() > 0,
        ensures
            r.spec_data_type() == self.spec_data_type(),
            r.slots() == self.slots(),
    {
        let ghost slots = self.slots();
        let data_type = self.data_type;
        let validity = if self.use_validity {
            Some(self.validity.into_bitmap())
        } else {
            None
        };
        let r = PrimitiveArray::from_data(data_type, Buffer::from_vec(self.values), validity);
        assert(r.slots() =~= slots);
        r
    }
}

/// Builds a boolean array by appending runs of slots taken from source arrays.
pub struct GrowableBoolean<'a> {
    data_type: DataType,
    arrays: Vec<&'a BooleanArray>,
    values: MutableBitmap,
    /// Whether the output tracks validity; `validity` is filled only then.
    use_validity: bool,
    validity: MutableBitmap,
}

impl<'a> GrowableBoolean<'a> {
    /// The sources.
    pub closed spec fn spec_arrays(&self) -> Seq<&'a BooleanArray> {
        self.arrays@
    }

    /// The logical type of the output.
    pub closed spec fn spec_data_type(&self) -> DataType {
        self.data_type
    }

    /// The slots appended so far.
    pub closed spec fn slots(&self) -> Seq<Option<bool>> {
        Seq::new(
            self.values@.len(),
            |i: int|
                if self.use_validity && !self.validity@[i] {
                    None
                } else {
                    Some(self.values@[i])
                },
        )
    }

    /// The accumulated values and validity agree in length when validity is tracked, and
    /// when it is not, no source has nulls.
    pub closed spec fn wf(&self) -> bool {
        &&& physical_of(self.data_type) == PhysicalType::Boolean
        &&& self.values.wf()
        &&& self.validity.wf()
        &&& self.use_validity ==> self.validity@.len() == self.values@.len()
        &&& !self.use_validity ==> forall|k: int|
            0 <= k < self.arrays@.len() ==> (#[trigger] self.arrays@[k]).spec_validity() is None
    }

    /// A builder over `arrays` (at least one), whose output takes the first array's
    /// logical type. Validity is tracked when `use_validity` is set or a source has a
    /// validity bitmap; `capacity` is the expected number of output slots.
    pub fn new(arrays: Vec<&'a BooleanArray>, use_validity: bool, capacity: usize) -> (r: Self)
        requires
            arrays@.len() > 0,
        ensures
            r.wf(),
            r.spec_arrays() == arrays@,
            r.spec_data_type() == arrays@[0].spec_data_type(),
            r.slots().len() == 0,
    {
        let mut track = use_validity;
        let mut k: usize = 0;
        while k < arrays.len()
            invariant
                k <= arrays@.len(),
                !track ==> forall|j: int| 0 <= j < k ==> (#[trigger] arrays@[j]).spec_validity() is None,
            decreases arrays@.len() - k,
        {
            if arrays[k].validity().is_some() {
                track = true;
            }
            k = k + 1;
        }
        let validity = MutableBitmap::with_capacity(if track {
            capacity
        } else {
            0
        });
        let data_type = arrays[0].data_type().clone();
        let r = GrowableBoolean {
            data_type,
            arrays,
            values: MutableBitmap::with_capacity(capacity),
            use_validity: track,
            validity,
        };
        assert(r.slots() =~= Seq::<Option<bool>>::empty());
        r
    }

    /// Appends slots `start .. start + len` of source `index`.
    pub fn extend(&mut self, index: usize, start: usize, len: usize)
        requires
            old(self).wf(),
            index < old(self).spec_arrays().len(),
            start + len <= old(self).spec_arrays()[index as int].slots().len(),
            old(self).slots().len() + len <= usize::MAX,
        ensures
            final(self).wf(),
            final(self).spec_arrays() == old(self).spec_arrays(),
            final(self).spec_data_type() == old(self).spec_data_type(),
            final(self).slots() == old(self).slots() + old(self).spec_arrays()[index as int].slots().subrange(
                start as int,
                start + len,
            ),
    {
        let array: &BooleanArray = self.arrays[index];
        let ghost src = array.slots();
        let ghost before = self.slots();
        let n = array.len();
        let mut k: usize = 0;
        while k < len
            invariant
                self.wf(),
                n == src.len(),
                self.arrays@ == old(self).arrays@,
                self.data_type == old(self).data_type,
                index < self.arrays@.len(),
                array == self.arrays@[index as int],
                src == array.slots(),
                k <= len,
                start + len <= src.len(),
                before.len() + len <= usize::MAX,
                self.slots() == before + src.subrange(start as int, start + k),
            decreases len - k,
        {
            let i = start + k;
            let ghost prev = self.slots();
            let ghost prev_validity = self.validity@;
            let valid = array.is_valid(i);
            assert(self.values@.len() == before.len() + k) by {
                assert(self.slots().len() == self.values@.len());
            }
            if self.use_validity {
                self.validity.push(valid);
            } else {
                assert(self.arrays@[index as int].spec_validity() is None);
            }
            self.values.push(array.value(i));
            assert(self.slots()[before.len() + k] == src[i as int]);
            assert forall|j: int| 0 <= j < prev.len() implies self.slots()[j] == prev[j] by {
                if self.use_validity {
                    assert(self.validity@[j] == prev_validity[j]);
                }
            }
            assert(self.slots() =~= prev.push(src[i as int]));
            assert(src.subrange(start as int, start + k + 1) =~= src.subrange(start as int, start + k).push(
                src[i as int],
            ));
            assert(self.slots() =~= before + src.subrange(start as int, start + k + 1));
            k = k + 1;
        }
    }

    /// The array built so far.
    pub fn into_array(self) -> (r: BooleanArray)
        requires
            self.wf(),
            self.spec_arrays().len() > 0,
        ensures
            r.spec_data_type() == self.spec_data_type(),
            r.slots() == self.slots(),
    {
        let ghost slots = self.slots();
        let data_type = self.data_type;
        let validity = if self.use_validity {
            Some(self.validity.into_bitmap())
        } else {
            None
        };
        let r = BooleanArray::from_data(data_type, self.values.into_bitmap(), validity);
        assert(r.slots() =~= slots);
        r
    }
}

/// Appends items `a .. b` of `src` to `dst`.
fn append_range<T: Copy>(dst: &mut Vec<T>, src: &Buffer<T>, a: usize, b: usize)
    requires
        a <= b <= src@.len(),
    ensures
        final(dst)@ == old(dst)@ + src@.subrange(a as int, b as int),
{
    let mut p: usize = a;
    while p < b
        invariant
            a <= p <= b,
            b <= src@.len(),
            dst@ == old(dst)@ + src@.subrange(a as int, p as int),
        decreases b - p,
    {
        dst.push(src.get(p));
        assert(src@.subrange(a as int, p + 1) =~= src@.subrange(a as int, p as int).push(src@[p as int]));
        p = p + 1;
    }
}

/// Builds a UTF-8 array by appending runs of slots taken from source arrays.
pub struct GrowableUtf8<'a> {
    data_type: DataType,
    arrays: Vec<&'a Utf8Array>,
    offsets: Vec<i32>,
    values: Vec<u8>,
    /// Whether the output tracks validity; `validity` is filled only then.
    use_validity: bool,
    validity: MutableBitmap,
}

impl<'a> GrowableUtf8<'a> {
    /// The sources.
    pub closed spec fn spec_arrays(&self) -> Seq<&'a Utf8Array> {
        self.arrays@
    }

    /// The logical type of the output.
    pub closed spec fn spec_data_type(&self) -> DataType {
        self.data_type
    }

    /// The number of bytes appended so far.
    pub closed spec fn bytes_len(&self) -> int {
        self.values@.len() as int
    }

    /// The slots appended so far.
    pub closed spec fn slots(&self) -> Seq<Option<Seq<u8>>> {
        Seq::new(
            (self.offsets@.len() - 1) as nat,
            |i: int|
                if self.use_validity && !self.validity@[i] {
                    None
                } else {
                    Some(self.values@.subrange(self.offsets@[i] as int, self.offsets@[i + 1] as int))
                },
        )
    }

    /// The offsets delimit the appended bytes, the validity covers the slots when it is
    /// tracked, and when it is not, no source has nulls.
    pub closed spec fn wf(&self) -> bool {
        &&& physical_of(self.data_type) == PhysicalType::Utf8
        &&& offsets_delimit(self.offsets@, self.offsets@.len() - 1, self.values@.len() as int)
        &&& self.offsets@[self.offsets@.len() - 1] == self.values@.len()
        &&& self.validity.wf()
        &&& self.use_validity ==> self.validity@.len() == self.offsets@.len() - 1
        &&& !self.use_validity ==> forall|k: int|
            0 <= k < self.arrays@.len() ==> (#[trigger] self.arrays@[k]).spec_validity() is None
    }

    /// A builder over `arrays` (at least one), whose output takes the first array's
    /// logical type. Validity is tracked when `use_validity` is set or a source has a
    /// validity bitmap; `capacity` is the expected number of output slots.
    pub fn new(arrays: Vec<&'a Utf8Array>, use_validity: bool, capacity: usize) -> (r: Self)
        requires
            arrays@.len() > 0,
        ensures
            r.wf(),
            r.spec_arrays() == arrays@,
            r.spec_data_type() == arrays@[0].spec_data_type(),
            r.slots().len() == 0,
            r.bytes_len() == 0,
    {
        let mut track = use_validity;
        let mut k: usize = 0;
        while k < arrays.len()
            invariant
                k <= arrays@.len(),
                !track ==> forall|j: int| 0 <= j < k ==> (#[trigger] arrays@[j]).spec_validity() is None,
            decreases arrays@.len() - k,
        {
            if arrays[k].validity().is_some() {
                track = true;
            }
            k = k + 1;
        }
        let validity = MutableBitmap::with_capacity(if track {
            capacity
        } else {
            0
        });
        let data_type = arrays[0].data_type().clone();
        let mut offsets: Vec<i32> = Vec::new();
        offsets.push(0);
        let r = GrowableUtf8 {
            data_type,
            arrays,
            offsets,
            values: Vec::new(),
            use_validity: track,
            validity,
        };
        assert(r.slots() =~= Seq::<Option<Seq<u8>>>::empty());
        r
    }

    /// Appends slots `start .. start + len` of source `index`. The bytes appended so
    /// far and those of the run must fit 32-bit offsets.
    pub fn extend(&mut self, index: usize, start: usize, len: usize)
        requires
            old(self).wf(),
            index < old(self).spec_arrays().len(),
            start + len <= old(self).spec_arrays()[index as int].slots().len(),
            old(self).bytes_len() + old(self).spec_arrays()[index as int].spec_offsets()[start + len]
                - old(self).spec_arrays()[index as int].spec_offsets()[start as int] <= i32::MAX,
            old(self).slots().len() + len < usize::MAX,
        ensures
            final(self).wf(),
            final(self).spec_arrays() == old(self).spec_arrays(),
            final(self).spec_data_type() == old(self).spec_data_type(),
            final(self).bytes_len() == old(self).bytes_len() + old(self).spec_arrays()[index as int].spec_offsets()[start
                + len] - old(self).spec_arrays()[index as int].spec_offsets()[start as int],
            final(self).slots() == old(self).slots() + old(self).spec_arrays()[index as int].slots().subrange(
                start as int,
                start + len,
            ),
    {
        let array: &Utf8Array = self.arrays[index];
        let ghost src = array.slots();
        let ghost before = self.slots();
        let ghost base = self.bytes_len();
        let src_offsets: &Buffer<i32> = array.offsets();
        let src_values: &Buffer<u8> = array.values();
        let ghost so = src_offsets@;
        let n = array.len();
        let mut k: usize = 0;
        while k < len
            invariant
                self.wf(),
                n == src.len(),
                self.arrays@ == old(self).arrays@,
                self.data_type == old(self).data_type,
                index < self.arrays@.len(),
                array == self.arrays@[index as int],
                src == array.slots(),
                so == array.spec_offsets(),
                src_offsets@ == so,
                src_values@ == array.spec_bytes(),
                offsets_delimit(so, n as int, array.spec_bytes().len() as int),
                k <= len,
                start + len <= n,
                base + so[start + len] - so[start as int] <= i32::MAX,
                before.len() + len < usize::MAX,
                self.bytes_len() == base + so[start + k] - so[start as int],
                self.slots() == before + src.subrange(start as int, start + k),
            decreases len - k,
        {
            let i = start + k;
            let ghost prev = self.slots();
            let ghost prev_validity = self.validity@;
            let ghost prev_values = self.values@;
            let ghost prev_offsets = self.offsets@;
            let a: usize = src_offsets.get(i) as usize;
            let b: usize = src_offsets.get(i + 1) as usize;
            append_range(&mut self.values, src_values, a, b);
            self.offsets.push(self.values.len() as i32);
            let valid = array.is_valid(i);
            if self.use_validity {
                self.validity.push(valid);
            } else {
                assert(self.arrays@[index as int].spec_validity() is None);
            }
            assert(self.values@.subrange(prev_values.len() as int, self.values@.len() as int) =~= array.bytes_at(i as int));
            assert(self.slots()[prev.len() as int] == src[i as int]);
            assert forall|j: int| 0 <= j < prev.len() implies self.slots()[j] == prev[j] by {
                assert(self.offsets@[j] == prev_offsets[j]);
                assert(self.offsets@[j + 1] == prev_offsets[j + 1]);
                assert(self.values@.subrange(self.offsets@[j] as int, self.offsets@[j + 1] as int) =~= prev_values.subrange(
                    prev_offsets[j] as int,
                    prev_offsets[j + 1] as int,
                ));
                if self.use_validity {
                    assert(self.validity@[j] == prev_validity[j]);
                }
            }
            assert(self.slots() =~= prev.push(src[i as int]));
            assert(src.subrange(start as int, start + k + 1) =~= src.subrange(start as int, start + k).push(
                src[i as int],
            ));
            k = k + 1;
        }
    }

    /// The array built so far.
    pub fn into_array(self) -> (r: Utf8Array)
        requires
            self.wf(),
        ensures
            r.spec_data_type() == self.spec_data_type(),
            r.slots() == self.slots(),
    {
        let ghost slots = self.slots();
        let data_type = self.data_type;
        let validity = if self.use_validity {
            Some(self.validity.into_bitmap())
        } else {
            None
        };
        let r = Utf8Array::from_data(
            data_type,
            Buffer::from_vec(self.offsets),
            Buffer::from_vec(self.values),
            validity,
        );
        assert(r.slots() =~= slots);
        r
    }
}

} // verus!
