use std::sync::Arc;
use vstd::prelude::*;

use crate::array::{is_null_slot, null_length_fits, Array, Slot};
use crate::bitmap::{lemma_counts_sum, Bitmap};
use crate::buffer::Buffer;
use crate::datatypes::{
    data_type_equal, lemma_member_decreases, lemma_type_eq_refl, physical_of, type_eq, DataType,
    Field, PhysicalType, UnionMode,
};
use crate::error::{ArrowError, Result};
use crate::filter::{filter_window, nonnull_filter};
use crate::select::{lemma_select_index, lemma_select_pointwise, nth_set, select};

verus! {

/// The member fields that a union type declares.
pub open spec fn union_fields(t: DataType) -> Seq<Field> {
    match t {
        DataType::Union(fs, _, _) => fs@,
        _ => Seq::empty(),
    }
}

/// The explicit type ids that a union type declares, if any.
pub open spec fn union_ids(t: DataType) -> Option<Seq<i32>> {
    match t {
        DataType::Union(_, Some(ids), _) => Some(ids@),
        _ => None,
    }
}

/// The layout mode that a union type declares.
pub open spec fn union_mode(t: DataType) -> UnionMode {
    match t {
        DataType::Union(_, _, m) => m,
        _ => UnionMode::Dense,
    }
}

/// The index of the last declared member whose type id is `t`, or -1 if there is none.
pub open spec fn last_with_id(ids: Seq<i32>, t: i8) -> int
    decreases ids.len(),
{
    if ids.len() == 0 {
        -1
    } else if ids.last() == t as i32 {
        ids.len() - 1
    } else {
        last_with_id(ids.drop_last(), t)
    }
}

/// An array whose slots may each hold a value of a different member type. Slot `i`
/// selects member field `types[i]` (through the declared type ids, when there are
/// some), and reads it at `offsets[i]` (dense mode) or at its own position (sparse mode).
/// The type ids and the offsets are not checked against the fields: a slot that does not
/// lead to a value is unresolved.
#[derive(Debug)]
pub struct UnionArray {
    data_type: DataType,
    types: Buffer<i8>,
    /// For declared type ids: the member index for each byte value (shifted by 128), or
    /// the number of fields where no member has that id.
    fields_map: Option<Arc<Vec<usize>>>,
    fields: Arc<Vec<Array>>,
    offsets: Option<Buffer<i32>>,
    /// The position of slot 0 within the fields of a sparse union.
    offset: usize,
}

impl UnionArray {
    /// The layout agrees with the declared union type: one field per member, of its
    /// logical type; offsets exactly in dense mode, one per slot; in sparse mode every
    /// field covers the slots; and the type id table follows the declared ids.
    #[verifier::type_invariant]
    spec fn inv(self) -> bool {
        &&& physical_of(self.data_type) == PhysicalType::Union
        &&& self.fields@.len() == union_fields(self.data_type).len()
        &&& forall|k: int|
            0 <= k < self.fields@.len() ==> type_eq(
                (#[trigger] self.fields@[k]).spec_data_type(),
                union_fields(self.data_type)[k].data_type,
            )
        &&& (self.offsets is None <==> union_mode(self.data_type) == UnionMode::Sparse)
        &&& self.offsets matches Some(o) ==> o@.len() == self.types@.len()
        &&& self.offset + self.types@.len() <= usize::MAX
        &&& self.offsets is None ==> forall|k: int|
            0 <= k < self.fields@.len() ==> self.offset + self.types@.len() <= (
            #[trigger] self.fields@[k]).content().len()
        &&& (self.fields_map is Some <==> union_ids(self.data_type) is Some)
        &&& self.fields_map matches Some(table) ==> {
            &&& table@.len() == 256
            &&& forall|t: i8|
                #![trigger table@[t + 128]]
                table@[t + 128] == if last_with_id(union_ids(self.data_type)->Some_0, t) >= 0 {
                    last_with_id(union_ids(self.data_type)->Some_0, t)
                } else {
                    self.fields@.len() as int
                }
        }
    }

    /// The logical type.
    pub closed spec fn spec_data_type(&self) -> DataType {
        self.data_type
    }

    /// The type id of each slot.
    pub closed spec fn spec_types(&self) -> Seq<i8> {
        self.types@
    }

    /// The member fields.
    pub closed spec fn spec_fields(&self) -> Seq<Array> {
        self.fields@
    }

    /// The offset of each slot into its field, in dense mode.
    pub closed spec fn spec_offsets(&self) -> Option<Seq<i32>> {
        match self.offsets {
            Some(o) => Some(o@),
            None => None,
        }
    }

    /// The position of slot 0 within the fields, in sparse mode.
    pub closed spec fn spec_offset(&self) -> int {
        self.offset as int
    }

    /// The member index that type id `t` selects (it may lie outside the fields).
    pub open spec fn field_of(&self, t: i8) -> int {
        match union_ids(self.spec_data_type()) {
            Some(ids) => last_with_id(ids, t),
            None => t as int,
        }
    }

    /// The position within its field of slot `i`.
    pub open spec fn position_of(&self, i: int) -> int {
        match self.spec_offsets() {
            Some(o) => o[i] as int,
            None => self.spec_offset() + i,
        }
    }

    /// Slot `i` leads to a slot of a member field.
    pub open spec fn resolves(&self, i: int) -> bool {
        let f = self.field_of(self.spec_types()[i]);
        let p = self.position_of(i);
        &&& 0 <= i < self.spec_types().len()
        &&& 0 <= f < self.spec_fields().len()
        &&& 0 <= p < self.spec_fields()[f].spec_len()
    }

    /// The content of slot `i`.
    pub open spec fn slot(&self, i: int) -> Slot
        decreases self, 0int,
    {
        let f = self.field_of(self.spec_types()[i]);
        let p = self.position_of(i);
        if self.resolves(i) {
            Slot::Member(f, Box::new(self.spec_fields()[f].content()[p]))
        } else {
            Slot::Unresolved
        }
    }

    /// The logical content of the slots.
    pub open spec fn content(&self) -> Seq<Slot>
        decreases self, 1int,
    {
        Seq::new(self.spec_types().len(), |i: int| self.slot(i))
    }
}

/// The member fields match the declared ones in number and logical type.
pub open spec fn fields_match(data_type: DataType, fields: Seq<Array>) -> bool {
    &&& fields.len() == union_fields(data_type).len()
    &&& forall|k: int|
        0 <= k < fields.len() ==> type_eq(
            (#[trigger] fields[k]).spec_data_type(),
            union_fields(data_type)[k].data_type,
        )
}

/// Offsets are present exactly when the declared mode is dense.
pub open spec fn offsets_match_mode(data_type: DataType, offsets: Option<Seq<i32>>) -> bool {
    offsets is None <==> union_mode(data_type) == UnionMode::Sparse
}

/// The layout holds: one offset per slot (dense), or a value in every field for every
/// slot (sparse).
pub open spec fn layout_fits(types: Seq<i8>, fields: Seq<Array>, offsets: Option<Seq<i32>>) -> bool {
    match offsets {
        Some(o) => o.len() == types.len(),
        None => forall|k: int|
            0 <= k < fields.len() ==> types.len() <= (#[trigger] fields[k]).content().len(),
    }
}

/// The view of optional offsets.
pub open spec fn offsets_view(offsets: Option<Buffer<i32>>) -> Option<Seq<i32>> {
    match offsets {
        Some(o) => Some(o@),
        None => None,
    }
}

impl UnionArray {
    /// Builds the table from type id bytes to member indexes.
    fn build_fields_map(ids: &[i32], n_fields: usize) -> (r: Vec<usize>)
        ensures
            r@.len() == 256,
            forall|t: i8|
                #![trigger r@[t + 128]]
                r@[t + 128] == if last_with_id(ids@, t) >= 0 {
                    last_with_id(ids@, t)
                } else {
                    n_fields as int
                },
    {
        let mut table: Vec<usize> = Vec::new();
        let mut b: usize = 0;
        while b < 256
            invariant
                b <= 256,
                table@.len() == b,
                forall|j: int| 0 <= j < b ==> table@[j] == n_fields,
            decreases 256 - b,
        {
            table.push(n_fields);
            b = b + 1;
        }
        let mut k: usize = 0;
        while k < ids.len()
            invariant
                k <= ids@.len(),
                table@.len() == 256,
                forall|t: i8|
                    #![trigger table@[t + 128]]
                    table@[t + 128] == if last_with_id(ids@.take(k as int), t) >= 0 {
                        last_with_id(ids@.take(k as int), t)
                    } else {
                        n_fields as int
                    },
            decreases ids@.len() - k,
        {
            let id = ids[k];
            proof {
                assert(ids@.take(k + 1).drop_last() =~= ids@.take(k as int));
            }
            if -128 <= id && id <= 127 {
                table.set((id + 128) as usize, k);
            }
            assert forall|t: i8|
                #![trigger table@[t + 128]]
                table@[t + 128] == if last_with_id(ids@.take(k + 1), t) >= 0 {
                    last_with_id(ids@.take(k + 1), t)
                } else {
                    n_fields as int
                } by {
                if id == t as i32 {
                    assert(id + 128 == t + 128);
                }
            }
            k = k + 1;
        }
        assert(ids@.take(k as int) =~= ids@);
        table
    }

    /// A union array from its parts. The logical type must be a union type.
    ///
    /// Fails with an invalid-argument error when the number of fields or a field's logical
    /// type differs from the declared members, or when offsets are given for a sparse
    /// union or missing for a dense one; fails with an out-of-spec error when a dense
    /// union has not one offset per slot, or a field of a sparse union is shorter than the
    /// union. The type ids and the offsets' values are not checked.
    pub fn from_data(
        data_type: DataType,
        types: Buffer<i8>,
        fields: Vec<Array>,
        offsets: Option<Buffer<i32>>,
    ) -> (r: Result<Self>)
        requires
            physical_of(data_type) == PhysicalType::Union,
        ensures
            r is Ok <==> fields_match(data_type, fields@) && offsets_match_mode(
                data_type,
                offsets_view(offsets),
            ) && layout_fits(types@, fields@, offsets_view(offsets)),
            !(fields_match(data_type, fields@) && offsets_match_mode(data_type, offsets_view(offsets)))
                ==> r matches Err(ArrowError::InvalidArgumentError(_)),
            r matches Err(e) ==> (e is InvalidArgumentError || e is OutOfSpec),
            r matches Ok(u) ==> {
                &&& u.spec_data_type() == data_type
                &&& u.spec_types() == types@
                &&& u.spec_fields() == fields@
                &&& u.spec_offsets() == offsets_view(offsets)
                &&& u.spec_offset() == 0
            },
    {
        let (declared, ids, mode) = Self::get_all(&data_type);
        if declared.len() != fields.len() {
            return Err(
                ArrowError::InvalidArgumentError(
                    "the number of fields must equal the number of declared members".to_owned(),
                ),
            );
        }
        let mut k: usize = 0;
        while k < fields.len()
            invariant
                k <= fields@.len(),
                fields@.len() == declared@.len(),
                union_fields(data_type) == declared@,
                forall|j: int|
                    0 <= j < k ==> type_eq(
                        (#[trigger] fields@[j]).spec_data_type(),
                        union_fields(data_type)[j].data_type,
                    ),
            decreases fields@.len() - k,
        {
            if !data_type_equal(fields[k].data_type(), &declared[k].data_type) {
                return Err(
                    ArrowError::InvalidArgumentError(
                        "each field's logical type must equal its declared member's".to_owned(),
                    ),
                );
            }
            k = k + 1;
        }
        if offsets.is_none() != mode.is_sparse() {
            return Err(
                ArrowError::InvalidArgumentError(
                    "offsets must be given exactly when the union is dense".to_owned(),
                ),
            );
        }
        let n_slots = types.len();
        match &offsets {
            Some(o) => {
                if o.len() != n_slots {
                    return Err(ArrowError::OutOfSpec("a dense union needs one offset per slot".to_owned()));
                }
            },
            None => {
                let mut k: usize = 0;
                while k < fields.len()
                    invariant
                        k <= fields@.len(),
                        fields_match(data_type, fields@),
                        offsets_match_mode(data_type, offsets_view(offsets)),
                        offsets is None,
                        n_slots == types@.len(),
                        forall|j: int|
                            0 <= j < k ==> types@.len() <= (#[trigger] fields@[j]).content().len(),
                    decreases fields@.len() - k,
                {
                    if fields[k].len() < n_slots {
                        return Err(
                            ArrowError::OutOfSpec(
                                "each field of a sparse union needs a value for every slot".to_owned(),
                            ),
                        );
                    }
                    k = k + 1;
                }
            },
        }
        assert(fields_match(data_type, fields@));
        let fields_map = match ids {
            Some(ids) => Some(Arc::new(Self::build_fields_map(ids, fields.len()))),
            None => None,
        };
        Ok(UnionArray { data_type, types, fields_map, fields: Arc::new(fields), offsets, offset: 0 })
    }

    /// The number of slots.
    pub fn len(&self) -> (r: usize)
        ensures
            r == self.content().len(),
    {
        self.types.len()
    }

    /// The logical type.
    pub fn data_type(&self) -> (r: &DataType)
        ensures
            *r == self.spec_data_type(),
            physical_of(*r) == PhysicalType::Union,
    {
        proof {
            use_type_invariant(self);
        }
        &self.data_type
    }

    /// The offsets, present in dense mode.
    pub fn offsets(&self) -> (r: &Option<Buffer<i32>>)
        ensures
            offsets_view(*r) == self.spec_offsets(),
    {
        &self.offsets
    }

    /// The member fields.
    pub fn fields(&self) -> (r: &Vec<Array>)
        ensures
            r@ == self.spec_fields(),
    {
        &self.fields
    }

    /// The type id of each slot.
    pub fn types(&self) -> (r: &Buffer<i8>)
        ensures
            r@ == self.spec_types(),
    {
        &self.types
    }

    /// The window of `length` slots from `offset`. The fields are shared, not sliced.
    pub fn slice(&self, offset: usize, length: usize) -> (r: Self)
        requires
            offset + length <= self.content().len(),
        ensures
            r.spec_data_type() == self.spec_data_type(),
            r.spec_fields() == self.spec_fields(),
            r.content() == self.content().subrange(offset as int, offset + length),
    {
        proof {
            use_type_invariant(self);
        }
        let offsets = match &self.offsets {
            Some(o) => Some(o.slice_unchecked(offset, length)),
            None => None,
        };
        let fields_map = match &self.fields_map {
            Some(t) => Some(Arc::clone(t)),
            None => None,
        };
        let r = UnionArray {
            data_type: self.data_type.clone(),
            types: self.types.slice_unchecked(offset, length),
            fields_map,
            fields: Arc::clone(&self.fields),
            offsets,
            offset: self.offset + offset,
        };
        assert(r.content() =~= self.content().subrange(offset as int, offset + length));
        r
    }
}

impl UnionArray {
    /// The member index that type id `t` selects, which must lie within the fields.
    fn field(&self, t: i8) -> (r: usize)
        requires
            0 <= self.field_of(t) < self.spec_fields().len(),
        ensures
            r == self.field_of(t),
    {
        proof {
            use_type_invariant(self);
        }
        match &self.fields_map {
            Some(table) => {
                let table: &Vec<usize> = table;
                table[(t as i32 + 128) as usize]
            },
            None => t as usize,
        }
    }

    /// The position within its member field of slot `index`, which must not be negative.
    fn field_slot(&self, index: usize) -> (r: usize)
        requires
            index < self.spec_types().len(),
            0 <= self.position_of(index as int),
        ensures
            r == self.position_of(index as int),
    {
        proof {
            use_type_invariant(self);
        }
        match &self.offsets {
            Some(o) => o.get(index) as usize,
            None => self.offset + index,
        }
    }

    /// The member index and the position within that member of slot `index`.
    /// The slot must resolve: its type id must select a field and its offset must lie
    /// within that field (neither is checked when the array is built).
    pub fn index(&self, index: usize) -> (r: (usize, usize))
        requires
            self.resolves(index as int),
        ensures
            r.0 == self.field_of(self.spec_types()[index as int]),
            r.1 == self.position_of(index as int),
    {
        proof {
            use_type_invariant(self);
        }
        let t: i8 = self.types.get(index);
        let field_index = self.field(t);
        let position = self.field_slot(index);
        (field_index, position)
    }

    /// Slot `index` as a one-slot array of its member field (sharing its storage).
    /// The slot must resolve.
    pub fn value(&self, index: usize) -> (r: Array)
        requires
            self.resolves(index as int),
        ensures
            r.spec_data_type() == self.spec_fields()[self.field_of(
                self.spec_types()[index as int],
            )].spec_data_type(),
            r.content() == seq![
                self.spec_fields()[self.field_of(self.spec_types()[index as int])].content()[self.position_of(
                    index as int,
                )],
            ],
    {
        let (f, p) = self.index(index);
        let field: &Array = &self.fields[f];
        proof {
            field.lemma_content_len();
        }
        let r = field.slice(p, 1);
        assert(r.content() =~= seq![field.content()[p as int]]);
        r
    }

    /// Union arrays carry no validity of their own: nulls live in the member fields.
    pub fn validity(&self) -> (r: Option<&Bitmap>)
        ensures
            r is None,
    {
        None
    }

    /// The member fields, the explicit type ids (if any) and the mode that a union type
    /// declares. `data_type` must be a union type.
    fn get_all(data_type: &DataType) -> (r: (&[Field], Option<&[i32]>, UnionMode))
        requires
            physical_of(*data_type) == PhysicalType::Union,
        ensures
            r.0@ == union_fields(*data_type),
            r.1 is Some <==> union_ids(*data_type) is Some,
            r.1 matches Some(ids) ==> ids@ == union_ids(*data_type)->Some_0,
            r.2 == union_mode(*data_type),
    {
        match data_type {
            DataType::Union(fields, ids, mode) => {
                let fields: &Vec<Field> = fields;
                let ids = match ids {
                    Some(ids) => {
                        let ids: &Vec<i32> = ids;
                        Some(ids.as_slice())
                    },
                    None => None,
                };
                (fields.as_slice(), ids, *mode)
            },
            _ => unreached(),
        }
    }

    /// The member fields that a union type declares.
    /// `data_type` must be a union type.
    pub fn get_fields(data_type: &DataType) -> (r: &[Field])
        requires
            physical_of(*data_type) == PhysicalType::Union,
        ensures
            r@ == union_fields(*data_type),
    {
        Self::get_all(data_type).0
    }

    /// Whether a union type is sparse. `data_type` must be a union type.
    pub fn is_sparse(data_type: &DataType) -> (r: bool)
        requires
            physical_of(*data_type) == PhysicalType::Union,
        ensures
            r == (union_mode(*data_type) == UnionMode::Sparse),
    {
        Self::get_all(data_type).2.is_sparse()
    }
}

impl Clone for UnionArray {
    fn clone(&self) -> (r: Self)
        ensures
            r == *self,
    {
        proof {
            use_type_invariant(self);
        }
        let fields_map = match &self.fields_map {
            Some(t) => Some(Arc::clone(t)),
            None => None,
        };
        let offsets = match &self.offsets {
            Some(o) => Some(o.clone()),
            None => None,
        };
        UnionArray {
            data_type: self.data_type.clone(),
            types: self.types.clone(),
            fields_map,
            fields: Arc::clone(&self.fields),
            offsets,
            offset: self.offset,
        }
    }
}

impl UnionArray {
    /// Builds a union of the given type over the given member fields, with every slot of
    /// type id 0 and, in dense mode, slot `i` at offset `i`.
    fn all_first(data_type: DataType, fields: Vec<Array>, length: usize) -> (r: Self)
        requires
            physical_of(data_type) == PhysicalType::Union,
            union_mode(data_type) == UnionMode::Dense ==> length <= i32::MAX,
            fields@.len() == union_fields(data_type).len(),
            forall|k: int|
                0 <= k < fields@.len() ==> (#[trigger] fields@[k]).spec_data_type() == union_fields(
                    data_type,
                )[k].data_type,
            forall|k: int| 0 <= k < fields@.len() ==> (#[trigger] fields@[k]).content().len() == length,
        ensures
            r.spec_data_type() == data_type,
            r.spec_fields() == fields@,
            r.spec_types().len() == length,
            forall|i: int| 0 <= i < length ==> #[trigger] r.spec_types()[i] == 0,
            union_mode(data_type) == UnionMode::Dense ==> r.spec_offsets() == Some(
                Seq::new(length as nat, |i: int| i as i32),
            ),
            union_mode(data_type) == UnionMode::Sparse ==> r.spec_offsets() is None,
    {
        let (_, ids, mode) = Self::get_all(&data_type);
        let mut types: Vec<i8> = Vec::with_capacity(length);
        let mut i: usize = 0;
        while i < length
            invariant
                i <= length,
                types@.len() == i,
                forall|j: int| 0 <= j < i ==> types@[j] == 0,
            decreases length - i,
        {
            types.push(0);
            i = i + 1;
        }
        let offsets = if mode.is_sparse() {
            None
        } else {
            let mut offsets: Vec<i32> = Vec::with_capacity(length);
            let mut i: usize = 0;
            while i < length
                invariant
                    i <= length,
                    length <= i32::MAX,
                    offsets@.len() == i,
                    forall|j: int| 0 <= j < i ==> offsets@[j] == j,
                decreases length - i,
            {
                offsets.push(i as i32);
                i = i + 1;
            }
            assert(offsets@ =~= Seq::new(length as nat, |i: int| i as i32));
            Some(Buffer::from_vec(offsets))
        };
        let fields_map = match ids {
            Some(ids) => Some(Arc::new(Self::build_fields_map(ids, fields.len()))),
            None => None,
        };
        assert forall|k: int| 0 <= k < fields@.len() implies type_eq(
            (#[trigger] fields@[k]).spec_data_type(),
            union_fields(data_type)[k].data_type,
        ) by {
            lemma_type_eq_refl(fields@[k].spec_data_type());
        }
        UnionArray {
            data_type,
            types: Buffer::from_vec(types),
            fields_map,
            fields: Arc::new(fields),
            offsets,
            offset: 0,
        }
    }

    /// A union of `length` slots of the given union type whose member fields are built
    /// null, each of its declared type: every slot selects type id 0 and, in dense mode,
    /// slot `i` reads offset `i`. The offsets of dense unions (the union's and its
    /// members') and of strings must fit their integers.
    pub fn new_null(data_type: DataType, length: usize) -> (r: Self)
        requires
            physical_of(data_type) == PhysicalType::Union,
            null_length_fits(data_type, length as int),
        ensures
            r.spec_data_type() == data_type,
            r.content().len() == length,
            forall|i: int| 0 <= i < length ==> is_null_slot(#[trigger] r.content()[i]),
            r.spec_fields().len() == union_fields(data_type).len(),
            forall|k: int|
                0 <= k < r.spec_fields().len() ==> (#[trigger] r.spec_fields()[k]).spec_data_type()
                    == union_fields(data_type)[k].data_type,
            forall|k: int|
                0 <= k < r.spec_fields().len() ==> (#[trigger] r.spec_fields()[k]).content().len()
                    == length,
            forall|k: int, i: int|
                0 <= k < r.spec_fields().len() && 0 <= i < length ==> is_null_slot(
                    #[trigger] r.spec_fields()[k].content()[i],
                ),
            forall|k: int, i: int|
                0 <= k < r.spec_fields().len() && 0 <= i < length && physical_of(
                    union_fields(data_type)[k].data_type,
                ) != PhysicalType::Union ==> #[trigger] r.spec_fields()[k].content()[i]
                    == Slot::Null,
            forall|i: int| 0 <= i < length ==> #[trigger] r.spec_types()[i] == 0,
            union_mode(data_type) == UnionMode::Dense ==> r.spec_offsets() == Some(
                Seq::new(length as nat, |i: int| i as i32),
            ),
            union_mode(data_type) == UnionMode::Sparse ==> r.spec_offsets() is None,
        decreases data_type, 0int,
    {
        let declared = Self::get_fields(&data_type);
        let mut fields: Vec<Array> = Vec::new();
        let mut k: usize = 0;
        while k < declared.len()
            invariant
                k <= declared@.len(),
                declared@ == union_fields(data_type),
                physical_of(data_type) == PhysicalType::Union,
                null_length_fits(data_type, length as int),
                fields@.len() == k,
                forall|j: int|
                    0 <= j < k ==> (#[trigger] fields@[j]).spec_data_type() == declared@[j].data_type,
                forall|j: int| 0 <= j < k ==> (#[trigger] fields@[j]).content().len() == length,
                forall|j: int, i: int|
                    0 <= j < k && 0 <= i < length ==> is_null_slot(#[trigger] fields@[j].content()[i]),
                forall|j: int, i: int|
                    0 <= j < k && 0 <= i < length && physical_of(declared@[j].data_type)
                        != PhysicalType::Union ==> #[trigger] fields@[j].content()[i] == Slot::Null,
            decreases declared@.len() - k,
        {
            proof {
                lemma_member_decreases(data_type, k as int);
                assert(decreases_to!(declared@[k as int] => declared@[k as int].data_type));
                assert(null_length_fits(declared@[k as int].data_type, length as int));
            }
            fields.push(Array::new_null(declared[k].data_type.clone(), length));
            k = k + 1;
        }
        let r = Self::all_first(data_type, fields, length);
        assert forall|i: int| 0 <= i < length implies is_null_slot(#[trigger] r.content()[i]) by {
            if r.resolves(i) {
                let f = r.field_of(r.spec_types()[i]);
                let p = r.position_of(i);
                r.spec_fields()[f].lemma_content_len();
                assert(is_null_slot(r.spec_fields()[f].content()[p]));
            }
        }
        r
    }

    /// An empty union of the given union type, with an empty member field of each
    /// declared type, and empty offsets in dense mode.
    pub fn new_empty(data_type: DataType) -> (r: Self)
        requires
            physical_of(data_type) == PhysicalType::Union,
        ensures
            r.spec_data_type() == data_type,
            r.content().len() == 0,
            r.spec_fields().len() == union_fields(data_type).len(),
            forall|k: int|
                0 <= k < r.spec_fields().len() ==> (#[trigger] r.spec_fields()[k]).spec_data_type()
                    == union_fields(data_type)[k].data_type,
            forall|k: int|
                0 <= k < r.spec_fields().len() ==> (#[trigger] r.spec_fields()[k]).content().len()
                    == 0,
            union_mode(data_type) == UnionMode::Dense ==> r.spec_offsets() == Some(
                Seq::<i32>::empty(),
            ),
            union_mode(data_type) == UnionMode::Sparse ==> r.spec_offsets() is None,
        decreases data_type, 0int,
    {
        let declared = Self::get_fields(&data_type);
        let mut fields: Vec<Array> = Vec::new();
        let mut k: usize = 0;
        while k < declared.len()
            invariant
                k <= declared@.len(),
                declared@ == union_fields(data_type),
                fields@.len() == k,
                forall|j: int|
                    0 <= j < k ==> (#[trigger] fields@[j]).spec_data_type() == declared@[j].data_type,
                forall|j: int| 0 <= j < k ==> (#[trigger] fields@[j]).content().len() == 0,
            decreases declared@.len() - k,
        {
            proof {
                lemma_member_decreases(data_type, k as int);
                assert(decreases_to!(declared@[k as int] => declared@[k as int].data_type));
            }
            fields.push(Array::new_empty(declared[k].data_type.clone()));
            k = k + 1;
        }
        let r = Self::all_first(data_type, fields, 0);
        assert(Seq::new(0nat, |i: int| i as i32) =~= Seq::<i32>::empty());
        r
    }
}

/// A member field of a union array is smaller than the array.
proof fn lemma_field_decreases(u: UnionArray, k: int)
    requires
        0 <= k < u.fields@.len(),
    ensures
        decreases_to!(u => u.fields@[k]),
{
    let fs = u.fields;
    assert(decreases_to!(u => fs));
    let v: Vec<Array> = *fs;
    assert(decreases_to!(v => v@));
    assert(decreases_to!(v@ => v@[k]));
}

impl UnionArray {
    /// The slots `start .. start + mask.len()` selected by `mask`. A dense union keeps its
    /// fields and selects its type ids and offsets; a sparse union selects its type ids
    /// and the same window of every field.
    pub(crate) fn filter_window(&self, start: usize, mask: &Bitmap) -> (r: UnionArray)
        requires
            start + mask@.len() <= self.content().len(),
        ensures
            r.spec_data_type() == self.spec_data_type(),
            r.content() == select(self.content().subrange(start as int, start + mask@.len()), mask@),
        decreases self, 0int,
    {
        proof {
            use_type_invariant(self);
            lemma_counts_sum(mask@);
        }
        let n = mask.len();
        let count = n - mask.null_count();
        let ghost m = mask@;
        let ghost window = self.content().subrange(start as int, start + n);
        assert(m.take(n as int) =~= m);
        let types_window = self.types.slice_unchecked(start, n);
        let types = Buffer::from_vec(nonnull_filter(&types_window, mask, count));
        let fields_map = match &self.fields_map {
            Some(t) => Some(Arc::clone(t)),
            None => None,
        };
        proof {
            lemma_select_index(types_window@, m);
            lemma_select_index(window, m);
        }
        let r = match &self.offsets {
            Some(o) => {
                let offsets_window = o.slice_unchecked(start, n);
                let offsets = nonnull_filter(&offsets_window, mask, count);
                proof {
                    lemma_select_index(offsets_window@, m);
                    assert(offsets@.len() == types@.len());
                }
                UnionArray {
                    data_type: self.data_type.clone(),
                    types,
                    fields_map,
                    fields: Arc::clone(&self.fields),
                    offsets: Some(Buffer::from_vec(offsets)),
                    offset: 0,
                }
            },
            None => {
                let mut fields: Vec<Array> = Vec::new();
                let mut k: usize = 0;
                while k < self.fields.len()
                    invariant
                        k <= self.fields@.len(),
                        self.offsets is None,
                        start + n <= self.types@.len(),
                        self.offset + self.types@.len() <= usize::MAX,
                        n == m.len(),
                        m == mask@,
                        forall|j: int|
                            0 <= j < self.fields@.len() ==> self.offset + self.types@.len() <= (
                            #[trigger] self.fields@[j]).content().len(),
                        fields@.len() == k,
                        forall|j: int|
                            0 <= j < k ==> (#[trigger] fields@[j]).spec_data_type()
                                == self.fields@[j].spec_data_type(),
                        forall|j: int|
                            0 <= j < k ==> (#[trigger] fields@[j]).content() == select(
                                self.fields@[j].content().subrange(
                                    self.offset + start,
                                    self.offset + start + n,
                                ),
                                m,
                            ),
                    decreases self.fields@.len() - k,
                {
                    proof {
                        lemma_field_decreases(*self, k as int);
                    }
                    fields.push(filter_window(&self.fields[k], self.offset + start, mask));
                    k = k + 1;
                }
                proof {
                    assert forall|j: int| 0 <= j < fields@.len() implies (#[trigger] fields@[j]).content().len()
                        == count by {
                        lemma_select_index(
                            self.fields@[j].content().subrange(self.offset + start, self.offset + start + n),
                            m,
                        );
                    }
                }
                UnionArray {
                    data_type: self.data_type.clone(),
                    types,
                    fields_map,
                    fields: Arc::new(fields),
                    offsets: None,
                    offset: 0,
                }
            },
        };
        proof {
            assert forall|j: int| 0 <= j < r.content().len() implies r.content()[j] == window[#[trigger] nth_set(
                m,
                window.len() as int,
                j,
            )] by {
                let p = nth_set(m, window.len() as int, j);
                assert(r.spec_types()[j] == self.spec_types()[start + p]);
                if let Some(o) = self.offsets {
                    assert(r.position_of(j) == self.position_of(start + p));
                } else {
                    let f = self.field_of(self.spec_types()[start + p]);
                    if 0 <= f < self.spec_fields().len() {
                        let fw = self.spec_fields()[f].content().subrange(
                            self.offset + start,
                            self.offset + start + n,
                        );
                        lemma_select_index(fw, m);
                        assert(r.spec_fields()[f].content()[j] == fw[p]);
                    }
                }
            }
            lemma_select_pointwise(window, m, r.content());
        }
        r
    }
}

} // verus!
