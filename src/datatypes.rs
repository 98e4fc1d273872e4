use std::sync::Arc;
use vstd::prelude::*;

verus! {

/// How a union lays out the values of its members.
#[derive(Clone, Copy, Debug, PartialEq, Eq, Structural)]
pub enum UnionMode {
    /// Each member holds only the values of the slots that select it, addressed by offsets.
    Dense,
    /// Each member holds one value for every slot of the union.
    Sparse,
}

impl UnionMode {
    /// Whether this is [`UnionMode::Sparse`].
    pub fn is_sparse(&self) -> (r: bool)
        ensures
            r == (*self == UnionMode::Sparse),
    {
        match self {
            UnionMode::Sparse => true,
            UnionMode::Dense => false,
        }
    }
}

/// The native integer types that primitive arrays store.
#[derive(Clone, Copy, Debug, PartialEq, Eq, Structural)]
pub enum PrimitiveType {
    Int8,
    Int16,
    Int32,
    Int64,
    UInt8,
    UInt16,
    UInt32,
    UInt64,
}

/// The memory layouts of arrays. Each logical [`DataType`] resolves to exactly one.
#[derive(Clone, Copy, Debug, PartialEq, Eq, Structural)]
pub enum PhysicalType {
    Null,
    Boolean,
    Primitive(PrimitiveType),
    Utf8,
    Union,
}

/// Key-value annotations of a [`Field`].
pub type Metadata = Vec<(String, String)>;

/// The logical type of a column: what its values mean. Several logical types may share
/// one physical layout (a date counted in days is stored as a 32-bit integer).
#[derive(Debug)]
pub enum DataType {
    Null,
    Boolean,
    Int8,
    Int16,
    Int32,
    Int64,
    UInt8,
    UInt16,
    UInt32,
    UInt64,
    /// Days since the epoch, stored as a 32-bit integer.
    Date32,
    /// Milliseconds since the epoch, stored as a 64-bit integer.
    Date64,
    /// UTF-8 strings with 32-bit offsets.
    Utf8,
    /// A union of the given member fields, with optional explicit type ids (one per
    /// member) and a layout mode. The lists are shared, so cloning a type is cheap.
    Union(Arc<Vec<Field>>, Option<Arc<Vec<i32>>>, UnionMode),
}

/// A named, typed column description.
#[derive(Debug)]
pub struct Field {
    /// Its name.
    pub name: String,
    /// Its logical type.
    pub data_type: DataType,
    /// Whether it may hold nulls.
    pub is_nullable: bool,
    /// Additional annotations.
    pub metadata: Metadata,
}

/// The physical layout that a logical type resolves to.
pub open spec fn physical_of(t: DataType) -> PhysicalType {
    match t {
        DataType::Null => PhysicalType::Null,
        DataType::Boolean => PhysicalType::Boolean,
        DataType::Int8 => PhysicalType::Primitive(PrimitiveType::Int8),
        DataType::Int16 => PhysicalType::Primitive(PrimitiveType::Int16),
        DataType::Int32 => PhysicalType::Primitive(PrimitiveType::Int32),
        DataType::Int64 => PhysicalType::Primitive(PrimitiveType::Int64),
        DataType::UInt8 => PhysicalType::Primitive(PrimitiveType::UInt8),
        DataType::UInt16 => PhysicalType::Primitive(PrimitiveType::UInt16),
        DataType::UInt32 => PhysicalType::Primitive(PrimitiveType::UInt32),
        DataType::UInt64 => PhysicalType::Primitive(PrimitiveType::UInt64),
        DataType::Date32 => PhysicalType::Primitive(PrimitiveType::Int32),
        DataType::Date64 => PhysicalType::Primitive(PrimitiveType::Int64),
        DataType::Utf8 => PhysicalType::Utf8,
        DataType::Union(..) => PhysicalType::Union,
    }
}

/// Two option vectors of type ids hold the same ids.
pub open spec fn same_ids(a: Option<Arc<Vec<i32>>>, b: Option<Arc<Vec<i32>>>) -> bool {
    match (a, b) {
        (None, None) => true,
        (Some(x), Some(y)) => x@ == y@,
        _ => false,
    }
}

/// Two metadata lists hold the same pairs of strings.
pub open spec fn same_metadata(a: Metadata, b: Metadata) -> bool {
    &&& a@.len() == b@.len()
    &&& forall|i: int|
        0 <= i < a@.len() ==> (#[trigger] a@[i]).0@ == b@[i].0@ && a@[i].1@ == b@[i].1@
}

/// Logical equality of data types: the same variant, and for unions the same member
/// fields, type ids and mode.
pub open spec fn type_eq(a: DataType, b: DataType) -> bool
    decreases a,
{
    match (a, b) {
        (DataType::Union(fs, ids, m), DataType::Union(gs, jds, n)) => {
            &&& fs@.len() == gs@.len()
            &&& forall|i: int| 0 <= i < fs@.len() ==> field_eq(#[trigger] fs@[i], gs@[i])
            &&& same_ids(ids, jds)
            &&& m == n
        },
        (DataType::Union(..), _) => false,
        (_, DataType::Union(..)) => false,
        _ => a == b,
    }
}

/// Equality of fields: name, logical type, nullability and metadata.
pub open spec fn field_eq(a: Field, b: Field) -> bool
    decreases a,
{
    &&& a.name@ == b.name@
    &&& type_eq(a.data_type, b.data_type)
    &&& a.is_nullable == b.is_nullable
    &&& same_metadata(a.metadata, b.metadata)
}

impl DataType {
    /// The physical layout of this type.
    pub fn to_physical_type(&self) -> (r: PhysicalType)
        ensures
            r == physical_of(*self),
    {
        match self {
            DataType::Null => PhysicalType::Null,
            DataType::Boolean => PhysicalType::Boolean,
            DataType::Int8 => PhysicalType::Primitive(PrimitiveType::Int8),
            DataType::Int16 => PhysicalType::Primitive(PrimitiveType::Int16),
            DataType::Int32 => PhysicalType::Primitive(PrimitiveType::Int32),
            DataType::Int64 => PhysicalType::Primitive(PrimitiveType::Int64),
            DataType::UInt8 => PhysicalType::Primitive(PrimitiveType::UInt8),
            DataType::UInt16 => PhysicalType::Primitive(PrimitiveType::UInt16),
            DataType::UInt32 => PhysicalType::Primitive(PrimitiveType::UInt32),
            DataType::UInt64 => PhysicalType::Primitive(PrimitiveType::UInt64),
            DataType::Date32 => PhysicalType::Primitive(PrimitiveType::Int32),
            DataType::Date64 => PhysicalType::Primitive(PrimitiveType::Int64),
            DataType::Utf8 => PhysicalType::Utf8,
            DataType::Union(..) => PhysicalType::Union,
        }
    }
}

impl Clone for DataType {
    fn clone(&self) -> (r: DataType)
        ensures
            r == *self,
    {
        match self {
            DataType::Null => DataType::Null,
            DataType::Boolean => DataType::Boolean,
            DataType::Int8 => DataType::Int8,
            DataType::Int16 => DataType::Int16,
            DataType::Int32 => DataType::Int32,
            DataType::Int64 => DataType::Int64,
            DataType::UInt8 => DataType::UInt8,
            DataType::UInt16 => DataType::UInt16,
            DataType::UInt32 => DataType::UInt32,
            DataType::UInt64 => DataType::UInt64,
            DataType::Date32 => DataType::Date32,
            DataType::Date64 => DataType::Date64,
            DataType::Utf8 => DataType::Utf8,
            DataType::Union(fields, ids, mode) => {
                let ids = match ids {
                    Some(x) => Some(Arc::clone(x)),
                    None => None,
                };
                DataType::Union(Arc::clone(fields), ids, *mode)
            },
        }
    }
}

/// Whether two metadata lists hold the same pairs.
fn metadata_equal(a: &Metadata, b: &Metadata) -> (r: bool)
    ensures
        r == same_metadata(*a, *b),
{
    if a.len() != b.len() {
        return false;
    }
    let mut i: usize = 0;
    while i < a.len()
        invariant
            i <= a@.len(),
            a@.len() == b@.len(),
            forall|j: int| 0 <= j < i ==> (#[trigger] a@[j]).0@ == b@[j].0@ && a@[j].1@ == b@[j].1@,
        decreases a@.len() - i,
    {
        if a[i].0 != b[i].0 || a[i].1 != b[i].1 {
            return false;
        }
        i = i + 1;
    }
    true
}

/// A member field of a union type is smaller than the type.
pub proof fn lemma_member_decreases(t: DataType, i: int)
    requires
        t is Union,
        0 <= i < t->Union_0@.len(),
    ensures
        decreases_to!(t => t->Union_0@[i]),
{
    let fs = t->Union_0;
    assert(decreases_to!(t => fs));
    let v: Vec<Field> = *fs;
    assert(decreases_to!(v => v@));
    assert(decreases_to!(v@ => v@[i]));
}

/// Whether two data types are logically equal.
pub fn data_type_equal(a: &DataType, b: &DataType) -> (r: bool)
    ensures
        r == type_eq(*a, *b),
    decreases a,
{
    match (a, b) {
        (DataType::Union(fs, ids, m), DataType::Union(gs, jds, n)) => {
            if fs.len() != gs.len() {
                return false;
            }
            let mut i: usize = 0;
            while i < fs.len()
                invariant
                    i <= fs@.len(),
                    fs@.len() == gs@.len(),
                    *a == DataType::Union(*fs, *ids, *m),
                    *b == DataType::Union(*gs, *jds, *n),
                    forall|j: int| 0 <= j < i ==> field_eq(#[trigger] fs@[j], gs@[j]),
                decreases fs@.len() - i,
            {
                proof {
                    lemma_member_decreases(*a, i as int);
                }
                if !field_equal(&fs[i], &gs[i]) {
                    assert(!field_eq(fs@[i as int], gs@[i as int]));
                    return false;
                }
                i = i + 1;
            }
            let same = match (ids, jds) {
                (None, None) => true,
                (Some(x), Some(y)) => {
                    let x: &Vec<i32> = x;
                    let y: &Vec<i32> = y;
                    if x.len() != y.len() {
                        false
                    } else {
                        let mut k: usize = 0;
                        let mut ok = true;
                        while k < x.len()
                            invariant
                                k <= x@.len(),
                                x@.len() == y@.len(),
                                ok ==> forall|j: int| 0 <= j < k ==> x@[j] == y@[j],
                                !ok ==> x@ != y@,
                            decreases x@.len() - k,
                        {
                            if x[k] != y[k] {
                                ok = false;
                            }
                            k = k + 1;
                        }
                        if ok {
                            assert(x@ =~= y@);
                        }
                        ok
                    }
                },
                _ => false,
            };
            same && *m == *n
        },
        (DataType::Union(..), _) => false,
        (_, DataType::Union(..)) => false,
        (DataType::Null, DataType::Null) => true,
        (DataType::Boolean, DataType::Boolean) => true,
        (DataType::Int8, DataType::Int8) => true,
        (DataType::Int16, DataType::Int16) => true,
        (DataType::Int32, DataType::Int32) => true,
        (DataType::Int64, DataType::Int64) => true,
        (DataType::UInt8, DataType::UInt8) => true,
        (DataType::UInt16, DataType::UInt16) => true,
        (DataType::UInt32, DataType::UInt32) => true,
        (DataType::UInt64, DataType::UInt64) => true,
        (DataType::Date32, DataType::Date32) => true,
        (DataType::Date64, DataType::Date64) => true,
        (DataType::Utf8, DataType::Utf8) => true,
        _ => false,
    }
}

/// Whether two fields are equal.
pub fn field_equal(a: &Field, b: &Field) -> (r: bool)
    ensures
        r == field_eq(*a, *b),
    decreases a,
{
    a.name == b.name && data_type_equal(&a.data_type, &b.data_type) && a.is_nullable
        == b.is_nullable && metadata_equal(&a.metadata, &b.metadata)
}

impl PartialEq for DataType {
    fn eq(&self, other: &DataType) -> (r: bool) {
        data_type_equal(self, other)
    }
}

impl vstd::std_specs::cmp::PartialEqSpecImpl for DataType {
    open spec fn obeys_eq_spec() -> bool {
        true
    }

    open spec fn eq_spec(&self, other: &DataType) -> bool {
        type_eq(*self, *other)
    }
}

impl Field {
    /// A field with the given name, type and nullability, and no metadata.
    pub fn new(name: &str, data_type: DataType, is_nullable: bool) -> (r: Field)
        ensures
            r.name@ == name@,
            r.data_type == data_type,
            r.is_nullable == is_nullable,
            r.metadata@.len() == 0,
    {
        Field { name: name.to_owned(), data_type, is_nullable, metadata: Vec::new() }
    }

    /// This field with its metadata replaced.
    pub fn with_metadata(self, metadata: Metadata) -> (r: Field)
        ensures
            r.name == self.name,
            r.data_type == self.data_type,
            r.is_nullable == self.is_nullable,
            r.metadata == metadata,
    {
        Field { name: self.name, data_type: self.data_type, is_nullable: self.is_nullable, metadata }
    }

    /// The logical type of this field.
    pub fn data_type(&self) -> (r: &DataType)
        ensures
            *r == self.data_type,
    {
        &self.data_type
    }
}

impl PartialEq for Field {
    fn eq(&self, other: &Field) -> (r: bool) {
        field_equal(self, other)
    }
}

impl vstd::std_specs::cmp::PartialEqSpecImpl for Field {
    open spec fn obeys_eq_spec() -> bool {
        true
    }

    open spec fn eq_spec(&self, other: &Field) -> bool {
        field_eq(*self, *other)
    }
}

/// Logical equality of data types is reflexive.
pub proof fn lemma_type_eq_refl(t: DataType)
    ensures
        type_eq(t, t),
    decreases t,
{
    if let DataType::Union(fs, ids, m) = t {
        assert forall|i: int| 0 <= i < fs@.len() implies field_eq(#[trigger] fs@[i], fs@[i]) by {
            lemma_member_decreases(t, i);
            lemma_field_eq_refl(fs@[i]);
        }
    }
}

/// Equality of fields is reflexive.
pub proof fn lemma_field_eq_refl(f: Field)
    ensures
        field_eq(f, f),
    decreases f,
{
    lemma_type_eq_refl(f.data_type);
}

} // verus!
