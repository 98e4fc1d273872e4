use std::sync::Arc;

use arrow2::array::{Array, NullArray};
use arrow2::bitmap::Bitmap;
use arrow2::boolean::BooleanArray;
use arrow2::buffer::Buffer;
use arrow2::chunk::Chunk;
use arrow2::datatypes::{DataType, Field, PhysicalType, PrimitiveType, UnionMode};
use arrow2::error::ArrowError;
use arrow2::filter::{build_filter, filter, filter_chunk};
use arrow2::growable::{GrowableBoolean, GrowablePrimitive, GrowableUtf8};
use arrow2::primitive::PrimitiveArray;
use arrow2::union::UnionArray;
use arrow2::utf8::Utf8Array;

fn bits(b: &Bitmap) -> Vec<bool> {
    (0..b.len()).map(|i| b.get_bit(i)).collect()
}

fn ints(a: &Array) -> Vec<Option<i32>> {
    match a {
        Array::Int32(p) => (0..p.len())
            .map(|i| if p.is_valid(i) { Some(p.value(i)) } else { None })
            .collect(),
        _ => panic!("not an int32 array"),
    }
}

fn bools(a: &Array) -> Vec<Option<bool>> {
    match a {
        Array::Boolean(p) => (0..p.len())
            .map(|i| if p.is_valid(i) { Some(p.value(i)) } else { None })
            .collect(),
        _ => panic!("not a boolean array"),
    }
}

fn strings(a: &Array) -> Vec<Option<Vec<u8>>> {
    match a {
        Array::Utf8(p) => (0..p.len())
            .map(|i| if p.is_valid(i) { Some(p.value(i).to_vec()) } else { None })
            .collect(),
        _ => panic!("not a utf8 array"),
    }
}

fn int32(values: &[i32]) -> Array {
    Array::Int32(PrimitiveArray::from_slice(values))
}

fn mask(values: &[bool]) -> BooleanArray {
    BooleanArray::from_slice(values)
}

fn union_type(mode: UnionMode, ids: Option<Vec<i32>>) -> DataType {
    DataType::Union(
        Arc::new(vec![
            Field::new("a", DataType::Int32, true),
            Field::new("b", DataType::Utf8, true),
        ]),
        ids.map(Arc::new),
        mode,
    )
}

#[test]
fn filter_int32_selects_marked_slots() {
    let array = int32(&[5, 6, 7, 8, 9]);
    let m = mask(&[true, false, false, true, false]);
    let r = filter(&array, &m).unwrap();
    assert_eq!(ints(&r), vec![Some(5), Some(8)]);
    assert_eq!(r.data_type(), &DataType::Int32);
}

#[test]
fn filter_boolean_keeps_validity() {
    let values = Bitmap::from_bools(&[true, false, false]);
    let validity = Bitmap::from_bools(&[true, false, true]);
    let array = Array::Boolean(BooleanArray::from_data(DataType::Boolean, values, Some(validity)));
    let m = mask(&[true, true, false]);
    let r = filter(&array, &m).unwrap();
    assert_eq!(bools(&r), vec![Some(true), None]);
    match &r {
        Array::Boolean(b) => assert_eq!(bits(b.validity().unwrap()), vec![true, false]),
        _ => panic!("not a boolean array"),
    }
}

#[test]
fn filter_boolean_all_true_mask_keeps_all() {
    let values = Bitmap::from_bools(&[true, false, false]);
    let validity = Bitmap::from_bools(&[true, false, true]);
    let array = Array::Boolean(BooleanArray::from_data(DataType::Boolean, values, Some(validity)));
    let m = mask(&[true, true, true]);
    let r = filter(&array, &m).unwrap();
    assert_eq!(bools(&r), vec![Some(true), None, Some(false)]);
}

#[test]
fn dense_union_resolves_slots() {
    let fields = vec![int32(&[1, 2]), Array::Utf8(Utf8Array::from_slice(&["x"]))];
    let types = Buffer::from_vec(vec![0i8, 1, 0]);
    let offsets = Buffer::from_vec(vec![0i32, 0, 1]);
    let u = UnionArray::from_data(union_type(UnionMode::Dense, None), types, fields, Some(offsets))
        .unwrap();
    assert_eq!(u.len(), 3);
    assert_eq!(u.index(1), (1, 0));
    assert_eq!(u.index(2), (0, 1));
    assert_eq!(u.index(0), (0, 0));
    assert_eq!(strings(&u.value(1)), vec![Some(b"x".to_vec())]);
    assert_eq!(ints(&u.value(2)), vec![Some(2)]);
}

#[test]
fn union_with_type_ids_maps_through_them() {
    let fields = vec![int32(&[1, 2]), Array::Utf8(Utf8Array::from_slice(&["x"]))];
    let types = Buffer::from_vec(vec![7i8, 3, 7]);
    let offsets = Buffer::from_vec(vec![0i32, 0, 1]);
    let u = UnionArray::from_data(
        union_type(UnionMode::Dense, Some(vec![7, 3])),
        types,
        fields,
        Some(offsets),
    )
    .unwrap();
    assert_eq!(u.index(0), (0, 0));
    assert_eq!(u.index(1), (1, 0));
    assert_eq!(u.index(2), (0, 1));
}

#[test]
fn filter_all_false_gives_empty_of_same_type() {
    let m = mask(&[false, false, false, false, false]);
    let arrays = vec![
        int32(&[1, 2, 3, 4, 5]),
        Array::Boolean(BooleanArray::from_slice(&[true, true, false, false, true])),
        Array::Utf8(Utf8Array::from_slice(&["a", "b", "c", "d", "e"])),
        Array::Null(NullArray::new_null(DataType::Null, 5)),
    ];
    for a in &arrays {
        let r = filter(a, &m).unwrap();
        assert_eq!(r.len(), 0);
        assert_eq!(r.data_type(), a.data_type());
    }
}

#[test]
fn growable_concatenates_runs_of_two_sources() {
    let a = PrimitiveArray::<i32>::from_slice(&[10, 11, 12]);
    let b = PrimitiveArray::<i32>::from_slice(&[20, 21]);
    let mut g = GrowablePrimitive::new(vec![&a, &b], false, 3);
    g.extend(0, 1, 2);
    g.extend(1, 0, 1);
    let r = g.into_array();
    assert_eq!(r.values().to_vec(), vec![11, 12, 20]);
    assert!(r.validity().is_none());
}

#[test]
fn growable_tracks_validity_of_sources() {
    let a = PrimitiveArray::<i32>::from_slice(&[10, 11, 12])
        .with_validity(Some(Bitmap::from_bools(&[true, false, true])));
    let b = PrimitiveArray::<i32>::from_slice(&[20, 21]);
    let mut g = GrowablePrimitive::new(vec![&a, &b], false, 4);
    g.extend(0, 0, 2);
    g.extend(1, 1, 1);
    let r = Array::Int32(g.into_array());
    assert_eq!(ints(&r), vec![Some(10), None, Some(21)]);
}

#[test]
fn growable_boolean_and_utf8() {
    let a = BooleanArray::from_slice(&[true, false, true]);
    let mut g = GrowableBoolean::new(vec![&a], false, 2);
    g.extend(0, 1, 2);
    assert_eq!(bools(&Array::Boolean(g.into_array())), vec![Some(false), Some(true)]);

    let s = Utf8Array::from_slice(&["ab", "", "cde"]);
    let t = Utf8Array::from_slice(&["z"]);
    let mut g = GrowableUtf8::new(vec![&s, &t], false, 3);
    g.extend(0, 1, 2);
    g.extend(1, 0, 1);
    assert_eq!(
        strings(&Array::Utf8(g.into_array())),
        vec![Some(b"".to_vec()), Some(b"cde".to_vec()), Some(b"z".to_vec())]
    );
}

#[test]
fn slice_has_requested_length_and_reads_window() {
    let array = int32(&[1, 2, 3, 4, 5, 6]);
    let s = array.slice(2, 3);
    assert_eq!(s.len(), 3);
    assert_eq!(ints(&s.slice(0, 3)), vec![Some(3), Some(4), Some(5)]);
    let b = Array::Boolean(BooleanArray::from_slice(&[true, false, true, true]));
    assert_eq!(bools(&b.slice(1, 2)), vec![Some(false), Some(true)]);
    let u = Array::Utf8(Utf8Array::from_slice(&["a", "bc", "d"]));
    assert_eq!(strings(&u.slice(1, 2)), vec![Some(b"bc".to_vec()), Some(b"d".to_vec())]);
}

#[test]
fn bitmap_null_count_is_length_less_set_bits() {
    let b = Bitmap::from_bools(&[true, false, false, true, true, false, true, false, false, true]);
    assert_eq!(b.len(), 10);
    assert_eq!(b.null_count(), 5);
    let s = b.slice(1, 4).unwrap();
    assert_eq!(bits(&s), vec![false, false, true, true]);
    assert_eq!(s.null_count(), 2);
    let z = Bitmap::new_zeroed(9);
    assert_eq!(z.null_count(), 9);
    assert!(matches!(b.slice(8, 3), Err(ArrowError::OutOfBounds(_))));
}

#[test]
fn bitmap_chunks_and_logic() {
    let values: Vec<bool> = (0..20).map(|i| i % 3 == 0).collect();
    let b = Bitmap::from_bools(&values);
    let chunk = b.chunk(1);
    for k in 0..8 {
        assert_eq!((chunk >> k) & 1 == 1, values[8 + k]);
    }
    let shifted = b.slice(3, 16).unwrap();
    let c = shifted.chunk(1);
    for k in 0..8 {
        assert_eq!((c >> k) & 1 == 1, values[3 + 8 + k]);
    }
    let other = Bitmap::from_bools(&(0..20).map(|i| i % 2 == 0).collect::<Vec<_>>());
    let and = b.and(&other);
    let or = b.or(&other);
    let not = b.not();
    for i in 0..20 {
        assert_eq!(and.get_bit(i), values[i] && i % 2 == 0);
        assert_eq!(or.get_bit(i), values[i] || i % 2 == 0);
        assert_eq!(not.get_bit(i), !values[i]);
    }
    assert!(b == b.slice(0, 20).unwrap());
    assert!(b != other);
}

#[test]
fn buffer_slice_checks_bounds() {
    let b = Buffer::from_vec(vec![1u8, 2, 3, 4]);
    assert_eq!(b.slice(1, 2).unwrap().to_vec(), vec![2, 3]);
    assert!(matches!(b.slice(3, 2), Err(ArrowError::OutOfBounds(_))));
}

#[test]
fn filter_twice_with_all_true_mask_is_unchanged() {
    let array = int32(&[1, 2, 3, 4, 5, 6, 7, 8, 9, 10, 11]);
    let m = mask(&[true, false, true, true, false, true, true, true, true, false, true]);
    let once = filter(&array, &m).unwrap();
    let all = mask(&vec![true; once.len()]);
    let twice = filter(&once, &all).unwrap();
    assert_eq!(ints(&twice), ints(&once));
}

#[test]
fn filter_count_ignores_null_mask_slots() {
    let values = Bitmap::from_bools(&[true, true, false, true]);
    let validity = Bitmap::from_bools(&[true, false, true, true]);
    let m = BooleanArray::from_data(DataType::Boolean, values, Some(validity));
    let array = int32(&[1, 2, 3, 4]);
    let r = filter(&array, &m).unwrap();
    assert_eq!(r.len(), 2);
    assert_eq!(ints(&r), vec![Some(1), Some(4)]);
}

#[test]
fn filter_length_mismatch_fails_for_every_layout() {
    let m = mask(&[true, false]);
    let u = UnionArray::new_null(union_type(UnionMode::Sparse, None), 3);
    let arrays = vec![
        int32(&[1, 2, 3]),
        Array::Boolean(BooleanArray::from_slice(&[true, true, false])),
        Array::Utf8(Utf8Array::from_slice(&["a", "b", "c"])),
        Array::Null(NullArray::new_null(DataType::Null, 3)),
        Array::Union(u),
    ];
    for a in &arrays {
        assert!(matches!(filter(a, &m), Err(ArrowError::InvalidArgumentError(_))));
        let f = build_filter(&m).unwrap();
        assert!(matches!(f.apply(a), Err(ArrowError::InvalidArgumentError(_))));
    }
}

#[test]
fn compiled_filter_matches_direct_filter() {
    let m = BooleanArray::from_data(
        DataType::Boolean,
        Bitmap::from_bools(&[true, true, false, true, false, true, true, true, false, true]),
        Some(Bitmap::from_bools(&[true, true, true, false, true, true, true, true, true, true])),
    );
    let f = build_filter(&m).unwrap();
    assert_eq!(f.len(), 10);
    assert_eq!(f.filter_count(), 6);
    let a = int32(&[0, 1, 2, 3, 4, 5, 6, 7, 8, 9]);
    assert_eq!(ints(&f.apply(&a).unwrap()), ints(&filter(&a, &m).unwrap()));
    let b = Array::Boolean(BooleanArray::from_slice(&[
        true, false, true, false, true, false, true, false, true, false,
    ]));
    assert_eq!(bools(&f.apply(&b).unwrap()), bools(&filter(&b, &m).unwrap()));
    let s = Array::Utf8(Utf8Array::from_slice(&["a", "b", "c", "d", "e", "f", "g", "h", "i", "j"]));
    assert_eq!(strings(&f.apply(&s).unwrap()), strings(&filter(&s, &m).unwrap()));
}

#[test]
fn filter_utf8_with_long_runs() {
    let s = Array::Utf8(Utf8Array::from_slice(&["a", "bb", "ccc", "dddd", "e"]));
    let m = mask(&[false, true, true, false, true]);
    let r = filter(&s, &m).unwrap();
    assert_eq!(
        strings(&r),
        vec![Some(b"bb".to_vec()), Some(b"ccc".to_vec()), Some(b"e".to_vec())]
    );
}

#[test]
fn filter_sparse_union_filters_its_fields() {
    let fields = vec![int32(&[1, 2, 3]), Array::Utf8(Utf8Array::from_slice(&["x", "y", "z"]))];
    let types = Buffer::from_vec(vec![0i8, 1, 0]);
    let u = UnionArray::from_data(union_type(UnionMode::Sparse, None), types, fields, None)
        .unwrap();
    let r = filter(&Array::Union(u), &mask(&[false, true, true])).unwrap();
    match r {
        Array::Union(f) => {
            assert_eq!(f.len(), 2);
            assert_eq!(f.index(0), (1, 0));
            assert_eq!(f.index(1), (0, 1));
            assert_eq!(strings(&f.value(0)), vec![Some(b"y".to_vec())]);
            assert_eq!(ints(&f.value(1)), vec![Some(3)]);
        }
        _ => panic!("not a union array"),
    }
}

#[test]
fn filter_dense_union_keeps_fields() {
    let fields = vec![int32(&[1, 2]), Array::Utf8(Utf8Array::from_slice(&["x"]))];
    let types = Buffer::from_vec(vec![0i8, 1, 0]);
    let offsets = Buffer::from_vec(vec![0i32, 0, 1]);
    let u = UnionArray::from_data(union_type(UnionMode::Dense, None), types, fields, Some(offsets))
        .unwrap();
    let r = filter(&Array::Union(u), &mask(&[true, false, true])).unwrap();
    match r {
        Array::Union(f) => {
            assert_eq!(f.len(), 2);
            assert_eq!(f.index(0), (0, 0));
            assert_eq!(f.index(1), (0, 1));
            assert_eq!(f.fields().len(), 2);
        }
        _ => panic!("not a union array"),
    }
}

#[test]
fn union_from_data_rejects_malformed_parts() {
    let dense = union_type(UnionMode::Dense, None);
    let sparse = union_type(UnionMode::Sparse, None);
    let types = || Buffer::from_vec(vec![0i8, 0]);
    let good = || vec![int32(&[1, 2]), Array::Utf8(Utf8Array::from_slice(&["x", "y"]))];
    let r = UnionArray::from_data(dense.clone(), types(), vec![int32(&[1, 2])], Some(Buffer::from_vec(vec![0, 1])));
    assert!(matches!(r, Err(ArrowError::InvalidArgumentError(_))));
    let r = UnionArray::from_data(dense.clone(), types(), vec![int32(&[1]), int32(&[2])], Some(Buffer::from_vec(vec![0, 1])));
    assert!(matches!(r, Err(ArrowError::InvalidArgumentError(_))));
    let r = UnionArray::from_data(dense.clone(), types(), good(), None);
    assert!(matches!(r, Err(ArrowError::InvalidArgumentError(_))));
    let r = UnionArray::from_data(sparse.clone(), types(), good(), Some(Buffer::from_vec(vec![0, 1])));
    assert!(matches!(r, Err(ArrowError::InvalidArgumentError(_))));
    let r = UnionArray::from_data(dense.clone(), types(), good(), Some(Buffer::from_vec(vec![0])));
    assert!(matches!(r, Err(ArrowError::OutOfSpec(_))));
    let short = vec![int32(&[1]), Array::Utf8(Utf8Array::from_slice(&["x", "y"]))];
    let r = UnionArray::from_data(sparse.clone(), types(), short, None);
    assert!(matches!(r, Err(ArrowError::OutOfSpec(_))));
    assert!(UnionArray::from_data(sparse, types(), good(), None).is_ok());
}

#[test]
fn union_null_and_empty_and_type_helpers() {
    let dense = union_type(UnionMode::Dense, None);
    let u = UnionArray::new_null(dense.clone(), 4);
    assert_eq!(u.len(), 4);
    assert_eq!(u.types().to_vec(), vec![0, 0, 0, 0]);
    assert_eq!(u.offsets().as_ref().unwrap().to_vec(), vec![0, 1, 2, 3]);
    assert_eq!(u.fields().len(), 2);
    assert!(u.validity().is_none());
    let e = UnionArray::new_empty(dense.clone());
    assert_eq!(e.len(), 0);
    assert_eq!(UnionArray::get_fields(&dense).len(), 2);
    assert!(!UnionArray::is_sparse(&dense));
    assert!(UnionArray::is_sparse(&union_type(UnionMode::Sparse, None)));
    let s = UnionArray::new_null(union_type(UnionMode::Sparse, None), 2);
    assert!(s.offsets().is_none());
    assert_eq!(u.slice(1, 2).len(), 2);
}

#[test]
fn boolean_array_constructors_and_accessors() {
    let a = BooleanArray::new_null(DataType::Boolean, 3);
    assert_eq!(a.len(), 3);
    assert_eq!(a.validity().unwrap().null_count(), 3);
    let e = BooleanArray::new_empty(DataType::Boolean);
    assert_eq!(e.len(), 0);
    let b = BooleanArray::from_slice(&[true, false]);
    assert!(b.value(0));
    assert!(!b.value(1));
    assert_eq!(bits(b.values()), vec![true, false]);
    let v = b.with_validity(Some(Bitmap::from_bools(&[false, true])));
    assert!(!v.is_valid(0));
    assert!(v.is_valid(1));
    assert!(b.validity().is_none());
    assert_eq!(b.data_type().to_physical_type(), PhysicalType::Boolean);
}

#[test]
fn data_types_and_fields() {
    assert_eq!(DataType::Date32.to_physical_type(), PhysicalType::Primitive(PrimitiveType::Int32));
    assert_eq!(DataType::Int32.to_physical_type(), PhysicalType::Primitive(PrimitiveType::Int32));
    let f = Field::new("c", DataType::Int64, false)
        .with_metadata(vec![("k".to_string(), "v".to_string())]);
    assert_eq!(f.data_type(), &DataType::Int64);
    assert_eq!(f.metadata.len(), 1);
    assert!(union_type(UnionMode::Dense, None) == union_type(UnionMode::Dense, None));
    assert!(union_type(UnionMode::Dense, None) != union_type(UnionMode::Sparse, None));
    assert!(union_type(UnionMode::Dense, Some(vec![1, 2])) != union_type(UnionMode::Dense, None));
    let other = DataType::Union(
        Arc::new(vec![Field::new("a", DataType::Int32, true), Field::new("z", DataType::Utf8, true)]),
        None,
        UnionMode::Dense,
    );
    assert!(union_type(UnionMode::Dense, None) != other);
}

#[test]
fn null_arrays_for_every_type() {
    for t in [DataType::Null, DataType::Boolean, DataType::Int32, DataType::UInt8, DataType::Utf8] {
        let a = Array::new_null(t.clone(), 3);
        assert_eq!(a.len(), 3);
        assert_eq!(a.data_type(), &t);
        let e = Array::new_empty(t.clone());
        assert_eq!(e.len(), 0);
    }
    let a = Array::new_null(DataType::Int32, 2);
    assert_eq!(ints(&a), vec![None, None]);
}

#[test]
fn filter_chunk_filters_every_column() {
    let columns = Chunk::try_new(vec![
        int32(&[1, 2, 3]),
        Array::Utf8(Utf8Array::from_slice(&["a", "b", "c"])),
    ])
    .unwrap();
    let r = filter_chunk(&columns, &mask(&[true, false, true])).unwrap();
    assert_eq!(r.len(), 2);
    assert_eq!(ints(&r.arrays()[0]), vec![Some(1), Some(3)]);
    assert_eq!(strings(&r.arrays()[1]), vec![Some(b"a".to_vec()), Some(b"c".to_vec())]);
    let single = Chunk::try_new(vec![int32(&[4, 5])]).unwrap();
    let r = filter_chunk(&single, &mask(&[false, true])).unwrap();
    assert_eq!(ints(&r.into_arrays()[0]), vec![Some(5)]);
    assert!(matches!(
        filter_chunk(&columns, &mask(&[true])),
        Err(ArrowError::InvalidArgumentError(_))
    ));
    assert!(matches!(
        Chunk::try_new(vec![int32(&[1]), int32(&[1, 2])]),
        Err(ArrowError::InvalidArgumentError(_))
    ));
}

#[test]
fn filter_long_primitive_with_nulls_uses_chunks() {
    let values: Vec<i32> = (0..37).collect();
    let validity: Vec<bool> = (0..37).map(|i| i % 5 != 0).collect();
    let keep: Vec<bool> = (0..37).map(|i| i % 3 != 1).collect();
    let a = Array::Int32(
        PrimitiveArray::from_slice(&values).with_validity(Some(Bitmap::from_bools(&validity))),
    );
    let r = filter(&a, &mask(&keep)).unwrap();
    let expected: Vec<Option<i32>> = (0..37)
        .filter(|i| i % 3 != 1)
        .map(|i| if i % 5 != 0 { Some(i) } else { None })
        .collect();
    assert_eq!(ints(&r), expected);
    let window = a.slice(3, 30);
    let r = filter(&window, &mask(&keep[..30])).unwrap();
    let expected: Vec<Option<i32>> = (0..30)
        .filter(|i| i % 3 != 1)
        .map(|i| i + 3)
        .map(|i| if i % 5 != 0 { Some(i) } else { None })
        .collect();
    assert_eq!(ints(&r), expected);
}

#[test]
fn build_filter_on_null_mask_selects_nothing() {
    let m = BooleanArray::new_null(DataType::Boolean, 4);
    let f = build_filter(&m).unwrap();
    assert_eq!(f.filter_count(), 0);
    let r = f.apply(&int32(&[1, 2, 3, 4])).unwrap();
    assert_eq!(r.len(), 0);
    assert_eq!(r.data_type(), &DataType::Int32);
}

#[test]
fn array_with_validity_replaces_bitmap() {
    let a = int32(&[1, 2, 3]);
    let v = a.with_validity(Some(Bitmap::from_bools(&[false, true, false])));
    assert_eq!(ints(&v), vec![None, Some(2), None]);
    let w = v.with_validity(None);
    assert_eq!(ints(&w), vec![Some(1), Some(2), Some(3)]);
    assert!(w.validity().is_none());
}

#[test]
fn filter_primitive_honours_mask_nulls() {
    let a = PrimitiveArray::<i64>::from_slice(&[7, 8, 9]);
    let m = BooleanArray::from_data(
        DataType::Boolean,
        Bitmap::from_bools(&[true, true, true]),
        Some(Bitmap::from_bools(&[true, false, true])),
    );
    let r = arrow2::filter::filter_primitive(&a, &m);
    assert_eq!(r.values().to_vec(), vec![7, 9]);
}

#[test]
fn utf8_null_and_values() {
    let a = Utf8Array::new_null(DataType::Utf8, 2);
    assert_eq!(strings(&Array::Utf8(a)), vec![None, None]);
    let b = Utf8Array::from_slice(&["héllo", ""]);
    assert_eq!(b.value(0).to_vec(), "héllo".as_bytes().to_vec());
    assert_eq!(b.value(1).len(), 0);
    assert_eq!(b.offsets().to_vec(), vec![0, 6, 6]);
}

#[test]
fn union_new_null_builds_null_fields_of_declared_types() {
    let t = union_type(UnionMode::Sparse, None);
    let u = UnionArray::new_null(t.clone(), 3);
    assert!(u.offsets().is_none());
    let declared = UnionArray::get_fields(&t);
    for (k, f) in u.fields().iter().enumerate() {
        assert_eq!(f.len(), 3);
        assert_eq!(f.data_type(), declared[k].data_type());
    }
    assert_eq!(ints(&u.fields()[0]), vec![None, None, None]);
    assert_eq!(strings(&u.fields()[1]), vec![None, None, None]);
    let e = UnionArray::new_empty(union_type(UnionMode::Dense, None));
    assert_eq!(e.offsets().as_ref().unwrap().len(), 0);
    assert_eq!(e.fields()[1].data_type(), &DataType::Utf8);
    assert_eq!(e.fields()[0].len(), 0);
}

#[test]
fn slices_keep_validity_windows() {
    let b = BooleanArray::from_slice(&[true, false, true, true])
        .with_validity(Some(Bitmap::from_bools(&[true, true, false, true])));
    let s = b.slice(1, 3);
    assert_eq!(bits(s.validity().unwrap()), vec![true, false, true]);
    assert_eq!(s.validity().unwrap().null_count(), 1);
    assert_eq!(BooleanArray::new_null(DataType::Boolean, 0).validity().unwrap().len(), 0);
    let a = Array::Int32(PrimitiveArray::from_slice(&[1, 2, 3]));
    assert_eq!(a.data_type(), &DataType::Int32);
    assert!(a.slice(0, 2).validity().is_none());
}
