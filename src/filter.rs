use vstd::prelude::*;

use crate::array::{
    lemma_bool_content_select, lemma_int_content_select, lemma_utf8_content_select, same_variant,
    Array, NullArray, Slot,
};
use crate::bitmap::{byte_bit, count_set, lemma_counts_sum, Bitmap, MutableBitmap};
use crate::boolean::BooleanArray;
use crate::buffer::Buffer;
use crate::chunk::{same_lengths, Chunk};
use crate::error::{ArrowError, Result};
use crate::growable::{GrowableBoolean, GrowablePrimitive, GrowableUtf8};
use crate::native::NativeType;
use crate::primitive::PrimitiveArray;
use crate::select::{
    lemma_select_index, lemma_select_len, lemma_select_pointwise, lemma_select_run,
    lemma_select_skip, lemma_select_step, nth_set, select,
};
use crate::utf8::{offsets_delimit, Utf8Array};

verus! {

/// Where the runs before run `k` end: 0 for the first run.
pub open spec fn span_end(spans: Seq<(usize, usize)>, k: int) -> int {
    if k <= 0 {
        0
    } else {
        spans[k - 1].0 + spans[k - 1].1
    }
}

/// The runs `(start, length)` lie in order within the first `upto` positions of `m`,
/// cover set positions only, and every set position before `upto` lies in a run.
pub open spec fn spans_cover_upto(spans: Seq<(usize, usize)>, m: Seq<bool>, upto: int) -> bool {
    &&& forall|k: int|
        0 <= k < spans.len() ==> span_end(spans, k) <= (#[trigger] spans[k]).0 && spans[k].0
            + spans[k].1 <= upto
    &&& forall|k: int, i: int|
        0 <= k < spans.len() && span_end(spans, k) <= i < (#[trigger] spans[k]).0 ==> !#[trigger] m[i]
    &&& forall|k: int, i: int|
        0 <= k < spans.len() && (#[trigger] spans[k]).0 <= i < spans[k].0 + spans[k].1 ==> #[trigger] m[i]
    &&& forall|i: int| span_end(spans, spans.len() as int) <= i < upto ==> !#[trigger] m[i]
    &&& span_end(spans, spans.len() as int) <= upto
    &&& upto <= m.len()
}

/// The runs decompose the set positions of all of `m`.
pub open spec fn spans_cover(spans: Seq<(usize, usize)>, m: Seq<bool>) -> bool {
    spans_cover_upto(spans, m, m.len() as int)
}

/// Closing a run of set positions `a .. b` right after the covered prefix extends the
/// cover to `b`.
proof fn lemma_cover_push(spans: Seq<(usize, usize)>, m: Seq<bool>, a: usize, b: usize)
    requires
        spans_cover_upto(spans, m, a as int),
        a <= b <= m.len(),
        forall|j: int| a <= j < b ==> #[trigger] m[j],
    ensures
        spans_cover_upto(spans.push((a, (b - a) as usize)), m, b as int),
{
    let t = spans.push((a, (b - a) as usize));
    assert forall|k: int| 0 <= k < t.len() implies span_end(t, k) <= (#[trigger] t[k]).0 && t[k].0
        + t[k].1 <= b by {
        if k < spans.len() {
            if k > 0 {
                assert(t[k - 1] == spans[k - 1]);
            }
        }
    }
    assert forall|k: int, j: int|
        0 <= k < t.len() && span_end(t, k) <= j < (#[trigger] t[k]).0 implies !#[trigger] m[j] by {
        if k < spans.len() {
            assert(t[k] == spans[k]);
            if k > 0 {
                assert(t[k - 1] == spans[k - 1]);
            }
        } else {
            assert(span_end(t, k) == span_end(spans, spans.len() as int));
        }
    }
    assert forall|k: int, j: int|
        0 <= k < t.len() && (#[trigger] t[k]).0 <= j < t[k].0 + t[k].1 implies #[trigger] m[j] by {
        if k < spans.len() {
            assert(t[k] == spans[k]);
        }
    }
}

/// An unset position right after the covered prefix extends the cover over it.
proof fn lemma_cover_gap(spans: Seq<(usize, usize)>, m: Seq<bool>, u: int)
    requires
        spans_cover_upto(spans, m, u),
        u < m.len(),
        !m[u],
    ensures
        spans_cover_upto(spans, m, u + 1),
{
}

/// The runs of set bits of `mask`, as `(start, length)` pairs in order.
pub fn slices(mask: &Bitmap) -> (r: Vec<(usize, usize)>)
    ensures
        spans_cover(r@, mask@),
{
    let n = mask.len();
    let mut spans: Vec<(usize, usize)> = Vec::new();
    let mut in_run = false;
    let mut run_start: usize = 0;
    let mut i: usize = 0;
    while i < n
        invariant
            n == mask@.len(),
            i <= n,
            !in_run ==> spans_cover_upto(spans@, mask@, i as int),
            in_run ==> {
                &&& spans_cover_upto(spans@, mask@, run_start as int)
                &&& run_start < i
                &&& forall|j: int| run_start <= j < i ==> #[trigger] mask@[j]
            },
        decreases n - i,
    {
        let bit = mask.get_bit(i);
        if bit {
            if !in_run {
                in_run = true;
                run_start = i;
            }
        } else {
            if in_run {
                proof {
                    lemma_cover_push(spans@, mask@, run_start, i);
                }
                spans.push((run_start, i - run_start));
                in_run = false;
            }
            proof {
                lemma_cover_gap(spans@, mask@, i as int);
            }
        }
        i = i + 1;
    }
    if in_run {
        proof {
            lemma_cover_push(spans@, mask@, run_start, n);
        }
        spans.push((run_start, n - run_start));
    }
    spans
}

/// The selected values, compacted lane by lane: for each group of eight mask bits, the
/// values under set bits are copied to the next free slot of the output; a final partial
/// group is handled bit by bit. `filter_count`, the number of set bits, sizes the output
/// once.
pub(crate) fn nonnull_filter<T: Copy>(values: &Buffer<T>, mask: &Bitmap, filter_count: usize) -> (r: Vec<T>)
    requires
        values@.len() == mask@.len(),
        filter_count == count_set(mask@),
    ensures
        r@ == select(values@, mask@),
{
    let n = mask.len();
    let chunks: usize = n / 8;
    let mut out: Vec<T> = Vec::with_capacity(filter_count);
    let mut c: usize = 0;
    while c < chunks
        invariant
            n == mask@.len(),
            n == values@.len(),
            chunks == n / 8,
            c <= chunks,
            out@ == select(values@.take(8 * c), mask@),
        decreases chunks - c,
    {
        let lanes: u8 = mask.chunk(c);
        let mut k: u8 = 0;
        while k < 8
            invariant
                n == mask@.len(),
                n == values@.len(),
                c < chunks,
                chunks == n / 8,
                k <= 8,
                forall|j: u8| j < 8 ==> #[trigger] byte_bit(lanes, j) == mask@[8 * c + j],
                out@ == select(values@.take(8 * c + k), mask@),
            decreases 8 - k,
        {
            let i: usize = 8 * c + k as usize;
            proof {
                lemma_select_step(values@, mask@, i as int);
            }
            if (lanes >> k) & 1u8 == 1u8 {
                assert(byte_bit(lanes, k));
                out.push(values.get(i));
            } else {
                assert(!byte_bit(lanes, k));
            }
            k = k + 1;
        }
        c = c + 1;
    }
    let mut i: usize = 8 * chunks;
    while i < n
        invariant
            n == mask@.len(),
            n == values@.len(),
            i <= n,
            out@ == select(values@.take(i as int), mask@),
        decreases n - i,
    {
        proof {
            lemma_select_step(values@, mask@, i as int);
        }
        if mask.get_bit(i) {
            out.push(values.get(i));
        }
        i = i + 1;
    }
    assert(values@.take(n as int) =~= values@);
    out
}

/// As [`nonnull_filter`], carrying in the same pass the validity bit of every selected
/// slot, so that values and validity stay aligned.
fn null_filter<T: Copy>(values: &Buffer<T>, validity: &Bitmap, mask: &Bitmap, filter_count: usize) -> (r: (
    Vec<T>,
    MutableBitmap,
))
    requires
        values@.len() == mask@.len(),
        validity@.len() == mask@.len(),
        filter_count == count_set(mask@),
    ensures
        r.0@ == select(values@, mask@),
        r.1.wf(),
        r.1@ == select(validity@, mask@),
{
    let n = mask.len();
    let chunks: usize = n / 8;
    let mut out: Vec<T> = Vec::with_capacity(filter_count);
    let mut out_validity = MutableBitmap::with_capacity(filter_count);
    let mut c: usize = 0;
    while c < chunks
        invariant
            n == mask@.len(),
            n == values@.len(),
            n == validity@.len(),
            chunks == n / 8,
            c <= chunks,
            out@ == select(values@.take(8 * c), mask@),
            out_validity.wf(),
            out_validity@ == select(validity@.take(8 * c), mask@),
        decreases chunks - c,
    {
        let lanes: u8 = mask.chunk(c);
        let valid_lanes: u8 = validity.chunk(c);
        let mut k: u8 = 0;
        while k < 8
            invariant
                n == mask@.len(),
                n == values@.len(),
                n == validity@.len(),
                c < chunks,
                chunks == n / 8,
                k <= 8,
                forall|j: u8| j < 8 ==> #[trigger] byte_bit(lanes, j) == mask@[8 * c + j],
                forall|j: u8| j < 8 ==> #[trigger] byte_bit(valid_lanes, j) == validity@[8 * c + j],
                out@ == select(values@.take(8 * c + k), mask@),
                out_validity.wf(),
                out_validity@ == select(validity@.take(8 * c + k), mask@),
            decreases 8 - k,
        {
            let i: usize = 8 * c + k as usize;
            proof {
                lemma_select_step(values@, mask@, i as int);
                lemma_select_step(validity@, mask@, i as int);
                lemma_select_len(validity@.take(i as int), mask@);
            }
            if (lanes >> k) & 1u8 == 1u8 {
                assert(byte_bit(lanes, k));
                assert(byte_bit(valid_lanes, k) == validity@[i as int]);
                out.push(values.get(i));
                out_validity.push((valid_lanes >> k) & 1u8 == 1u8);
            } else {
                assert(!byte_bit(lanes, k));
            }
            k = k + 1;
        }
        c = c + 1;
    }
    let mut i: usize = 8 * chunks;
    while i < n
        invariant
            n == mask@.len(),
            n == values@.len(),
            n == validity@.len(),
            i <= n,
            out@ == select(values@.take(i as int), mask@),
            out_validity.wf(),
            out_validity@ == select(validity@.take(i as int), mask@),
        decreases n - i,
    {
        proof {
            lemma_select_step(values@, mask@, i as int);
            lemma_select_step(validity@, mask@, i as int);
            lemma_select_len(validity@.take(i as int), mask@);
        }
        if mask.get_bit(i) {
            out.push(values.get(i));
            out_validity.push(validity.get_bit(i));
        }
        i = i + 1;
    }
    assert(values@.take(n as int) =~= values@);
    assert(validity@.take(n as int) =~= validity@);
    (out, out_validity)
}

/// Run `k` extends the selection over the prefix that ends where it ends.
pub proof fn lemma_span_step<A>(src: Seq<A>, m: Seq<bool>, spans: Seq<(usize, usize)>, k: int)
    requires
        spans_cover(spans, m),
        src.len() == m.len(),
        0 <= k < spans.len(),
    ensures
        span_end(spans, k + 1) == spans[k].0 + spans[k].1,
        span_end(spans, k) <= spans[k].0,
        select(src.take(span_end(spans, k + 1)), m) == select(src.take(span_end(spans, k)), m)
            + src.subrange(spans[k].0 as int, spans[k].0 + spans[k].1),
{
    let a = span_end(spans, k);
    let s0 = spans[k].0 as int;
    let e = s0 + spans[k].1;
    assert forall|i: int| a <= i < s0 implies !m[i] by {
        assert(span_end(spans, k) <= i < spans[k].0);
    }
    lemma_select_skip(src, m, a, s0);
    assert forall|i: int| s0 <= i < e implies m[i] by {
        assert(spans[k].0 <= i < spans[k].0 + spans[k].1);
    }
    lemma_select_run(src, m, s0, e);
}

/// After the last run, the selection over the prefix is the whole selection.
pub proof fn lemma_span_finish<A>(src: Seq<A>, m: Seq<bool>, spans: Seq<(usize, usize)>)
    requires
        spans_cover(spans, m),
        src.len() == m.len(),
    ensures
        select(src.take(span_end(spans, spans.len() as int)), m) == select(src, m),
{
    let a = span_end(spans, spans.len() as int);
    lemma_select_skip(src, m, a, src.len() as int);
    assert(src.take(src.len() as int) =~= src);
}

/// Filters a primitive array with the lane-wise kernels, by a mask without nulls.
pub fn filter_nonnull_primitive<T: NativeType>(array: &PrimitiveArray<T>, mask: &Bitmap) -> (r:
    PrimitiveArray<T>)
    requires
        array.slots().len() == mask@.len(),
    ensures
        r.spec_data_type() == array.spec_data_type(),
        r.slots() == select(array.slots(), mask@),
{
    proof {
        lemma_counts_sum(mask@);
    }
    let count = mask.len() - mask.null_count();
    let values = array.values();
    let data_type = array.data_type().clone();
    let ghost m = mask@;
    let ghost src = array.slots();
    let r = match array.validity() {
        Some(validity) => {
            let (vals, valid) = null_filter(values, validity, mask, count);
            proof {
                lemma_select_index(values@, m);
                lemma_select_index(validity@, m);
            }
            PrimitiveArray::from_data(data_type, Buffer::from_vec(vals), Some(valid.into_bitmap()))
        },
        None => {
            let vals = nonnull_filter(values, mask, count);
            PrimitiveArray::from_data(data_type, Buffer::from_vec(vals), None)
        },
    };
    proof {
        lemma_select_index(src, m);
        lemma_select_index(array.spec_values(), m);
        if let Some(v) = array.spec_validity() {
            lemma_select_index(v@, m);
        }
        assert forall|j: int| 0 <= j < r.slots().len() implies r.slots()[j] == src[#[trigger] nth_set(
            m,
            src.len() as int,
            j,
        )] by {
            let p = nth_set(m, src.len() as int, j);
        }
        lemma_select_pointwise(src, m, r.slots());
    }
    r
}

/// Filters a boolean array by driving a builder with the runs of the mask.
fn filter_boolean(array: &BooleanArray, spans: &Vec<(usize, usize)>, m: Ghost<Seq<bool>>, count: usize) -> (r:
    BooleanArray)
    requires
        spans_cover(spans@, m@),
        array.slots().len() == m@.len(),
    ensures
        r.spec_data_type() == array.spec_data_type(),
        r.slots() == select(array.slots(), m@),
{
    let ghost src = array.slots();
    let n = array.len();
    let mut g = GrowableBoolean::new(vec![array], false, count);
    let mut k: usize = 0;
    while k < spans.len()
        invariant
            spans_cover(spans@, m@),
            src.len() == m@.len(),
            n == src.len(),
            src == array.slots(),
            k <= spans@.len(),
            g.wf(),
            g.spec_arrays() == seq![array],
            g.spec_data_type() == array.spec_data_type(),
            g.slots() == select(src.take(span_end(spans@, k as int)), m@),
        decreases spans@.len() - k,
    {
        let (start, len) = spans[k];
        proof {
            lemma_span_step(src, m@, spans@, k as int);
            lemma_select_len(src.take(span_end(spans@, k as int)), m@);
        }
        g.extend(0, start, len);
        k = k + 1;
    }
    proof {
        lemma_span_finish(src, m@, spans@);
    }
    g.into_array()
}

/// Filters a UTF-8 array by driving a builder with the runs of the mask.
fn filter_utf8(array: &Utf8Array, spans: &Vec<(usize, usize)>, m: Ghost<Seq<bool>>, count: usize) -> (r:
    Utf8Array)
    requires
        spans_cover(spans@, m@),
        array.slots().len() == m@.len(),
    ensures
        r.spec_data_type() == array.spec_data_type(),
        r.slots() == select(array.slots(), m@),
{
    let ghost src = array.slots();
    let ghost so = array.spec_offsets();
    let offsets = array.offsets();
    let n_offsets = offsets.len();
    let mut g = GrowableUtf8::new(vec![array], false, count);
    let mut k: usize = 0;
    while k < spans.len()
        invariant
            spans_cover(spans@, m@),
            src.len() == m@.len(),
            src == array.slots(),
            so == array.spec_offsets(),
            n_offsets == so.len(),
            offsets_delimit(so, src.len() as int, array.spec_bytes().len() as int),
            k <= spans@.len(),
            g.wf(),
            g.spec_arrays() == seq![array],
            g.spec_data_type() == array.spec_data_type(),
            g.slots() == select(src.take(span_end(spans@, k as int)), m@),
            g.bytes_len() <= so[span_end(spans@, k as int)] - so[0],
        decreases spans@.len() - k,
    {
        let (start, len) = spans[k];
        proof {
            lemma_span_step(src, m@, spans@, k as int);
            lemma_select_len(src.take(span_end(spans@, k as int)), m@);
            assert(so[span_end(spans@, k as int)] <= so[start as int]);
        }
        g.extend(0, start, len);
        k = k + 1;
    }
    proof {
        lemma_span_finish(src, m@, spans@);
    }
    g.into_array()
}

/// Filters a primitive array by driving a builder with the runs of the mask.
fn filter_primitive_spans<T: NativeType>(
    array: &PrimitiveArray<T>,
    spans: &Vec<(usize, usize)>,
    m: Ghost<Seq<bool>>,
    count: usize,
) -> (r: PrimitiveArray<T>)
    requires
        spans_cover(spans@, m@),
        array.slots().len() == m@.len(),
    ensures
        r.spec_data_type() == array.spec_data_type(),
        r.slots() == select(array.slots(), m@),
{
    let ghost src = array.slots();
    let n = array.len();
    let mut g = GrowablePrimitive::new(vec![array], false, count);
    let mut k: usize = 0;
    while k < spans.len()
        invariant
            spans_cover(spans@, m@),
            src.len() == m@.len(),
            n == src.len(),
            src == array.slots(),
            k <= spans@.len(),
            g.wf(),
            g.spec_arrays() == seq![array],
            g.spec_data_type() == array.spec_data_type(),
            g.slots() == select(src.take(span_end(spans@, k as int)), m@),
        decreases spans@.len() - k,
    {
        let (start, len) = spans[k];
        proof {
            lemma_span_step(src, m@, spans@, k as int);
            lemma_select_len(src.take(span_end(spans@, k as int)), m@);
        }
        g.extend(0, start, len);
        k = k + 1;
    }
    proof {
        lemma_span_finish(src, m@, spans@);
    }
    g.into_array()
}

/// Selecting from null slots gives null slots, as many as are selected.
proof fn lemma_select_nulls(n: nat, m: Seq<bool>, count: nat)
    requires
        n == m.len(),
        count == count_set(m),
    ensures
        Seq::new(count, |i: int| Slot::Null) == select(Seq::new(n, |i: int| Slot::Null), m),
{
    let s = Seq::new(n, |i: int| Slot::Null);
    assert(m.take(n as int) =~= m);
    lemma_select_index(s, m);
    lemma_select_pointwise(s, m, Seq::new(count, |i: int| Slot::Null));
}

/// Filters an array of any layout but union, whose length is the mask's.
fn filter_leaf(array: &Array, mask: &Bitmap) -> (r: Array)
    requires
        !(array is Union),
        array.content().len() == mask@.len(),
    ensures
        r.spec_data_type() == array.spec_data_type(),
        r.content() == select(array.content(), mask@),
        same_variant(r, *array),
{
    proof {
        lemma_counts_sum(mask@);
    }
    let count = mask.len() - mask.null_count();
    let ghost m = mask@;
    match array {
        Array::Null(a) => {
            proof {
                lemma_select_nulls(a.spec_len(), m, count as nat);
            }
            Array::Null(NullArray::new_null(a.data_type().clone(), count))
        },
        Array::Boolean(a) => {
            let spans = slices(mask);
            let r = filter_boolean(a, &spans, Ghost(m), count);
            proof {
                lemma_bool_content_select(a.slots(), m);
            }
            Array::Boolean(r)
        },
        Array::Utf8(a) => {
            let spans = slices(mask);
            let r = filter_utf8(a, &spans, Ghost(m), count);
            proof {
                lemma_utf8_content_select(a.slots(), m);
            }
            Array::Utf8(r)
        },
        Array::Int8(a) => {
            proof {
                lemma_int_content_select(a.slots(), m);
            }
            Array::Int8(filter_nonnull_primitive(a, mask))
        },
        Array::Int16(a) => {
            proof {
                lemma_int_content_select(a.slots(), m);
            }
            Array::Int16(filter_nonnull_primitive(a, mask))
        },
        Array::Int32(a) => {
            proof {
                lemma_int_content_select(a.slots(), m);
            }
            Array::Int32(filter_nonnull_primitive(a, mask))
        },
        Array::Int64(a) => {
            proof {
                lemma_int_content_select(a.slots(), m);
            }
            Array::Int64(filter_nonnull_primitive(a, mask))
        },
        Array::UInt8(a) => {
            proof {
                lemma_int_content_select(a.slots(), m);
            }
            Array::UInt8(filter_nonnull_primitive(a, mask))
        },
        Array::UInt16(a) => {
            proof {
                lemma_int_content_select(a.slots(), m);
            }
            Array::UInt16(filter_nonnull_primitive(a, mask))
        },
        Array::UInt32(a) => {
            proof {
                lemma_int_content_select(a.slots(), m);
            }
            Array::UInt32(filter_nonnull_primitive(a, mask))
        },
        Array::UInt64(a) => {
            proof {
                lemma_int_content_select(a.slots(), m);
            }
            Array::UInt64(filter_nonnull_primitive(a, mask))
        },
        Array::Union(_) => unreached(),
    }
}

/// The slots `start .. start + mask.len()` of `array` that `mask` selects.
pub(crate) fn filter_window(array: &Array, start: usize, mask: &Bitmap) -> (r: Array)
    requires
        start + mask@.len() <= array.content().len(),
    ensures
        r.spec_data_type() == array.spec_data_type(),
        r.content() == select(array.content().subrange(start as int, start + mask@.len()), mask@),
        same_variant(r, *array),
    decreases array, 1int,
{
    match array {
        Array::Union(u) => Array::Union(u.filter_window(start, mask)),
        _ => {
            let window = array.slice(start, mask.len());
            filter_leaf(&window, mask)
        },
    }
}

/// The mask that a boolean array makes: set where a slot is valid and true.
fn effective_mask(filter: &BooleanArray) -> (r: Bitmap)
    ensures
        r@ == filter.selection(),
{
    match filter.validity() {
        Some(validity) => {
            let r = filter.values().and(validity);
            assert(r@ =~= filter.selection());
            r
        },
        None => {
            let r = filter.values().clone();
            assert(r@ =~= filter.selection());
            r
        },
    }
}

/// The slots of `array` that `mask` selects, in order: those where the mask is valid
/// and true (a null mask slot drops its slot). The result has the logical type of
/// `array`. Fails with an invalid-argument error when the lengths differ.
pub fn filter(array: &Array, mask: &BooleanArray) -> (r: Result<Array>)
    ensures
        r is Ok <==> array.content().len() == mask.slots().len(),
        r matches Err(e) ==> e is InvalidArgumentError,
        r matches Ok(a) ==> a.spec_data_type() == array.spec_data_type() && a.content() == select(
            array.content(),
            mask.selection(),
        ),
        r matches Ok(a) ==> a.content().len() == count_set(mask.selection()),
        r matches Ok(a) ==> same_variant(a, *array),
{
    if array.len() != mask.len() {
        return Err(
            ArrowError::InvalidArgumentError(
                "the mask must have the length of the array".to_owned(),
            ),
        );
    }
    let selection = effective_mask(mask);
    let r = filter_window(array, 0, &selection);
    assert(array.content().subrange(0, selection@.len() as int) =~= array.content());
    proof {
        lemma_select_count(array.content(), selection@);
    }
    Ok(r)
}

/// A mask prepared once for filtering many arrays of its length: its runs of selected
/// slots and their total are computed when it is built.
#[derive(Debug)]
pub struct Filter {
    mask: Bitmap,
    spans: Vec<(usize, usize)>,
    count: usize,
}

impl Filter {
    /// The runs decompose the mask, and the count is the number of selected slots.
    #[verifier::type_invariant]
    spec fn inv(self) -> bool {
        &&& spans_cover(self.spans@, self.mask@)
        &&& self.count == count_set(self.mask@)
    }

    /// The slots that this filter selects.
    pub closed spec fn selection(&self) -> Seq<bool> {
        self.mask@
    }

    /// The length of the arrays that this filter applies to.
    pub fn len(&self) -> (r: usize)
        ensures
            r == self.selection().len(),
    {
        self.mask.len()
    }

    /// The number of slots that this filter selects.
    pub fn filter_count(&self) -> (r: usize)
        ensures
            r == count_set(self.selection()),
    {
        proof {
            use_type_invariant(self);
        }
        self.count
    }

    /// The slots of `array` that this filter selects, as [`filter`] gives them. Fails with
    /// an invalid-argument error when the lengths differ.
    pub fn apply(&self, array: &Array) -> (r: Result<Array>)
        ensures
            r is Ok <==> array.content().len() == self.selection().len(),
            r matches Err(e) ==> e is InvalidArgumentError,
            r matches Ok(a) ==> a.spec_data_type() == array.spec_data_type() && a.content() == select(
                array.content(),
                self.selection(),
            ),
            r matches Ok(a) ==> a.content().len() == count_set(self.selection()),
            r matches Ok(a) ==> same_variant(a, *array),
    {
        proof {
            use_type_invariant(self);
        }
        if array.len() != self.mask.len() {
            return Err(
                ArrowError::InvalidArgumentError(
                    "the filter must have the length of the array".to_owned(),
                ),
            );
        }
        let ghost m = self.mask@;
        let count = self.count;
        let r = match array {
            Array::Null(a) => {
                proof {
                    lemma_select_nulls(a.spec_len(), m, count as nat);
                }
                Array::Null(NullArray::new_null(a.data_type().clone(), count))
            },
            Array::Boolean(a) => {
                proof {
                    lemma_bool_content_select(a.slots(), m);
                }
                Array::Boolean(filter_boolean(a, &self.spans, Ghost(m), count))
            },
            Array::Utf8(a) => {
                proof {
                    lemma_utf8_content_select(a.slots(), m);
                }
                Array::Utf8(filter_utf8(a, &self.spans, Ghost(m), count))
            },
            Array::Int8(a) => {
                proof {
                    lemma_int_content_select(a.slots(), m);
                }
                Array::Int8(filter_primitive_spans(a, &self.spans, Ghost(m), count))
            },
            Array::Int16(a) => {
                proof {
                    lemma_int_content_select(a.slots(), m);
                }
                Array::Int16(filter_primitive_spans(a, &self.spans, Ghost(m), count))
            },
            Array::Int32(a) => {
                proof {
                    lemma_int_content_select(a.slots(), m);
                }
                Array::Int32(filter_primitive_spans(a, &self.spans, Ghost(m), count))
            },
            Array::Int64(a) => {
                proof {
                    lemma_int_content_select(a.slots(), m);
                }
                Array::Int64(filter_primitive_spans(a, &self.spans, Ghost(m), count))
            },
            Array::UInt8(a) => {
                proof {
                    lemma_int_content_select(a.slots(), m);
                }
                Array::UInt8(filter_primitive_spans(a, &self.spans, Ghost(m), count))
            },
            Array::UInt16(a) => {
                proof {
                    lemma_int_content_select(a.slots(), m);
                }
                Array::UInt16(filter_primitive_spans(a, &self.spans, Ghost(m), count))
            },
            Array::UInt32(a) => {
                proof {
                    lemma_int_content_select(a.slots(), m);
                }
                Array::UInt32(filter_primitive_spans(a, &self.spans, Ghost(m), count))
            },
            Array::UInt64(a) => {
                proof {
                    lemma_int_content_select(a.slots(), m);
                }
                Array::UInt64(filter_primitive_spans(a, &self.spans, Ghost(m), count))
            },
            Array::Union(u) => {
                let r = Array::Union(u.filter_window(0, &self.mask));
                assert(array.content().subrange(0, m.len() as int) =~= array.content());
                r
            },
        };
        proof {
            lemma_select_count(array.content(), m);
        }
        Ok(r)
    }
}

/// Prepares `mask` for filtering many arrays: its runs of selected slots and their
/// number are computed once. A null mask slot selects nothing.
pub fn build_filter(mask: &BooleanArray) -> (r: Result<Filter>)
    ensures
        r matches Ok(f) && f.selection() == mask.selection(),
{
    let selection = effective_mask(mask);
    proof {
        lemma_counts_sum(selection@);
    }
    let count = selection.len() - selection.null_count();
    let spans = slices(&selection);
    Ok(Filter { mask: selection, spans, count })
}

/// The columns of `columns`, each filtered by `mask`. One column is filtered directly;
/// several share one prepared filter. Fails with an invalid-argument error when the
/// columns' length differs from the mask's.
pub fn filter_chunk(columns: &Chunk, mask: &BooleanArray) -> (r: Result<Chunk>)
    ensures
        r is Ok <==> (columns.spec_arrays().len() == 0 || columns.spec_arrays()[0].content().len()
            == mask.slots().len()),
        r matches Err(e) ==> e is InvalidArgumentError,
        r matches Ok(c) ==> {
            &&& c.spec_arrays().len() == columns.spec_arrays().len()
            &&& forall|k: int|
                0 <= k < c.spec_arrays().len() ==> {
                    &&& (#[trigger] c.spec_arrays()[k]).spec_data_type()
                        == columns.spec_arrays()[k].spec_data_type()
                    &&& c.spec_arrays()[k].content() == select(
                        columns.spec_arrays()[k].content(),
                        mask.selection(),
                    )
                    &&& same_variant(c.spec_arrays()[k], columns.spec_arrays()[k])
                }
        },
{
    let arrays = columns.arrays();
    let ghost sel = mask.selection();
    let mut filtered: Vec<Array> = Vec::new();
    if arrays.len() == 1 {
        match filter(&arrays[0], mask) {
            Ok(a) => filtered.push(a),
            Err(e) => return Err(e),
        }
    } else {
        let prepared = match build_filter(mask) {
            Ok(f) => f,
            Err(e) => return Err(e),
        };
        let mut k: usize = 0;
        while k < arrays.len()
            invariant
                k <= arrays@.len(),
                same_lengths(arrays@),
                arrays@ == columns.spec_arrays(),
                prepared.selection() == sel,
                sel == mask.selection(),
                k > 0 ==> arrays@[0].content().len() == sel.len(),
                filtered@.len() == k,
                forall|j: int|
                    0 <= j < k ==> {
                        &&& (#[trigger] filtered@[j]).spec_data_type() == arrays@[j].spec_data_type()
                        &&& filtered@[j].content() == select(arrays@[j].content(), sel)
                        &&& same_variant(filtered@[j], arrays@[j])
                    },
            decreases arrays@.len() - k,
        {
            assert(arrays@[k as int].content().len() == arrays@[0].content().len());
            match prepared.apply(&arrays[k]) {
                Ok(a) => filtered.push(a),
                Err(e) => return Err(e),
            }
            k = k + 1;
        }
    }
    proof {
        assert forall|j: int| 0 <= j < filtered@.len() implies (#[trigger] filtered@[j]).content().len()
            == filtered@[0].content().len() by {
            lemma_select_index(arrays@[j].content(), sel);
            lemma_select_index(arrays@[0].content(), sel);
        }
    }
    match Chunk::try_new(filtered) {
        Ok(c) => Ok(c),
        Err(e) => Err(e),
    }
}

/// Selecting from a sequence as long as the mask keeps one item per set bit.
pub proof fn lemma_select_count<A>(s: Seq<A>, m: Seq<bool>)
    requires
        s.len() == m.len(),
    ensures
        select(s, m).len() == count_set(m),
{
    lemma_select_index(s, m);
    assert(m.take(s.len() as int) =~= m);
}

/// Filtering twice, the second time with a mask that selects every slot, gives the
/// content of the first filtering: the first result, filtered by an all-true mask of
/// its length, is content-equal to it.
pub proof fn lemma_filter_all_true_keeps(
    array: Array,
    mask: BooleanArray,
    once: Array,
    all_true: BooleanArray,
    twice: Array,
)
    requires
        once.spec_data_type() == array.spec_data_type(),
        once.content() == select(array.content(), mask.selection()),
        all_true.slots().len() == once.content().len(),
        forall|i: int| 0 <= i < all_true.slots().len() ==> #[trigger] all_true.slots()[i] == Some(true),
        twice.spec_data_type() == once.spec_data_type(),
        twice.content() == select(once.content(), all_true.selection()),
    ensures
        twice.spec_data_type() == once.spec_data_type(),
        twice.content() == once.content(),
{
    assert forall|i: int| 0 <= i < once.content().len() implies all_true.selection()[i] by {
        assert(all_true.slots()[i] == Some(true));
    }
    crate::select::lemma_select_all(once.content(), all_true.selection());
}

/// The number of slots that a filtering keeps is the number of mask slots that are
/// valid and true.
pub proof fn lemma_filter_count(array: Array, mask: BooleanArray, filtered: Array)
    requires
        array.content().len() == mask.slots().len(),
        filtered.content() == select(array.content(), mask.selection()),
    ensures
        filtered.content().len() == count_set(mask.selection()),
        filtered.content().len() == count_set(
            Seq::new(mask.slots().len(), |i: int| mask.slots()[i] == Some(true)),
        ),
{
    lemma_select_count(array.content(), mask.selection());
    assert(mask.selection() =~= Seq::new(mask.slots().len(), |i: int| mask.slots()[i] == Some(true)));
}

/// A prepared filter and the direct filtering agree: with the selection of the same
/// mask, both succeed or both fail, and when they succeed their results have the same
/// type and content.
pub proof fn lemma_compiled_filter_agrees(
    array: Array,
    mask: BooleanArray,
    compiled: Filter,
    direct: Result<Array>,
    prepared: Result<Array>,
)
    requires
        compiled.selection() == mask.selection(),
        direct is Ok <==> array.content().len() == mask.slots().len(),
        direct matches Ok(a) ==> a.spec_data_type() == array.spec_data_type() && a.content()
            == select(array.content(), mask.selection()),
        prepared is Ok <==> array.content().len() == compiled.selection().len(),
        prepared matches Ok(a) ==> a.spec_data_type() == array.spec_data_type() && a.content()
            == select(array.content(), compiled.selection()),
    ensures
        direct is Ok <==> prepared is Ok,
        direct is Ok ==> direct->Ok_0.spec_data_type() == prepared->Ok_0.spec_data_type()
            && direct->Ok_0.content() == prepared->Ok_0.content(),
{
}

/// Filters a primitive array by a boolean mask, whose null slots select nothing.
pub fn filter_primitive<T: NativeType>(array: &PrimitiveArray<T>, mask: &BooleanArray) -> (r:
    PrimitiveArray<T>)
    requires
        array.slots().len() == mask.slots().len(),
    ensures
        r.spec_data_type() == array.spec_data_type(),
        r.slots() == select(array.slots(), mask.selection()),
{
    filter_nonnull_primitive(array, &effective_mask(mask))
}

} // verus!
