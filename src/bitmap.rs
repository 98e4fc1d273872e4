use std::sync::Arc;
use vstd::prelude::*;

use crate::error::{ArrowError, Result};

verus! {

/// Whether bit `k` (0 is the least significant) of the byte `b` is set.
pub open spec fn byte_bit(b: u8, k: u8) -> bool {
    (b >> k) & 1u8 == 1u8
}

/// Bit `i` of a little-endian bit-packed byte sequence.
pub open spec fn packed_bit(bytes: Seq<u8>, i: int) -> bool {
    byte_bit(bytes[i / 8], (i % 8) as u8)
}

/// The `length` bits of `bytes` that start at bit `offset`.
pub open spec fn window(bytes: Seq<u8>, offset: int, length: nat) -> Seq<bool> {
    Seq::new(length, |i: int| packed_bit(bytes, offset + i))
}

/// `n` bytes hold at least `l` bits when `n` is `l` divided by eight, rounded up.
pub proof fn lemma_bytes_hold(l: int, n: int)
    requires
        0 <= l,
        n == (l + 7) / 8,
    ensures
        l <= n * 8,
{
}

/// The number of `true` items of `s`.
pub open spec fn count_set(s: Seq<bool>) -> nat
    decreases s.len(),
{
    if s.len() == 0 {
        0
    } else {
        count_set(s.drop_last()) + if s.last() {
            1nat
        } else {
            0nat
        }
    }
}

/// The number of `false` items of `s`.
pub open spec fn count_unset(s: Seq<bool>) -> nat
    decreases s.len(),
{
    if s.len() == 0 {
        0
    } else {
        count_unset(s.drop_last()) + if s.last() {
            0nat
        } else {
            1nat
        }
    }
}

/// Every item of `s` is `true` or `false`: the two counts add up to the length.
pub proof fn lemma_counts_sum(s: Seq<bool>)
    ensures
        count_set(s) + count_unset(s) == s.len(),
    decreases s.len(),
{
    if s.len() > 0 {
        lemma_counts_sum(s.drop_last());
    }
}

/// A sequence of `n` unset bits counts `n` unset and no set bits.
pub proof fn lemma_count_all_unset(s: Seq<bool>)
    requires
        forall|i: int| 0 <= i < s.len() ==> !s[i],
    ensures
        count_unset(s) == s.len(),
        count_set(s) == 0,
    decreases s.len(),
{
    if s.len() > 0 {
        lemma_count_all_unset(s.drop_last());
    }
}

/// Counting a prefix one item longer adds that item.
pub proof fn lemma_count_take_step(s: Seq<bool>, i: int)
    requires
        0 <= i < s.len(),
    ensures
        count_set(s.take(i + 1)) == count_set(s.take(i)) + if s[i] {
            1nat
        } else {
            0nat
        },
        count_unset(s.take(i + 1)) == count_unset(s.take(i)) + if s[i] {
            0nat
        } else {
            1nat
        },
{
    assert(s.take(i + 1).drop_last() =~= s.take(i));
}

/// Setting bit `k` of a byte sets that bit and keeps the others.
pub proof fn lemma_set_bit(b: u8, k: u8, j: u8)
    requires
        k < 8,
        j < 8,
    ensures
        byte_bit(b | (1u8 << k), j) == (j == k || byte_bit(b, j)),
{
    assert(((b | (1u8 << k)) >> j) & 1u8 == 1u8 <==> (j == k || (b >> j) & 1u8 == 1u8))
        by (bit_vector)
        requires
            k < 8,
            j < 8,
    ;
}

/// No bit of the zero byte is set.
pub proof fn lemma_zero_bits(j: u8)
    requires
        j < 8,
    ensures
        !byte_bit(0u8, j),
{
    assert((0u8 >> j) & 1u8 != 1u8) by (bit_vector);
}

/// Eight bits read across a byte boundary: the high bits of `b0` from bit `s` on,
/// followed by the low bits of `b1`.
pub proof fn lemma_straddle(b0: u8, b1: u8, s: u8, k: u8)
    requires
        0 < s < 8,
        k < 8,
    ensures
        byte_bit((b0 >> s) | (b1 << ((8 - s) as u8)), k) == if k < 8 - s {
            byte_bit(b0, (k + s) as u8)
        } else {
            byte_bit(b1, (k + s - 8) as u8)
        },
{
    assert(((((b0 >> s) | (b1 << ((8 - s) as u8))) >> k) & 1u8 == 1u8) == if k < 8 - s {
        (b0 >> ((k + s) as u8)) & 1u8 == 1u8
    } else {
        (b1 >> ((k + s - 8) as u8)) & 1u8 == 1u8
    }) by (bit_vector)
        requires
            0 < s < 8,
            k < 8,
    ;
}

/// A growable sequence of bits, packed eight to a byte, with a running count of unset bits.
#[derive(Debug)]
pub struct MutableBitmap {
    buffer: Vec<u8>,
    length: usize,
    unset: usize,
}

impl View for MutableBitmap {
    type V = Seq<bool>;

    closed spec fn view(&self) -> Seq<bool> {
        window(self.buffer@, 0, self.length as nat)
    }
}

impl MutableBitmap {
    /// The packing invariant: one byte per started group of eight bits, bits past the
    /// end unset, and the count of unset bits kept.
    pub closed spec fn wf(&self) -> bool {
        &&& self.buffer@.len() == (self.length as int + 7) / 8
        &&& forall|j: int|
            self.length <= j < self.buffer@.len() * 8 ==> !#[trigger] packed_bit(self.buffer@, j)
        &&& self.unset == count_unset(self@)
    }

    /// A new empty bitmap with room for `capacity` bits.
    pub fn with_capacity(capacity: usize) -> (r: MutableBitmap)
        ensures
            r.wf(),
            r@ == Seq::<bool>::empty(),
    {
        let buffer: Vec<u8> = Vec::with_capacity(capacity / 8 + 1);
        let r = MutableBitmap { buffer, length: 0, unset: 0 };
        assert(r@ =~= Seq::<bool>::empty());
        r
    }

    /// A new empty bitmap.
    pub fn new() -> (r: MutableBitmap)
        ensures
            r.wf(),
            r@ == Seq::<bool>::empty(),
    {
        Self::with_capacity(0)
    }

    /// The number of bits.
    pub fn len(&self) -> (r: usize)
        ensures
            r == self@.len(),
    {
        self.length
    }

    /// The number of unset bits.
    pub fn unset_bits(&self) -> (r: usize)
        requires
            self.wf(),
        ensures
            r == count_unset(self@),
    {
        self.unset
    }

    /// Appends one bit.
    pub fn push(&mut self, value: bool)
        requires
            old(self).wf(),
            old(self)@.len() < usize::MAX,
        ensures
            final(self).wf(),
            final(self)@ == old(self)@.push(value),
    {
        let ghost before = self@;
        proof {
            lemma_counts_sum(before);
        }
        let k: usize = self.length % 8;
        if k == 0 {
            self.buffer.push(0u8);
        }
        let ghost mid = self.buffer@;
        let last: usize = self.buffer.len() - 1;
        assert(last == self.length / 8);
        if value {
            let b = self.buffer[last];
            self.buffer.set(last, b | (1u8 << (k as u8)));
        } else {
            self.unset = self.unset + 1;
        }
        let ghost n = self.length as int;
        self.length = self.length + 1;
        let ghost ob = old(self).buffer@;
        let ghost nb = self.buffer@;
        assert forall|j: int| 0 <= j < nb.len() * 8 implies #[trigger] packed_bit(nb, j) == if j
            < n {
            packed_bit(ob, j)
        } else if j == n {
            value
        } else {
            false
        } by {
            let jb = (j % 8) as u8;
            if j / 8 == last as int {
                if k == 0 {
                    lemma_zero_bits(jb);
                    assert(mid[last as int] == 0u8);
                } else {
                    assert(mid == ob);
                    if j > n {
                        assert(!packed_bit(ob, j));
                    }
                }
                if value {
                    lemma_set_bit(mid[last as int], k as u8, jb);
                    assert(nb[last as int] == mid[last as int] | (1u8 << (k as u8)));
                } else {
                    assert(nb == mid);
                }
                if j < n {
                    assert(k > 0);
                    assert(mid == ob);
                }
            } else {
                assert(j / 8 < last);
                assert(nb[j / 8] == ob[j / 8]);
            }
        }
        assert(self@ =~= before.push(value));
        assert(self@.drop_last() =~= before);
    }

    /// Freezes the bits into an immutable, shareable [`Bitmap`].
    pub fn into_bitmap(self) -> (r: Bitmap)
        requires
            self.wf(),
        ensures
            r@ == self@,
    {
        let length = self.length;
        let unset = self.unset;
        proof {
            lemma_bytes_hold(length as int, self.buffer@.len() as int);
        }
        let r = Bitmap { bytes: Arc::new(self.buffer), offset: 0, length, unset };
        assert(r@ =~= self@);
        r
    }
}

/// An immutable, shareable sequence of bits: a window of `length` bits starting at bit
/// `offset` of a reference-counted packed byte buffer, with a cached count of unset bits.
/// Cloning and slicing share the bytes.
#[derive(Debug)]
pub struct Bitmap {
    bytes: Arc<Vec<u8>>,
    offset: usize,
    length: usize,
    unset: usize,
}

impl View for Bitmap {
    type V = Seq<bool>;

    closed spec fn view(&self) -> Seq<bool> {
        window(self.bytes@, self.offset as int, self.length as nat)
    }
}

impl Bitmap {
    #[verifier::type_invariant]
    spec fn inv(self) -> bool {
        &&& self.offset + self.length <= self.bytes@.len() * 8
        &&& self.offset + self.length <= usize::MAX
        &&& self.unset == count_unset(self@)
    }

    /// A new empty bitmap.
    pub fn new() -> (r: Bitmap)
        ensures
            r@ == Seq::<bool>::empty(),
    {
        MutableBitmap::new().into_bitmap()
    }

    /// A bitmap of `length` unset bits.
    pub fn new_zeroed(length: usize) -> (r: Bitmap)
        ensures
            r@.len() == length,
            forall|i: int| 0 <= i < length ==> !#[trigger] r@[i],
    {
        let n: usize = length / 8 + if length % 8 == 0 {
            0usize
        } else {
            1usize
        };
        let bytes: Vec<u8> = vec![0u8; n];
        let ghost w = window(bytes@, 0, length as nat);
        assert forall|i: int| 0 <= i < length implies !#[trigger] w[i] by {
            lemma_zero_bits((i % 8) as u8);
        }
        proof {
            lemma_count_all_unset(w);
        }
        Bitmap { bytes: Arc::new(bytes), offset: 0, length, unset: length }
    }

    /// A bitmap holding the given bits.
    pub fn from_bools(values: &[bool]) -> (r: Bitmap)
        ensures
            r@ == values@,
    {
        let mut m = MutableBitmap::with_capacity(values.len());
        let mut i: usize = 0;
        while i < values.len()
            invariant
                i <= values@.len(),
                m.wf(),
                m@ == values@.take(i as int),
            decreases values@.len() - i,
        {
            m.push(values[i]);
            assert(values@.take(i + 1) =~= values@.take(i as int).push(values@[i as int]));
            i = i + 1;
        }
        assert(values@.take(i as int) =~= values@);
        m.into_bitmap()
    }

    /// The number of bits.
    pub fn len(&self) -> (r: usize)
        ensures
            r == self@.len(),
    {
        self.length
    }

    /// Bit `i`.
    pub fn get_bit(&self, i: usize) -> (r: bool)
        requires
            i < self@.len(),
        ensures
            r == self@[i as int],
    {
        proof {
            use_type_invariant(self);
        }
        let p: usize = self.offset + i;
        let b: u8 = self.bytes[p / 8];
        (b >> ((p % 8) as u8)) & 1u8 == 1u8
    }

    /// The number of unset bits (in a validity bitmap, the number of nulls).
    pub fn null_count(&self) -> (r: usize)
        ensures
            r == count_unset(self@),
            r == self@.len() - count_set(self@),
    {
        proof {
            use_type_invariant(self);
            lemma_counts_sum(self@);
        }
        self.unset
    }
}

impl Bitmap {
    /// Counts the unset bits of the window of `length` bits from bit `offset` of `bytes`.
    fn count_unset_in(bytes: &Vec<u8>, offset: usize, length: usize) -> (r: usize)
        requires
            offset + length <= bytes@.len() * 8,
            offset + length <= usize::MAX,
        ensures
            r == count_unset(window(bytes@, offset as int, length as nat)),
    {
        let ghost w = window(bytes@, offset as int, length as nat);
        let mut count: usize = 0;
        let mut i: usize = 0;
        while i < length
            invariant
                i <= length,
                offset + length <= bytes@.len() * 8,
                offset + length <= usize::MAX,
                w == window(bytes@, offset as int, length as nat),
                count == count_unset(w.take(i as int)),
                count <= i,
            decreases length - i,
        {
            let p: usize = offset + i;
            let b: u8 = bytes[p / 8];
            proof {
                lemma_count_take_step(w, i as int);
            }
            if (b >> ((p % 8) as u8)) & 1u8 != 1u8 {
                count = count + 1;
            }
            i = i + 1;
        }
        assert(w.take(length as int) =~= w);
        count
    }

    /// The window of `length` bits from bit `offset`, without a bounds check.
    /// It shares the bytes of `self`; only the count of unset bits is recomputed.
    pub fn slice_unchecked(&self, offset: usize, length: usize) -> (r: Bitmap)
        requires
            offset + length <= self@.len(),
        ensures
            r@ == self@.subrange(offset as int, offset + length),
    {
        proof {
            use_type_invariant(self);
        }
        let start: usize = self.offset + offset;
        let unset = Self::count_unset_in(&self.bytes, start, length);
        let r = Bitmap { bytes: Arc::clone(&self.bytes), offset: start, length, unset };
        assert(r@ =~= self@.subrange(offset as int, offset + length));
        r
    }

    /// The window of `length` bits from bit `offset`; fails when the window does not
    /// lie within the bitmap.
    pub fn slice(&self, offset: usize, length: usize) -> (r: Result<Bitmap>)
        ensures
            r.is_ok() <==> offset + length <= self@.len(),
            r.is_ok() ==> r.unwrap()@ == self@.subrange(offset as int, offset + length),
            r.is_err() ==> r->Err_0 is OutOfBounds,
    {
        if offset > self.len() || length > self.len() - offset {
            Err(ArrowError::OutOfBounds("the window lies past the end of the bitmap".to_owned()))
        } else {
            Ok(self.slice_unchecked(offset, length))
        }
    }

    /// Eight consecutive bits, from bit `8 * c` on, as the bits of one byte (bit `k` of the
    /// result is bit `8 * c + k`): the unit of the chunked, lane-wise kernels.
    pub fn chunk(&self, c: usize) -> (r: u8)
        requires
            8 * c + 8 <= self@.len(),
        ensures
            forall|k: u8| k < 8 ==> #[trigger] byte_bit(r, k) == self@[8 * c + k],
    {
        proof {
            use_type_invariant(self);
        }
        let p: usize = self.offset + 8 * c;
        let s: u8 = (p % 8) as u8;
        let idx: usize = p / 8;
        let b0: u8 = self.bytes[idx];
        if s == 0 {
            assert forall|k: u8| k < 8 implies #[trigger] byte_bit(b0, k) == self@[8 * c + k] by {
                assert((p + k) / 8 == idx && (p + k) % 8 == k);
            }
            b0
        } else {
            let b1: u8 = self.bytes[idx + 1];
            let r: u8 = (b0 >> s) | (b1 << (8 - s));
            assert forall|k: u8| k < 8 implies #[trigger] byte_bit(r, k) == self@[8 * c + k] by {
                lemma_straddle(b0, b1, s, k);
                if k < 8 - s {
                    assert((p + k) / 8 == idx && (p + k) % 8 == k + s);
                } else {
                    assert((p + k) / 8 == idx + 1 && (p + k) % 8 == k + s - 8);
                }
            }
            r
        }
    }

    /// The bitwise AND of two bitmaps of equal length.
    pub fn and(&self, other: &Bitmap) -> (r: Bitmap)
        requires
            self@.len() == other@.len(),
        ensures
            r@.len() == self@.len(),
            forall|i: int| 0 <= i < r@.len() ==> #[trigger] r@[i] == (self@[i] && other@[i]),
    {
        let mut m = MutableBitmap::with_capacity(self.len());
        let mut i: usize = 0;
        while i < self.len()
            invariant
                i <= self@.len(),
                self@.len() == other@.len(),
                m.wf(),
                m@.len() == i,
                forall|j: int| 0 <= j < i ==> #[trigger] m@[j] == (self@[j] && other@[j]),
            decreases self@.len() - i,
        {
            m.push(self.get_bit(i) && other.get_bit(i));
            i = i + 1;
        }
        m.into_bitmap()
    }

    /// The bitwise OR of two bitmaps of equal length.
    pub fn or(&self, other: &Bitmap) -> (r: Bitmap)
        requires
            self@.len() == other@.len(),
        ensures
            r@.len() == self@.len(),
            forall|i: int| 0 <= i < r@.len() ==> #[trigger] r@[i] == (self@[i] || other@[i]),
    {
        let mut m = MutableBitmap::with_capacity(self.len());
        let mut i: usize = 0;
        while i < self.len()
            invariant
                i <= self@.len(),
                self@.len() == other@.len(),
                m.wf(),
                m@.len() == i,
                forall|j: int| 0 <= j < i ==> #[trigger] m@[j] == (self@[j] || other@[j]),
            decreases self@.len() - i,
        {
            m.push(self.get_bit(i) || other.get_bit(i));
            i = i + 1;
        }
        m.into_bitmap()
    }

    /// The bitwise negation.
    pub fn not(&self) -> (r: Bitmap)
        ensures
            r@.len() == self@.len(),
            forall|i: int| 0 <= i < r@.len() ==> #[trigger] r@[i] == !self@[i],
    {
        let mut m = MutableBitmap::with_capacity(self.len());
        let mut i: usize = 0;
        while i < self.len()
            invariant
                i <= self@.len(),
                m.wf(),
                m@.len() == i,
                forall|j: int| 0 <= j < i ==> #[trigger] m@[j] == !self@[j],
            decreases self@.len() - i,
        {
            m.push(!self.get_bit(i));
            i = i + 1;
        }
        m.into_bitmap()
    }
}

impl Clone for Bitmap {
    fn clone(&self) -> (r: Bitmap)
        ensures
            r == *self,
    {
        proof {
            use_type_invariant(self);
        }
        Bitmap {
            bytes: Arc::clone(&self.bytes),
            offset: self.offset,
            length: self.length,
            unset: self.unset,
        }
    }
}

impl PartialEq for Bitmap {
    /// Two bitmaps are equal when they hold the same bits, wherever they are stored.
    fn eq(&self, other: &Bitmap) -> (r: bool) {
        if self.len() != other.len() {
            return false;
        }
        let mut i: usize = 0;
        while i < self.len()
            invariant
                i <= self@.len(),
                self@.len() == other@.len(),
                forall|j: int| 0 <= j < i ==> self@[j] == other@[j],
            decreases self@.len() - i,
        {
            if self.get_bit(i) != other.get_bit(i) {
                return false;
            }
            i = i + 1;
        }
        assert(self@ =~= other@);
        true
    }
}

impl vstd::std_specs::cmp::PartialEqSpecImpl for Bitmap {
    open spec fn obeys_eq_spec() -> bool {
        true
    }

    open spec fn eq_spec(&self, other: &Bitmap) -> bool {
        self@ == other@
    }
}

/// Whether slot `i` is valid (not null) under an optional validity bitmap; no bitmap
/// means that no slot is null.
pub open spec fn valid_at(validity: Option<Bitmap>, i: int) -> bool {
    match validity {
        Some(v) => v@[i],
        None => true,
    }
}

/// An optional validity bitmap fits an array of `n` slots.
pub open spec fn validity_fits(validity: Option<Bitmap>, n: int) -> bool {
    match validity {
        Some(v) => v@.len() == n,
        None => true,
    }
}

/// The window of `length` slots from `offset` of an optional validity bitmap.
pub fn slice_validity(validity: &Option<Bitmap>, offset: usize, length: usize) -> (r: Option<
    Bitmap,
>)
    requires
        validity matches Some(v) ==> offset + length <= v@.len(),
    ensures
        r is Some <==> validity is Some,
        r matches Some(w) ==> w@ == validity->Some_0@.subrange(offset as int, offset + length),
{
    match validity {
        Some(v) => Some(v.slice_unchecked(offset, length)),
        None => None,
    }
}

/// A copy of an optional validity bitmap that shares its bits.
pub fn clone_validity(validity: &Option<Bitmap>) -> (r: Option<Bitmap>)
    ensures
        r == *validity,
{
    match validity {
        Some(v) => Some(v.clone()),
        None => None,
    }
}

/// The count of unset bits of a window of a bitmap is the window's length less its
/// set bits, as for the whole bitmap.
pub proof fn lemma_window_null_count(bitmap: Seq<bool>, offset: int, length: int, window: Seq<bool>)
    requires
        0 <= offset,
        0 <= length,
        offset + length <= bitmap.len(),
        window == bitmap.subrange(offset, offset + length),
    ensures
        count_unset(bitmap) == bitmap.len() - count_set(bitmap),
        count_unset(window) == length - count_set(window),
{
    lemma_counts_sum(bitmap);
    lemma_counts_sum(window);
}

} // verus!
