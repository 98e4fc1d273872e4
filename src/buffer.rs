use std::sync::Arc;
use vstd::prelude::*;

use crate::error::{ArrowError, Result};

verus! {

/// An immutable, shareable run of values: a window of `length` items starting at
/// `offset` of a reference-counted vector. Cloning and slicing share the storage.
#[derive(Debug)]
pub struct Buffer<T: Copy> {
    data: Arc<Vec<T>>,
    offset: usize,
    length: usize,
}

impl<T: Copy> View for Buffer<T> {
    type V = Seq<T>;

    closed spec fn view(&self) -> Seq<T> {
        self.data@.subrange(self.offset as int, self.offset + self.length)
    }
}

impl<T: Copy> Buffer<T> {
    /// The window lies within the shared storage.
    #[verifier::type_invariant]
    spec fn inv(self) -> bool {
        &&& self.offset + self.length <= self.data@.len()
        &&& self.offset + self.length <= usize::MAX
    }

    /// A new empty buffer.
    pub fn new() -> (r: Buffer<T>)
        ensures
            r@ == Seq::<T>::empty(),
    {
        let r = Buffer { data: Arc::new(Vec::new()), offset: 0, length: 0 };
        assert(r@ =~= Seq::<T>::empty());
        r
    }

    /// A buffer that takes over the values of `v`.
    pub fn from_vec(v: Vec<T>) -> (r: Buffer<T>)
        ensures
            r@ == v@,
    {
        let length = v.len();
        let r = Buffer { data: Arc::new(v), offset: 0, length };
        assert(r@ =~= v@);
        r
    }

    /// The number of values.
    pub fn len(&self) -> (r: usize)
        ensures
            r == self@.len(),
    {
        proof {
            use_type_invariant(self);
        }
        self.length
    }

    /// Value `i`.
    pub fn get(&self, i: usize) -> (r: T)
        requires
            i < self@.len(),
        ensures
            r == self@[i as int],
    {
        proof {
            use_type_invariant(self);
        }
        self.data[self.offset + i]
    }

    /// The window of `length` values from `offset`, without a bounds check.
    pub fn slice_unchecked(&self, offset: usize, length: usize) -> (r: Buffer<T>)
        requires
            offset + length <= self@.len(),
        ensures
            r@ == self@.subrange(offset as int, offset + length),
    {
        proof {
            use_type_invariant(self);
        }
        let r = Buffer { data: Arc::clone(&self.data), offset: self.offset + offset, length };
        assert(r@ =~= self@.subrange(offset as int, offset + length));
        r
    }

    /// The window of `length` values from `offset`; fails when it does not lie within
    /// the buffer.
    pub fn slice(&self, offset: usize, length: usize) -> (r: Result<Buffer<T>>)
        ensures
            r.is_ok() <==> offset + length <= self@.len(),
            r.is_ok() ==> r.unwrap()@ == self@.subrange(offset as int, offset + length),
            r.is_err() ==> r->Err_0 is OutOfBounds,
    {
        if offset > self.len() || length > self.len() - offset {
            Err(ArrowError::OutOfBounds("the window lies past the end of the buffer".to_owned()))
        } else {
            Ok(self.slice_unchecked(offset, length))
        }
    }

    /// The values, copied into a new vector.
    pub fn to_vec(&self) -> (r: Vec<T>)
        ensures
            r@ == self@,
    {
        let mut r: Vec<T> = Vec::with_capacity(self.len());
        let mut i: usize = 0;
        while i < self.len()
            invariant
                i <= self@.len(),
                r@ == self@.take(i as int),
            decreases self@.len() - i,
        {
            r.push(self.get(i));
            assert(self@.take(i + 1) =~= self@.take(i as int).push(self@[i as int]));
            i = i + 1;
        }
        assert(self@.take(i as int) =~= self@);
        r
    }
}

impl<T: Copy> Clone for Buffer<T> {
    fn clone(&self) -> (r: Buffer<T>)
        ensures
            r == *self,
    {
        proof {
            use_type_invariant(self);
        }
        Buffer { data: Arc::clone(&self.data), offset: self.offset, length: self.length }
    }
}

} // verus!
