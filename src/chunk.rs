use vstd::prelude::*;

use crate::array::Array;
use crate::error::{ArrowError, Result};

verus! {

/// The arrays have the same length.
pub open spec fn same_lengths(arrays: Seq<Array>) -> bool {
    forall|k: int|
        0 <= k < arrays.len() ==> (#[trigger] arrays[k]).content().len() == arrays[0].content().len()
}

/// A batch of columns of equal length.
#[derive(Debug)]
pub struct Chunk {
    arrays: Vec<Array>,
}

impl Chunk {
    /// The columns have the same length.
    #[verifier::type_invariant]
    spec fn inv(self) -> bool {
        same_lengths(self.arrays@)
    }

    /// The columns.
    pub closed spec fn spec_arrays(&self) -> Seq<Array> {
        self.arrays@
    }

    /// A batch of the given columns; fails with an invalid-argument error when their
    /// lengths differ.
    pub fn try_new(arrays: Vec<Array>) -> (r: Result<Chunk>)
        ensures
            r is Ok <==> same_lengths(arrays@),
            r matches Ok(c) ==> c.spec_arrays() == arrays@,
            r matches Err(e) ==> e is InvalidArgumentError,
    {
        if arrays.len() > 0 {
            let n = arrays[0].len();
            let mut k: usize = 1;
            while k < arrays.len()
                invariant
                    1 <= k <= arrays@.len(),
                    n == arrays@[0].content().len(),
                    forall|j: int| 0 <= j < k ==> (#[trigger] arrays@[j]).content().len() == n,
                decreases arrays@.len() - k,
            {
                if arrays[k].len() != n {
                    return Err(
                        ArrowError::InvalidArgumentError(
                            "the columns of a chunk must have the same length".to_owned(),
                        ),
                    );
                }
                k = k + 1;
            }
        }
        Ok(Chunk { arrays })
    }

    /// The columns.
    pub fn arrays(&self) -> (r: &Vec<Array>)
        ensures
            r@ == self.spec_arrays(),
            same_lengths(self.spec_arrays()),
    {
        proof {
            use_type_invariant(self);
        }
        &self.arrays
    }

    /// The columns, taken out of the batch.
    pub fn into_arrays(self) -> (r: Vec<Array>)
        ensures
            r@ == self.spec_arrays(),
    {
        self.arrays
    }

    /// The number of rows: the length of the columns, or 0 without columns.
    pub fn len(&self) -> (r: usize)
        ensures
            self.spec_arrays().len() == 0 ==> r == 0,
            self.spec_arrays().len() > 0 ==> r == self.spec_arrays()[0].content().len(),
    {
        if self.arrays.len() == 0 {
            0
        } else {
            self.arrays[0].len()
        }
    }
}

} // verus!
