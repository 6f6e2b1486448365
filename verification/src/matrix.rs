//! Sparse matrices and the constraint system handed to the indexer.

use vstd::prelude::*;

use crate::field::Fe;

verus! {

/// One nonzero entry of a sparse matrix: `(row, col, value)`.
#[derive(Clone, Copy, Debug, PartialEq, Eq, Structural)]
pub struct SparseMatEntry {
    pub row: usize,
    pub col: usize,
    pub val: Fe,
}

impl SparseMatEntry {
    pub fn new(row: usize, col: usize, val: Fe) -> (r: SparseMatEntry)
        ensures
            r == (SparseMatEntry { row, col, val }),
    {
        SparseMatEntry { row, col, val }
    }
}

/// A rank-1 constraint system, already hydrated: the three sparse matrices
/// are given as concrete entry lists. Rows range over `0..num_cons`
/// (constraints) and columns over `0..num_vars`.
pub struct R1cs {
    pub num_cons: usize,
    pub num_vars: usize,
    pub a: Vec<SparseMatEntry>,
    pub b: Vec<SparseMatEntry>,
    pub c: Vec<SparseMatEntry>,
}

/// Every entry of `m` lies inside the `rows x cols` coordinate space.
pub open spec fn entries_in_range(m: Seq<SparseMatEntry>, rows: int, cols: int) -> bool {
    forall|i: int|
        0 <= i < m.len() ==> (#[trigger] m[i]).row < rows && m[i].col < cols
}

impl R1cs {
    /// Well-formedness of an instance.
    ///
    /// The size bounds keep power-of-two padding and slot counting inside
    /// the machine's integer range; an out-of-range coordinate would be a
    /// bug in whatever produced the matrices, so it is excluded here rather
    /// than reported at run time.
    pub open spec fn wf(self) -> bool {
        &&& 2 <= self.num_cons || 2 <= self.num_vars
        &&& self.num_cons <= usize::MAX / 2
        &&& self.num_vars <= usize::MAX / 2
        &&& self.a@.len() + self.b@.len() + self.c@.len() <= usize::MAX as int / 2
        &&& entries_in_range(self.a@, self.num_cons as int, self.num_vars as int)
        &&& entries_in_range(self.b@, self.num_cons as int, self.num_vars as int)
        &&& entries_in_range(self.c@, self.num_cons as int, self.num_vars as int)
    }
}

} // verus!
