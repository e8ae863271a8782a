//! Dense row-major matrices of fixed-point scalars.
//!
//! Training data and the cached kernel matrix are stored here.  A
//! matrix is well formed when its backing vector holds exactly
//! `rows * cols` entries; `at_spec` and `row_spec` give the contracts a
//! mathematical handle on entries and rows.

use crate::fx::Fx;
use vstd::prelude::*;

verus! {

/// A dense matrix in row-major order.
#[derive(Clone, Debug)]
pub struct Mat {
    pub data: Vec<Fx>,
    pub rows: usize,
    pub cols: usize,
}

impl Mat {
    /// The backing vector holds one entry per cell.
    pub open spec fn wf(self) -> bool {
        self.data@.len() == self.rows * self.cols
    }

    /// The value at row `i`, column `j`.
    pub open spec fn at_spec(self, i: int, j: int) -> int {
        self.data@[i * (self.cols as int) + j]@
    }

    /// Row `i` as a sequence of values.
    pub open spec fn row_spec(self, i: int) -> Seq<int> {
        Seq::new(self.cols as nat, |j: int| self.at_spec(i, j))
    }

    /// Two matrices hold the same numbers in the same shape.
    pub open spec fn same(self, o: Mat) -> bool {
        &&& self.rows == o.rows
        &&& self.cols == o.cols
        &&& self.data@ == o.data@
    }

    /// An empty matrix with no rows and no columns.
    pub fn empty() -> (r: Mat)
        ensures
            r.wf(),
            r.rows == 0,
            r.cols == 0,
    {
        Mat { data: Vec::new(), rows: 0, cols: 0 }
    }

    /// Wrap a row-major vector of entries as a matrix.
    pub fn from_vec(data: Vec<Fx>, rows: usize, cols: usize) -> (r: Mat)
        requires
            data@.len() == rows * cols,
        ensures
            r.wf(),
            r.rows == rows,
            r.cols == cols,
            r.data@ == data@,
    {
        Mat { data, rows, cols }
    }

    /// Read one entry.
    pub fn at(&self, i: usize, j: usize) -> (r: Fx)
        requires
            self.wf(),
            i < self.rows,
            j < self.cols,
        ensures
            r@ == self.at_spec(i as int, j as int),
    {
        proof {
            assert((i as int) * (self.cols as int) + (j as int) < (self.rows as int) * (
            self.cols as int)) by (nonlinear_arith)
                requires
                    0 <= (i as int) && (i as int) < (self.rows as int),
                    0 <= (j as int) && (j as int) < (self.cols as int),
            ;
        }
        // The backing vector's length bounds `rows * cols` within usize
        // range, so the index computation cannot overflow.
        let len: usize = self.data.len();
        let idx: usize = i * self.cols + j;
        proof {
            assert(idx < len);
        }
        self.data[idx]
    }

    /// Copy one row out as a vector.
    pub fn row(&self, i: usize) -> (r: Vec<Fx>)
        requires
            self.wf(),
            i < self.rows,
        ensures
            r@.len() == self.cols,
            forall|j: int| 0 <= j < self.cols ==> r@[j]@ == self.at_spec(i as int, j),
    {
        let mut out: Vec<Fx> = Vec::new();
        let mut j: usize = 0;
        while j < self.cols
            invariant
                self.wf(),
                i < self.rows,
                j <= self.cols,
                out@.len() == j,
                forall|k: int| 0 <= k < j ==> out@[k]@ == self.at_spec(i as int, k),
            decreases self.cols - j,
        {
            let v = self.at(i, j);
            out.push(v);
            j = j + 1;
        }
        out
    }
}

/// Copy a vector of scalars, as the estimators do when they freeze
/// their training inputs.
pub fn dvec_copy(data: &Vec<Fx>) -> (r: Vec<Fx>)
    ensures
        r@ == data@,
{
    let mut out: Vec<Fx> = Vec::new();
    let mut i: usize = 0;
    while i < data.len()
        invariant
            i <= data@.len(),
            out@ == data@.subrange(0, i as int),
        decreases data@.len() - i,
    {
        out.push(data[i]);
        proof {
            assert(out@ =~= data@.subrange(0, i + 1));
        }
        i = i + 1;
    }
    proof {
        assert(out@ =~= data@);
    }
    out
}

/// A vector of `n` zero scalars, the solvers' initial coefficients.
pub fn zeros(n: usize) -> (r: Vec<Fx>)
    ensures
        r@.len() == n,
        forall|k: int| 0 <= k < n ==> (#[trigger] r@[k])@ == 0,
{
    let mut out: Vec<Fx> = Vec::new();
    let mut i: usize = 0;
    while i < n
        invariant
            i <= n,
            out@.len() == i,
            forall|k: int| 0 <= k < i ==> (#[trigger] out@[k])@ == 0,
        decreases n - i,
    {
        out.push(Fx::zero());
        i = i + 1;
    }
    out
}

/// Copy a matrix entry for entry.
pub fn dmat_copy(data: &Mat) -> (r: Mat)
    ensures
        r.same(*data),
        data.wf() ==> r.wf(),
{
    let d = dvec_copy(&data.data);
    Mat { data: d, rows: data.rows, cols: data.cols }
}

} // verus!
