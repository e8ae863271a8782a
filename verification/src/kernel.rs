//! Kernel-matrix and error-cache utilities shared by both trainers.
//!
//! The kernel is the linear (inner-product) kernel.  The builder fills
//! only the lower triangle of the cache, exactly as the trainers expect,
//! and lookups mirror across the diagonal; `lemma_kernel_symmetric`
//! shows that a consistent cache answers symmetrically.

use crate::fx::{fx_add, fx_mul, fx_sub, fx_seq, lemma_fx_mul_comm, Fx, FX_SCALE};
use crate::mat::Mat;
use vstd::prelude::*;

verus! {

/// Fixed-point dot product of the first `n` entries, accumulated left
/// to right exactly as the executable loop does.
pub open spec fn fx_dot(a: Seq<int>, b: Seq<int>, n: nat) -> int
    decreases n,
{
    if n == 0 {
        0
    } else {
        fx_add(fx_dot(a, b, (n - 1) as nat), fx_mul(a[n - 1], b[n - 1]))
    }
}

/// The kernel evaluation between rows `i` and `j` of a data matrix.
pub open spec fn kernel_entry(data: Mat, i: int, j: int) -> int {
    fx_dot(data.row_spec(i), data.row_spec(j), data.cols as nat)
}

/// A kernel-cache lookup: the lower triangle holds the values and
/// lookups above the diagonal mirror across it.
pub open spec fn kernel_at(k: Mat, i: int, j: int) -> int {
    if i >= j {
        k.at_spec(i, j)
    } else {
        k.at_spec(j, i)
    }
}

/// What the kernel cache stores at `(i, j)`: the kernel value on and
/// below the diagonal, zero above it.
pub open spec fn tri_entry(data: Mat, i: int, j: int) -> int {
    if i >= j {
        kernel_entry(data, i, j)
    } else {
        0
    }
}

/// A square cache `k` holds the kernel of `data`.
pub open spec fn kernel_consistent(k: Mat, data: Mat) -> bool {
    &&& k.rows == data.rows
    &&& k.cols == data.rows
    &&& forall|i: int, j: int|
        0 <= i < k.rows && 0 <= j < k.rows ==> #[trigger] k.at_spec(i, j) == tri_entry(data, i, j)
}

/// Dot products commute entry for entry.
pub proof fn lemma_fx_dot_comm(a: Seq<int>, b: Seq<int>, n: nat)
    ensures
        fx_dot(a, b, n) == fx_dot(b, a, n),
    decreases n,
{
    if n > 0 {
        lemma_fx_dot_comm(a, b, (n - 1) as nat);
        lemma_fx_mul_comm(a[n - 1], b[n - 1]);
    }
}

/// A consistent kernel cache is symmetric: looking up `(i, j)` and
/// `(j, i)` gives the same value, and both give the kernel of the rows.
pub proof fn lemma_kernel_symmetric(k: Mat, data: Mat, i: int, j: int)
    requires
        kernel_consistent(k, data),
        0 <= i < k.rows,
        0 <= j < k.rows,
    ensures
        kernel_at(k, i, j) == kernel_at(k, j, i),
        kernel_at(k, i, j) == kernel_entry(data, i, j),
{
    lemma_fx_dot_comm(data.row_spec(i), data.row_spec(j), data.cols as nat);
}

/// A cache consistent with a data matrix is consistent with any
/// entry-for-entry copy of it.
pub proof fn lemma_kernel_consistent_same(k: Mat, d1: Mat, d2: Mat)
    requires
        kernel_consistent(k, d1),
        d1.same(d2),
    ensures
        kernel_consistent(k, d2),
{
    assert forall|i: int, j: int| 0 <= i < k.rows && 0 <= j < k.rows implies #[trigger] k.at_spec(
        i,
        j,
    ) == tri_entry(d2, i, j) by {
        assert(d1.row_spec(i) =~= d2.row_spec(i));
        assert(d1.row_spec(j) =~= d2.row_spec(j));
        assert(k.at_spec(i, j) == tri_entry(d1, i, j));
    }
}

/// During construction: cell `(a, b)` of the row-major buffer already
/// holds its final value.  Named so that quantified loop invariants
/// have a clean trigger.
spec fn filled(values: Seq<Fx>, data: Mat, n: int, a: int, b: int) -> bool {
    values[a * n + b]@ == tri_entry(data, a, b)
}

/// Inner product of two equally long vectors.
pub fn inner_product(x: &Vec<Fx>, y: &Vec<Fx>) -> (r: Fx)
    requires
        x@.len() == y@.len(),
    ensures
        r@ == fx_dot(fx_seq(x@), fx_seq(y@), x@.len()),
{
    let mut acc = Fx::zero();
    let mut k: usize = 0;
    while k < x.len()
        invariant
            x@.len() == y@.len(),
            k <= x@.len(),
            acc@ == fx_dot(fx_seq(x@), fx_seq(y@), k as nat),
        decreases x@.len() - k,
    {
        acc = acc.add(x[k].mul(y[k]));
        k = k + 1;
    }
    acc
}

/// Build the kernel cache of a data matrix: an `n x n` matrix whose
/// lower triangle holds the pairwise kernel values and whose strict
/// upper triangle is zero.
pub fn get_kernel_matrix(data: &Mat) -> (r: Mat)
    requires
        data.wf(),
        data.rows * data.rows <= usize::MAX,
    ensures
        r.wf(),
        kernel_consistent(r, *data),
{
    let n = data.rows;
    let mut values: Vec<Fx> = Vec::new();
    let mut i: usize = 0;
    while i < n
        invariant
            data.wf(),
            n == data.rows,
            n * n <= usize::MAX,
            i <= n,
            values@.len() == i * n,
            forall|a: int, b: int|
                0 <= a < i && 0 <= b < n ==> #[trigger] filled(values@, *data, n as int, a, b),
        decreases n - i,
    {
        let mut j: usize = 0;
        proof {
            assert((i as int) * (n as int) + (n as int) <= (n as int) * (n as int))
                by (nonlinear_arith)
                requires
                    0 <= (i as int) && (i as int) < (n as int),
            ;
        }
        while j < n
            invariant
                data.wf(),
                n == data.rows,
                n * n <= usize::MAX,
                i < n,
                j <= n,
                i * n + n <= n * n,
                values@.len() == i * n + j,
                forall|a: int, b: int|
                    0 <= a < i && 0 <= b < n ==> #[trigger] filled(values@, *data, n as int, a, b),
                forall|b: int|
                    0 <= b < j ==> #[trigger] filled(values@, *data, n as int, i as int, b),
            decreases n - j,
        {
            let entry: Fx = if i >= j {
                let xi = data.row(i);
                let xj = data.row(j);
                proof {
                    assert(fx_seq(xi@) =~= data.row_spec(i as int));
                    assert(fx_seq(xj@) =~= data.row_spec(j as int));
                }
                inner_product(&xi, &xj)
            } else {
                Fx::zero()
            };
            proof {
                assert(entry@ == tri_entry(*data, i as int, j as int));
            }
            let ghost pre = values@;
            values.push(entry);
            proof {
                assert forall|a: int, b: int| 0 <= a < i && 0 <= b < n implies #[trigger] filled(
                    values@,
                    *data,
                    n as int,
                    a,
                    b,
                ) by {
                    assert(a * (n as int) + b < (i as int) * (n as int)) by (nonlinear_arith)
                        requires
                            0 <= a && a < (i as int),
                            0 <= b && b < (n as int),
                    ;
                    assert(filled(pre, *data, n as int, a, b));
                    assert(values@[a * (n as int) + b] == pre[a * (n as int) + b]);
                }
                assert forall|b: int| 0 <= b < j + 1 implies #[trigger] filled(
                    values@,
                    *data,
                    n as int,
                    i as int,
                    b,
                ) by {
                    if b < j {
                        assert(filled(pre, *data, n as int, i as int, b));
                        assert(values@[(i as int) * (n as int) + b] == pre[(i as int) * (n as int)
                            + b]);
                    } else {
                        assert(values@[(i as int) * (n as int) + b] == entry);
                    }
                }
            }
            j = j + 1;
        }
        proof {
            assert((i as int + 1) * (n as int) == (i as int) * (n as int) + (n as int))
                by (nonlinear_arith);
        }
        i = i + 1;
    }
    let ghost gvals = values@;
    let r = Mat::from_vec(values, n, n);
    proof {
        assert forall|a: int, b: int| 0 <= a < n && 0 <= b < n implies #[trigger] r.at_spec(a, b)
            == tri_entry(*data, a, b) by {
            assert(filled(gvals, *data, n as int, a, b));
            assert(r.data@ == gvals);
        }
    }
    r
}

/// Partial sum of the decision function over training examples
/// `0 .. n`, at example `i`, accumulated exactly as the loop does.
pub open spec fn err_sum(alpha: Seq<int>, y: Seq<int>, k: Mat, i: int, n: nat) -> int
    decreases n,
{
    if n == 0 {
        0
    } else {
        fx_add(
            err_sum(alpha, y, k, i, (n - 1) as nat),
            fx_mul(fx_mul(alpha[n - 1], y[n - 1]), kernel_at(k, n - 1, i)),
        )
    }
}

/// The decision-function residual at training example `i`:
/// `f(x_i) - y_i` for the model `(alpha, b)` over the kernel cache `k`.
pub open spec fn error_at(alpha: Seq<int>, y: Seq<int>, b: int, k: Mat, i: int) -> int {
    fx_sub(fx_add(err_sum(alpha, y, k, i, y.len()), b), y[i])
}

/// Recompute the full error cache from the current coefficients, bias
/// and kernel cache.
pub fn get_errors(alpha: &Vec<Fx>, y: &Vec<Fx>, b: Fx, kernels: &Mat) -> (r: Vec<Fx>)
    requires
        kernels.wf(),
        kernels.rows == y@.len(),
        kernels.cols == y@.len(),
        alpha@.len() == y@.len(),
    ensures
        r@.len() == y@.len(),
        forall|i: int|
            0 <= i < y@.len() ==> r@[i]@ == error_at(fx_seq(alpha@), fx_seq(y@), b@, *kernels, i),
{
    let n = y.len();
    let mut out: Vec<Fx> = Vec::new();
    let mut i: usize = 0;
    while i < n
        invariant
            kernels.wf(),
            kernels.rows == n,
            kernels.cols == n,
            alpha@.len() == n,
            y@.len() == n,
            i <= n,
            out@.len() == i,
            forall|a: int|
                0 <= a < i ==> out@[a]@ == error_at(fx_seq(alpha@), fx_seq(y@), b@, *kernels, a),
        decreases n - i,
    {
        let mut v = Fx::zero();
        let mut j: usize = 0;
        while j < n
            invariant
                kernels.wf(),
                kernels.rows == n,
                kernels.cols == n,
                alpha@.len() == n,
                y@.len() == n,
                i < n,
                j <= n,
                v@ == err_sum(fx_seq(alpha@), fx_seq(y@), *kernels, i as int, j as nat),
            decreases n - j,
        {
            let kv = kernel_lookup(kernels, j, i);
            v = v.add(alpha[j].mul(y[j]).mul(kv));
            j = j + 1;
        }
        let e = v.add(b).sub(y[i]);
        out.push(e);
        i = i + 1;
    }
    out
}

/// Look an entry up in a square kernel cache, mirroring across the
/// diagonal.
pub fn kernel_lookup(kernels: &Mat, i: usize, j: usize) -> (r: Fx)
    requires
        kernels.wf(),
        kernels.rows == kernels.cols,
        i < kernels.rows,
        j < kernels.rows,
    ensures
        r@ == kernel_at(*kernels, i as int, j as int),
{
    if i >= j {
        kernels.at(i, j)
    } else {
        kernels.at(j, i)
    }
}

/// Partial sum of the decision function of a fitted model at a fresh
/// point `x`, over training examples `0 .. n`.
pub open spec fn df_sum(data: Mat, y: Seq<int>, alpha: Seq<int>, x: Seq<int>, n: nat) -> int
    decreases n,
{
    if n == 0 {
        0
    } else {
        fx_add(
            df_sum(data, y, alpha, x, (n - 1) as nat),
            fx_mul(
                fx_mul(alpha[n - 1], y[n - 1]),
                fx_dot(data.row_spec(n - 1), x, data.cols as nat),
            ),
        )
    }
}

/// The decision function of a fitted model at a fresh point `x`:
/// the weighted kernel sum against every stored training row, plus the
/// bias.
pub open spec fn decision_spec(data: Mat, y: Seq<int>, alpha: Seq<int>, b: int, x: Seq<int>) -> int {
    fx_add(df_sum(data, y, alpha, x, y.len()), b)
}

/// The label a fitted model assigns to `x`: the sign of the decision
/// function, with 0 counted as the positive class.
pub open spec fn predict_spec(data: Mat, y: Seq<int>, alpha: Seq<int>, b: int, x: Seq<int>) -> int {
    if decision_spec(data, y, alpha, b, x) >= 0 {
        FX_SCALE as int
    } else {
        -(FX_SCALE as int)
    }
}

/// Evaluate the decision function of a fitted model at `x`.
pub fn decision_value(data: &Mat, y: &Vec<Fx>, alpha: &Vec<Fx>, b: Fx, x: &Vec<Fx>) -> (r: Fx)
    requires
        data.wf(),
        y@.len() == data.rows,
        alpha@.len() == data.rows,
        x@.len() == data.cols,
    ensures
        r@ == decision_spec(*data, fx_seq(y@), fx_seq(alpha@), b@, fx_seq(x@)),
{
    let n = data.rows;
    let mut acc = Fx::zero();
    let mut i: usize = 0;
    while i < n
        invariant
            data.wf(),
            n == data.rows,
            y@.len() == n,
            alpha@.len() == n,
            x@.len() == data.cols,
            i <= n,
            acc@ == df_sum(*data, fx_seq(y@), fx_seq(alpha@), fx_seq(x@), i as nat),
        decreases n - i,
    {
        let row_i = data.row(i);
        proof {
            assert(fx_seq(row_i@) =~= data.row_spec(i as int));
        }
        let kv = inner_product(&row_i, x);
        acc = acc.add(alpha[i].mul(y[i]).mul(kv));
        i = i + 1;
    }
    acc.add(b)
}

} // verus!
