//! Paired-heuristic support-vector classifier trainer.
//!
//! This variant works on signed dual coefficients `beta_i = alpha_i y_i`
//! under the constraint `-C <= beta_i <= C` with the sign tied to the
//! label.  It starts from an initial working pair — drawn at random by
//! `fit`, or supplied by the caller to `fit_with_initial_pair`, which
//! makes a training run fully deterministic and testable — then for a
//! fixed iteration budget takes an analytic step on the pair, refreshes
//! the auxiliary gradient vector `u`, and picks the next pair as the
//! extreme-gradient examples of the KKT partition (`I_UP` / `I_LOW`).
//! There is no convergence check: the budget is the termination policy.
//! Afterwards `alpha_i = beta_i / y_i` is derived and the bias is read
//! off the first strictly interior coefficient; when no coefficient is
//! strictly interior the bias stays at its initial value 0, an explicit
//! policy for a case the algorithm itself leaves open.

use crate::fx::{
    fx_add, fx_div, fx_iabs, fx_max, fx_min, fx_mul, fx_neg, fx_seq, fx_sub, lemma_fx_div_sign,
    Fx, FX_C_LIMIT, FX_SCALE,
};
use crate::kernel::{
    decision_spec, get_kernel_matrix, kernel_at, kernel_consistent, kernel_lookup, predict_spec,
};
use crate::mat::{dmat_copy, dvec_copy, zeros, Mat};
use vstd::arithmetic::div_mod::lemma_div_basics_1;
use crate::FitError;
use vstd::prelude::*;

verus! {

/// The variables the paired step reads and writes.
pub struct PairVars {
    pub kernels: Mat,
    pub beta: Seq<int>,
    pub y: Seq<int>,
    pub c: int,
}

/// Curvature of the sub-problem along the feasible direction:
/// `K(s,s) + K(t,t) - 2 K(s,t)`.
pub open spec fn tsa_k(v: PairVars, s: int, t: int) -> int {
    fx_sub(
        fx_add(kernel_at(v.kernels, s, s), kernel_at(v.kernels, t, t)),
        fx_mul(2 * (FX_SCALE as int), kernel_at(v.kernels, s, t)),
    )
}

/// Numerator of the unconstrained step after folding the first `n`
/// examples: `y_s - y_t - sum_i beta_i (K(i,s) - K(i,t))`.
pub open spec fn tsa_num(v: PairVars, s: int, t: int, n: nat) -> int
    decreases n,
{
    if n == 0 {
        fx_sub(v.y[s], v.y[t])
    } else {
        fx_sub(
            tsa_num(v, s, t, (n - 1) as nat),
            fx_mul(
                v.beta[n - 1],
                fx_sub(kernel_at(v.kernels, n - 1, s), kernel_at(v.kernels, n - 1, t)),
            ),
        )
    }
}

/// Lower feasibility bound for the step, by label combination.
pub open spec fn tsa_lo(v: PairVars, s: int, t: int) -> int {
    if v.y[s] == FX_SCALE && v.y[t] == FX_SCALE {
        fx_max(fx_neg(v.beta[s]), fx_sub(v.beta[t], v.c))
    } else if v.y[s] == FX_SCALE {
        fx_max(fx_neg(v.beta[s]), v.beta[t])
    } else if v.y[t] == FX_SCALE {
        fx_max(fx_sub(fx_neg(v.c), v.beta[s]), fx_sub(v.beta[t], v.c))
    } else {
        fx_max(fx_sub(fx_neg(v.c), v.beta[s]), v.beta[t])
    }
}

/// Upper feasibility bound for the step, by label combination.
pub open spec fn tsa_hi(v: PairVars, s: int, t: int) -> int {
    if v.y[s] == FX_SCALE && v.y[t] == FX_SCALE {
        fx_min(fx_sub(v.c, v.beta[s]), v.beta[t])
    } else if v.y[s] == FX_SCALE {
        fx_min(fx_sub(v.c, v.beta[s]), fx_add(v.c, v.beta[t]))
    } else if v.y[t] == FX_SCALE {
        fx_min(fx_neg(v.beta[s]), v.beta[t])
    } else {
        fx_min(fx_neg(v.beta[s]), fx_add(v.c, v.beta[t]))
    }
}

/// The signed step the optimizer takes on the pair `(s, t)`: the
/// unconstrained step clipped into `[tsa_lo, tsa_hi]` (lower side
/// first, as the solver clips).  A pair with zero curvature takes a
/// zero step: the unconstrained formula would divide by it.
pub open spec fn tsa_delta(v: PairVars, s: int, t: int) -> int {
    if tsa_k(v, s, t) == 0 {
        0
    } else {
        let r = fx_div(tsa_num(v, s, t, v.y.len()), tsa_k(v, s, t));
        let r1 = if r < tsa_lo(v, s, t) {
            tsa_lo(v, s, t)
        } else {
            r
        };
        if r1 > tsa_hi(v, s, t) {
            tsa_hi(v, s, t)
        } else {
            r1
        }
    }
}

/// The exact integer sum of the first `n` signed coefficients.  The
/// dual equality constraint says this stays 0 throughout training.
pub open spec fn beta_total(beta: Seq<int>, n: nat) -> int
    decreases n,
{
    if n == 0 {
        0
    } else {
        beta_total(beta, (n - 1) as nat) + beta[n - 1]
    }
}

/// Two sequences equal on a prefix have the same prefix sum.
pub proof fn lemma_beta_total_congr(a: Seq<int>, b: Seq<int>, n: nat)
    requires
        n <= a.len(),
        n <= b.len(),
        forall|q: int| 0 <= q < n ==> a[q] == b[q],
    ensures
        beta_total(a, n) == beta_total(b, n),
    decreases n,
{
    if n > 0 {
        lemma_beta_total_congr(a, b, (n - 1) as nat);
    }
}

/// An all-zero prefix sums to 0.
pub proof fn lemma_beta_total_zero(a: Seq<int>, n: nat)
    requires
        n <= a.len(),
        forall|q: int| 0 <= q < n ==> a[q] == 0,
    ensures
        beta_total(a, n) == 0,
    decreases n,
{
    if n > 0 {
        lemma_beta_total_zero(a, (n - 1) as nat);
    }
}

/// Replacing one entry shifts the prefix sum by the difference.
pub proof fn lemma_beta_total_update(a: Seq<int>, n: nat, k: int, v: int)
    requires
        0 <= k < n,
        n <= a.len(),
    ensures
        beta_total(a.update(k, v), n) == beta_total(a, n) - a[k] + v,
    decreases n,
{
    if k == n - 1 {
        lemma_beta_total_congr(a.update(k, v), a, (n - 1) as nat);
    } else {
        lemma_beta_total_update(a, (n - 1) as nat, k, v);
    }
}

/// The step numerator vanishes on a degenerate pair `(s, s)`.
pub proof fn lemma_tsa_num_same(v: PairVars, s: int, m: nat)
    ensures
        tsa_num(v, s, s, m) == 0,
    decreases m,
{
    if m > 0 {
        lemma_tsa_num_same(v, s, (m - 1) as nat);
        lemma_div_basics_1(FX_SCALE as int);
        assert(fx_sub(kernel_at(v.kernels, m - 1, s), kernel_at(v.kernels, m - 1, s)) == 0);
        assert(fx_iabs(v.beta[m - 1]) * fx_iabs(0) == 0) by (nonlinear_arith)
            requires
                fx_iabs(0) == 0,
        ;
        assert(0int / (FX_SCALE as int) == 0);
        assert(fx_mul(v.beta[m - 1], 0) == 0);
        assert(tsa_num(v, s, s, m) == fx_sub(
            tsa_num(v, s, s, (m - 1) as nat),
            fx_mul(v.beta[m - 1], 0),
        ));
    }
}

/// The mutable state of one training iteration: the signed
/// coefficients, the gradient vector `u`, and the current working pair.
pub struct TrainState {
    pub beta: Seq<int>,
    pub u: Seq<int>,
    pub s: int,
    pub t: int,
}

/// The gradient vector after a step of size `delta` on `(s, t)`:
/// `u_i - (K(i,s) - K(i,t)) * delta` entrywise.
pub open spec fn u_refreshed(kernels: Mat, u: Seq<int>, s: int, t: int, delta: int) -> Seq<int> {
    Seq::new(
        u.len(),
        |i: int|
            fx_sub(
                u[i],
                fx_mul(fx_sub(kernel_at(kernels, i, s), kernel_at(kernels, i, t)), delta),
            ),
    )
}

/// Membership in the `I_UP` set of the KKT partition.
pub open spec fn sel_up(a: int, y: int, c: int) -> bool {
    (0 < a && a < c) || (a == 0 && y == FX_SCALE) || (a == c && y == -(FX_SCALE as int))
}

/// Membership in the `I_LOW` set of the KKT partition.
pub open spec fn sel_low(a: int, y: int, c: int) -> bool {
    (0 < a && a < c) || (a == 0 && y == -(FX_SCALE as int)) || (a == c && y == FX_SCALE)
}

/// The selection scan over examples `0 .. m`, folded exactly as the
/// trainer scans: the running `(next_s, next_t, best_up, best_low)`
/// quadruple, where ties move the choice to the later example and the
/// current pair `(sx, tx)` is excluded from its own side.
pub open spec fn select_pair(
    beta: Seq<int>,
    y: Seq<int>,
    c: int,
    u: Seq<int>,
    sx: int,
    tx: int,
    m: nat,
) -> (int, int, int, int)
    decreases m,
{
    if m == 0 {
        (0, 0, i64::MIN as int, i64::MAX as int)
    } else {
        let p = select_pair(beta, y, c, u, sx, tx, (m - 1) as nat);
        let i = m - 1;
        let a = fx_div(beta[i], y[i]);
        let p1 = if sel_up(a, y[i], c) && u[i] >= p.2 && i != sx {
            (i, p.1, u[i], p.3)
        } else {
            p
        };
        if sel_low(a, y[i], c) && u[i] <= p1.3 && i != tx {
            (p1.0, i, p1.2, u[i])
        } else {
            p1
        }
    }
}

/// One training iteration: take the paired step on the current pair,
/// refresh the gradient vector, and select the next pair.
pub open spec fn train_iter(kernels: Mat, y: Seq<int>, c: int, st: TrainState) -> TrainState {
    let pv = PairVars { kernels, beta: st.beta, y, c };
    let delta = tsa_delta(pv, st.s, st.t);
    let beta2 = st.beta.update(st.s, fx_add(st.beta[st.s], delta)).update(
        st.t,
        fx_sub(st.beta[st.t], delta),
    );
    let u2 = u_refreshed(kernels, st.u, st.s, st.t, delta);
    let sel = select_pair(beta2, y, c, u2, st.s, st.t, u2.len());
    TrainState { beta: beta2, u: u2, s: sel.0, t: sel.1 }
}

/// The training state after `iters` iterations from `st`.
pub open spec fn train_a(kernels: Mat, y: Seq<int>, c: int, st: TrainState, iters: nat) -> TrainState
    decreases iters,
{
    if iters == 0 {
        st
    } else {
        train_a(kernels, y, c, train_iter(kernels, y, c, st), (iters - 1) as nat)
    }
}

/// The state training starts from, reconstructed from a fitted model
/// and an initial working pair: zero coefficients and `u_i = y_i`.
pub open spec fn init_state(st: SVC, s0: int, t0: int) -> TrainState {
    TrainState {
        beta: Seq::new(st.y@.len(), |i: int| 0),
        u: fx_seq(st.y@),
        s: s0,
        t: t0,
    }
}

/// Whether coefficient `i` of a derived alpha vector is strictly
/// interior to the box `(0, C)`.
pub open spec fn interior_at(alpha: Seq<int>, c: int, i: int) -> bool {
    0 < alpha[i] && alpha[i] < c
}

/// The bias read off example `i`, folding the first `n` examples:
/// `y_i - sum_j alpha_j y_j K(i,j)`.
pub open spec fn bias_sum(alpha: Seq<int>, y: Seq<int>, kernels: Mat, i: int, n: nat) -> int
    decreases n,
{
    if n == 0 {
        y[i]
    } else {
        fx_sub(
            bias_sum(alpha, y, kernels, i, (n - 1) as nat),
            fx_mul(fx_mul(alpha[n - 1], y[n - 1]), kernel_at(kernels, i, n - 1)),
        )
    }
}

/// The bias the scan starting at index `k` settles on: the bias read
/// off the first strictly interior coefficient, or 0 when none exists.
pub open spec fn bias_from(alpha: Seq<int>, y: Seq<int>, kernels: Mat, c: int, k: nat) -> int
    decreases alpha.len() - k,
{
    if k >= alpha.len() {
        0
    } else if interior_at(alpha, c, k as int) {
        bias_sum(alpha, y, kernels, k as int, alpha.len())
    } else {
        bias_from(alpha, y, kernels, c, k + 1)
    }
}

/// Support-vector classifier fitted with heuristic working pairs over
/// signed coefficients.
#[derive(Clone, Debug)]
pub struct SVC {
    pub c: Fx,
    pub tolerance: Fx,
    pub max_iter: usize,
    pub kernels: Mat,
    pub data: Mat,
    pub y: Vec<Fx>,
    pub alpha: Vec<Fx>,
    pub b: Fx,
    pub beta: Vec<Fx>,
}

impl SVC {
    /// The paired step's view of this model.
    pub open spec fn pvars(self) -> PairVars {
        PairVars { kernels: self.kernels, beta: fx_seq(self.beta@), y: fx_seq(self.y@), c: self.c@ }
    }

    /// The hyperparameters are in range.
    pub open spec fn params_ok(self) -> bool {
        &&& 0 <= self.c@ <= FX_C_LIMIT
        &&& 0 <= self.tolerance@
    }

    /// The stored pieces agree in shape and the kernel cache holds the
    /// kernel of the stored data.
    pub open spec fn shapes_ok(self) -> bool {
        &&& self.data.wf()
        &&& self.kernels.wf()
        &&& kernel_consistent(self.kernels, self.data)
        &&& self.y@.len() == self.data.rows
        &&& self.beta@.len() == self.data.rows
    }

    /// Every label is `+1` or `-1`.
    pub open spec fn labels_ok(self) -> bool {
        forall|k: int|
            0 <= k < self.y@.len() ==> (#[trigger] self.y@[k])@ == FX_SCALE || self.y@[k]@ == -(
            FX_SCALE as int)
    }

    /// Every signed coefficient lies in `[-C, C]` with its sign tied to
    /// the label: `0 <= beta_i <= C` under `y_i = +1`, and
    /// `-C <= beta_i <= 0` under `y_i = -1`.
    pub open spec fn sign_box_ok(self) -> bool {
        forall|k: int|
            0 <= k < self.beta@.len() ==> (if self.y@[k]@ == FX_SCALE {
                0 <= (#[trigger] self.beta@[k])@ && self.beta@[k]@ <= self.c@
            } else {
                -self.c@ <= self.beta@[k]@ && self.beta@[k]@ <= 0
            })
    }

    /// Full well-formedness of a model under training.
    pub open spec fn wf(self) -> bool {
        &&& self.params_ok()
        &&& self.shapes_ok()
        &&& self.labels_ok()
        &&& self.sign_box_ok()
    }

    /// A fresh trainer with the given penalty `c`, tolerance and
    /// iteration budget, and no data.
    pub fn new(c: Fx, tolerance: Fx, max_iter: usize) -> (r: SVC)
        requires
            0 <= c@ <= FX_C_LIMIT,
            0 <= tolerance@,
        ensures
            r.wf(),
            r.c == c,
            r.tolerance == tolerance,
            r.max_iter == max_iter,
            r.beta@.len() == 0,
            r.alpha@.len() == 0,
            r.y@.len() == 0,
            r.b@ == 0,
    {
        SVC {
            c,
            tolerance,
            max_iter,
            kernels: Mat::empty(),
            data: Mat::empty(),
            y: Vec::new(),
            alpha: Vec::new(),
            b: Fx::zero(),
            beta: Vec::new(),
        }
    }

    /// Kernel value between training rows `i` and `j`, looked up in the
    /// cached lower triangle.
    pub fn kernel(&self, i: usize, j: usize) -> (r: Fx)
        requires
            self.kernels.wf(),
            self.kernels.rows == self.kernels.cols,
            i < self.kernels.rows,
            j < self.kernels.rows,
        ensures
            r@ == kernel_at(self.kernels, i as int, j as int),
    {
        kernel_lookup(&self.kernels, i, j)
    }

    /// One paired coordinate step on `(s, t)`: take the analytic step,
    /// clipped into the feasible interval, and move the two signed
    /// coefficients by it in opposite directions.  The step is always
    /// inside `[tsa_lo, tsa_hi]` and keeps every coefficient in its
    /// signed box.
    pub fn take_step(&mut self, s: usize, t: usize) -> (delta: Fx)
        requires
            old(self).wf(),
            s < old(self).y@.len(),
            t < old(self).y@.len(),
        ensures
            final(self).wf(),
            delta@ == tsa_delta(old(self).pvars(), s as int, t as int),
            tsa_lo(old(self).pvars(), s as int, t as int) <= delta@ <= tsa_hi(
                old(self).pvars(),
                s as int,
                t as int,
            ),
            final(self).beta@.len() == old(self).beta@.len(),
            s != t ==> final(self).beta@[s as int]@ == fx_add(
                old(self).beta@[s as int]@,
                delta@,
            ),
            final(self).beta@[t as int]@ == fx_sub(old(self).beta@[t as int]@, delta@),
            forall|q: int|
                0 <= q < old(self).beta@.len() && q != s && q != t ==> final(self).beta@[q] == old(
                    self,
                ).beta@[q],
            s == t ==> delta@ == 0,
            beta_total(fx_seq(final(self).beta@), old(self).beta@.len()) == beta_total(
                fx_seq(old(self).beta@),
                old(self).beta@.len(),
            ),
            final(self).c == old(self).c,
            final(self).tolerance == old(self).tolerance,
            final(self).max_iter == old(self).max_iter,
            final(self).kernels == old(self).kernels,
            final(self).data == old(self).data,
            final(self).y == old(self).y,
            final(self).alpha == old(self).alpha,
            final(self).b == old(self).b,
    {
        let ghost v = old(self).pvars();
        let n = self.y.len();
        let ys = self.y[s];
        let yt = self.y[t];
        let betas = self.beta[s];
        let betat = self.beta[t];
        proof {
            assert(ys@ == v.y[s as int] && yt@ == v.y[t as int]);
            assert(betas@ == v.beta[s as int] && betat@ == v.beta[t as int]);
        }
        let two = Fx::from_int(2);
        let k = self.kernel(s, s).add(self.kernel(t, t)).sub(two.mul(self.kernel(s, t)));
        proof {
            assert(two@ == 2 * (FX_SCALE as int));
            assert(k@ == tsa_k(v, s as int, t as int));
        }
        let l: Fx;
        let h: Fx;
        if ys.raw() == FX_SCALE && yt.raw() == FX_SCALE {
            l = betas.neg().max(betat.sub(self.c));
            h = self.c.sub(betas).min(betat);
        } else if ys.raw() == FX_SCALE {
            l = betas.neg().max(betat);
            h = self.c.sub(betas).min(self.c.add(betat));
        } else if yt.raw() == FX_SCALE {
            l = self.c.neg().sub(betas).max(betat.sub(self.c));
            h = betas.neg().min(betat);
        } else {
            l = self.c.neg().sub(betas).max(betat);
            h = betas.neg().min(self.c.add(betat));
        }
        proof {
            assert(l@ == tsa_lo(v, s as int, t as int));
            assert(h@ == tsa_hi(v, s as int, t as int));
            assert(l@ <= 0 <= h@);
        }
        let mut delta: Fx;
        if k.raw() == 0 {
            delta = Fx::zero();
        } else {
            let mut num = ys.sub(yt);
            let mut i: usize = 0;
            while i < n
                invariant
                    self.wf(),
                    *self == *old(self),
                    n == self.y@.len(),
                    n == self.data.rows,
                    s < n,
                    t < n,
                    i <= n,
                    v == self.pvars(),
                    num@ == tsa_num(v, s as int, t as int, i as nat),
                decreases n - i,
            {
                num = num.sub(self.beta[i].mul(self.kernel(i, s).sub(self.kernel(i, t))));
                i = i + 1;
            }
            delta = num.div(k);
            if delta.raw() < l.raw() {
                delta = l;
            }
            if delta.raw() > h.raw() {
                delta = h;
            }
        }
        proof {
            assert(delta@ == tsa_delta(v, s as int, t as int));
            assert(l@ <= delta@ <= h@);
            if s == t {
                lemma_tsa_num_same(v, s as int, n as nat);
                if k@ != 0 {
                    lemma_div_basics_1(fx_iabs(k@));
                    assert(fx_iabs(0) * (FX_SCALE as int) == 0) by (nonlinear_arith)
                        requires
                            fx_iabs(0) == 0,
                    ;
                    assert(fx_div(0, k@) == 0);
                }
                assert(delta@ == 0);
            }
        }
        self.beta.set(s, betas.add(delta));
        self.beta.set(t, betat.sub(delta));
        proof {
            let ghost bold = fx_seq(old(self).beta@);
            let ghost bnew = fx_seq(self.beta@);
            let ghost nn = old(self).beta@.len();
            assert(-v.c <= betas@ <= v.c && -v.c <= betat@ <= v.c);
            if s == t {
                assert(bnew =~= bold);
                lemma_beta_total_congr(bnew, bold, nn);
            } else {
                assert(fx_add(betas@, delta@) == betas@ + delta@);
                assert(fx_sub(betat@, delta@) == betat@ - delta@);
                assert(bnew =~= bold.update(s as int, betas@ + delta@).update(
                    t as int,
                    betat@ - delta@,
                ));
                lemma_beta_total_update(bold, nn, s as int, betas@ + delta@);
                lemma_beta_total_update(
                    bold.update(s as int, betas@ + delta@),
                    nn,
                    t as int,
                    betat@ - delta@,
                );
            }
            assert(beta_total(bnew, nn) == beta_total(bold, nn));
        }
        proof {
            assert forall|q: int| 0 <= q < self.beta@.len() implies (if self.y@[q]@ == FX_SCALE {
                0 <= (#[trigger] self.beta@[q])@ && self.beta@[q]@ <= self.c@
            } else {
                -self.c@ <= self.beta@[q]@ && self.beta@[q]@ <= 0
            }) by {
                if q != s && q != t {
                    assert(self.beta@[q] == old(self).beta@[q]);
                    assert(if old(self).y@[q]@ == FX_SCALE {
                        0 <= (old(self).beta@[q])@ && (old(self).beta@[q])@ <= old(self).c@
                    } else {
                        -old(self).c@ <= (old(self).beta@[q])@ && (old(self).beta@[q])@ <= 0
                    });
                }
            }
        }
        delta
    }

    /// Fit the model to `data` and labels `y`, starting from the given
    /// working pair `(s0, t0)`.
    ///
    /// This is the whole training run with the random draw factored
    /// out, so that a caller (or a test) can fix the initial pair
    /// deterministically; `fit` draws the pair and calls this.
    /// Rejects an empty matrix and a label vector whose length differs
    /// from the row count, keeping the model unchanged.  Otherwise it
    /// builds the kernel cache, freezes copies of the inputs, zeroes
    /// the signed coefficients, and runs the paired step for exactly
    /// `max_iter` iterations (this variant has no convergence check):
    /// the final coefficients are exactly `train_a` applied to the
    /// initial state for `max_iter` iterations, and their sum is 0
    /// (the dual equality constraint).  Afterwards
    /// `alpha_i = beta_i / y_i` is derived — each lies in `[0, C]` —
    /// and the bias is the one `bias_from` names: read off the first
    /// strictly interior coefficient, or 0 when none exists.
    pub fn fit_with_initial_pair(
        &mut self,
        data: &Mat,
        y: &Vec<Fx>,
        s0: usize,
        t0: usize,
    ) -> (r: Result<(), FitError>)
        requires
            old(self).params_ok(),
            data.wf(),
            data.rows * data.rows <= usize::MAX,
            data.rows != 0 && y@.len() == data.rows ==> s0 < data.rows && t0 < data.rows,
            forall|k: int|
                0 <= k < y@.len() ==> (#[trigger] y@[k])@ == FX_SCALE || y@[k]@ == -(
                FX_SCALE as int),
        ensures
            final(self).c == old(self).c,
            final(self).tolerance == old(self).tolerance,
            final(self).max_iter == old(self).max_iter,
            data.rows == 0 ==> r == Err::<(), FitError>(FitError::EmptyData) && *final(self)
                == *old(self),
            data.rows != 0 && y@.len() != data.rows ==> r == Err::<(), FitError>(
                FitError::LengthMismatch,
            ) && *final(self) == *old(self),
            data.rows != 0 && y@.len() == data.rows ==> r == Ok::<(), FitError>(()),
            data.rows != 0 && y@.len() == data.rows ==> final(self).wf(),
            data.rows != 0 && y@.len() == data.rows ==> final(self).data.same(*data),
            data.rows != 0 && y@.len() == data.rows ==> final(self).y@ == y@,
            data.rows != 0 && y@.len() == data.rows ==> final(self).alpha@.len() == data.rows,
            data.rows != 0 && y@.len() == data.rows ==> forall|i: int|
                0 <= i < data.rows ==> (#[trigger] final(self).alpha@[i])@ == fx_div(
                    final(self).beta@[i]@,
                    final(self).y@[i]@,
                ),
            data.rows != 0 && y@.len() == data.rows ==> forall|i: int|
                0 <= i < data.rows ==> 0 <= (#[trigger] final(self).alpha@[i])@ <= final(self).c@,
            data.rows != 0 && y@.len() == data.rows ==> final(self).b@ == bias_from(
                fx_seq(final(self).alpha@),
                fx_seq(final(self).y@),
                final(self).kernels,
                final(self).c@,
                0,
            ),
            data.rows != 0 && y@.len() == data.rows ==> beta_total(
                fx_seq(final(self).beta@),
                data.rows as nat,
            ) == 0,
            data.rows != 0 && y@.len() == data.rows ==> fx_seq(final(self).beta@) == train_a(
                final(self).kernels,
                fx_seq(final(self).y@),
                final(self).c@,
                init_state(*final(self), s0 as int, t0 as int),
                old(self).max_iter as nat,
            ).beta,
    {
        if data.rows == 0 {
            return Err(FitError::EmptyData);
        }
        if y.len() != data.rows {
            return Err(FitError::LengthMismatch);
        }
        let n = data.rows;
        self.kernels = get_kernel_matrix(data);
        self.data = dmat_copy(data);
        proof {
            crate::kernel::lemma_kernel_consistent_same(self.kernels, *data, self.data);
        }
        self.y = dvec_copy(y);
        self.beta = zeros(n);
        self.b = Fx::zero();
        let mut u = dvec_copy(y);
        let mut s = s0;
        let mut t = t0;
        let ghost k0 = self.kernels;
        let ghost yv = fx_seq(self.y@);
        let ghost cc0 = self.c@;
        let ghost total = self.max_iter as nat;
        let ghost st0 = (TrainState {
            beta: fx_seq(self.beta@),
            u: fx_seq(u@),
            s: s0 as int,
            t: t0 as int,
        });
        proof {
            lemma_beta_total_zero(fx_seq(self.beta@), n as nat);
            assert(st0.beta =~= Seq::new(self.y@.len(), |i: int| 0));
            assert(st0 == init_state(*self, s0 as int, t0 as int));
        }
        let mut it: usize = 0;
        while it < self.max_iter
            invariant
                self.wf(),
                self.c == old(self).c,
                self.tolerance == old(self).tolerance,
                self.max_iter == old(self).max_iter,
                n == data.rows,
                n >= 1,
                self.data.same(*data),
                self.y@ == y@,
                self.y@.len() == n,
                self.beta@.len() == n,
                self.b@ == 0,
                s < n,
                t < n,
                u@.len() == n,
                it <= self.max_iter,
                self.kernels == k0,
                fx_seq(self.y@) == yv,
                self.c@ == cc0,
                total == self.max_iter as nat,
                st0 == init_state(*self, s0 as int, t0 as int),
                beta_total(fx_seq(self.beta@), n as nat) == 0,
                train_a(k0, yv, cc0, st0, total) == train_a(
                    k0,
                    yv,
                    cc0,
                    (TrainState {
                        beta: fx_seq(self.beta@),
                        u: fx_seq(u@),
                        s: s as int,
                        t: t as int,
                    }),
                    (self.max_iter - it) as nat,
                ),
            decreases self.max_iter - it,
        {
            let ghost cur = (TrainState {
                beta: fx_seq(self.beta@),
                u: fx_seq(u@),
                s: s as int,
                t: t as int,
            });
            let ghost pv = (PairVars { kernels: k0, beta: cur.beta, y: yv, c: cc0 });
            proof {
                assert(pv == self.pvars());
            }
            let delta = self.take_step(s, t);
            proof {
                assert(delta@ == tsa_delta(pv, s as int, t as int));
                assert(fx_seq(self.beta@) =~= cur.beta.update(
                    s as int,
                    fx_add(cur.beta[s as int], delta@),
                ).update(t as int, fx_sub(cur.beta[t as int], delta@)));
            }
            let ghost uvec0 = u@;
            let mut i: usize = 0;
            while i < n
                invariant
                    self.wf(),
                    self.c == old(self).c,
                    self.tolerance == old(self).tolerance,
                    self.max_iter == old(self).max_iter,
                    n == data.rows,
                    n >= 1,
                    self.data.same(*data),
                    self.y@ == y@,
                    self.y@.len() == n,
                    self.beta@.len() == n,
                    self.b@ == 0,
                    s < n,
                    t < n,
                    i <= n,
                    u@.len() == n,
                    self.kernels == k0,
                    cur.u.len() == n,
                    forall|q: int|
                        0 <= q < i ==> (#[trigger] u@[q])@ == fx_sub(
                            cur.u[q],
                            fx_mul(
                                fx_sub(kernel_at(k0, q, s as int), kernel_at(k0, q, t as int)),
                                delta@,
                            ),
                        ),
                    forall|q: int| i <= q < n ==> u@[q] == uvec0[q],
                    cur.u == fx_seq(uvec0),
                decreases n - i,
            {
                u.set(i, u[i].sub(self.kernel(i, s).sub(self.kernel(i, t)).mul(delta)));
                i = i + 1;
            }
            proof {
                assert(fx_seq(u@) =~= u_refreshed(k0, cur.u, s as int, t as int, delta@));
            }
            let mut nexts: usize = 0;
            let mut nextt: usize = 0;
            let mut nexts_u = Fx::from_raw(i64::MIN);
            let mut nextt_u = Fx::from_raw(i64::MAX);
            let mut i2: usize = 0;
            while i2 < n
                invariant
                    self.wf(),
                    self.c == old(self).c,
                    self.tolerance == old(self).tolerance,
                    self.max_iter == old(self).max_iter,
                    n == data.rows,
                    n >= 1,
                    self.data.same(*data),
                    self.y@ == y@,
                    self.y@.len() == n,
                    self.beta@.len() == n,
                    self.b@ == 0,
                    s < n,
                    t < n,
                    i2 <= n,
                    u@.len() == n,
                    nexts < n,
                    nextt < n,
                    self.kernels == k0,
                    fx_seq(self.y@) == yv,
                    self.c@ == cc0,
                    nexts as int == select_pair(
                        fx_seq(self.beta@),
                        yv,
                        cc0,
                        fx_seq(u@),
                        s as int,
                        t as int,
                        i2 as nat,
                    ).0,
                    nextt as int == select_pair(
                        fx_seq(self.beta@),
                        yv,
                        cc0,
                        fx_seq(u@),
                        s as int,
                        t as int,
                        i2 as nat,
                    ).1,
                    nexts_u@ == select_pair(
                        fx_seq(self.beta@),
                        yv,
                        cc0,
                        fx_seq(u@),
                        s as int,
                        t as int,
                        i2 as nat,
                    ).2,
                    nextt_u@ == select_pair(
                        fx_seq(self.beta@),
                        yv,
                        cc0,
                        fx_seq(u@),
                        s as int,
                        t as int,
                        i2 as nat,
                    ).3,
                decreases n - i2,
            {
                proof {
                    assert(self.y@[i2 as int]@ != 0);
                }
                let alpha_i = self.beta[i2].div(self.y[i2]);
                let inside = alpha_i.raw() > 0 && alpha_i.raw() < self.c.raw();
                if (inside || (alpha_i.raw() == 0 && self.y[i2].raw() == FX_SCALE) || (
                alpha_i.raw() == self.c.raw() && self.y[i2].raw() == -FX_SCALE)) && u[i2].raw()
                    >= nexts_u.raw() && i2 != s {
                    nexts_u = u[i2];
                    nexts = i2;
                }
                if (inside || (alpha_i.raw() == 0 && self.y[i2].raw() == -FX_SCALE) || (
                alpha_i.raw() == self.c.raw() && self.y[i2].raw() == FX_SCALE)) && u[i2].raw()
                    <= nextt_u.raw() && i2 != t {
                    nextt_u = u[i2];
                    nextt = i2;
                }
                proof {
                    assert(alpha_i@ == fx_div(fx_seq(self.beta@)[i2 as int], yv[i2 as int]));
                    assert(nexts as int == select_pair(
                        fx_seq(self.beta@),
                        yv,
                        cc0,
                        fx_seq(u@),
                        s as int,
                        t as int,
                        (i2 + 1) as nat,
                    ).0);
                    assert(nextt as int == select_pair(
                        fx_seq(self.beta@),
                        yv,
                        cc0,
                        fx_seq(u@),
                        s as int,
                        t as int,
                        (i2 + 1) as nat,
                    ).1);
                    assert(nexts_u@ == select_pair(
                        fx_seq(self.beta@),
                        yv,
                        cc0,
                        fx_seq(u@),
                        s as int,
                        t as int,
                        (i2 + 1) as nat,
                    ).2);
                    assert(nextt_u@ == select_pair(
                        fx_seq(self.beta@),
                        yv,
                        cc0,
                        fx_seq(u@),
                        s as int,
                        t as int,
                        (i2 + 1) as nat,
                    ).3);
                }
                i2 = i2 + 1;
            }
            proof {
                let ghost next = (TrainState {
                    beta: fx_seq(self.beta@),
                    u: fx_seq(u@),
                    s: nexts as int,
                    t: nextt as int,
                });
                assert(fx_seq(u@).len() == n);
                assert(next == train_iter(k0, yv, cc0, cur));
                assert(train_a(k0, yv, cc0, cur, (self.max_iter - it) as nat) == train_a(
                    k0,
                    yv,
                    cc0,
                    next,
                    ((self.max_iter - it) - 1) as nat,
                ));
            }
            s = nexts;
            t = nextt;
            it = it + 1;
        }
        let mut alpha_new: Vec<Fx> = Vec::new();
        let mut i: usize = 0;
        while i < n
            invariant
                self.wf(),
                self.c == old(self).c,
                self.tolerance == old(self).tolerance,
                self.max_iter == old(self).max_iter,
                n == data.rows,
                self.data.same(*data),
                self.y@ == y@,
                self.y@.len() == n,
                self.beta@.len() == n,
                self.b@ == 0,
                i <= n,
                alpha_new@.len() == i,
                self.kernels == k0,
                fx_seq(self.y@) == yv,
                self.c@ == cc0,
                total == old(self).max_iter as nat,
                st0 == init_state(*self, s0 as int, t0 as int),
                beta_total(fx_seq(self.beta@), n as nat) == 0,
                fx_seq(self.beta@) == train_a(k0, yv, cc0, st0, total).beta,
                forall|q: int|
                    0 <= q < i ==> (#[trigger] alpha_new@[q])@ == fx_div(
                        self.beta@[q]@,
                        self.y@[q]@,
                    ),
                forall|q: int|
                    0 <= q < i ==> 0 <= (#[trigger] alpha_new@[q])@ && alpha_new@[q]@ <= self.c@,
            decreases n - i,
        {
            proof {
                assert(self.y@[i as int]@ != 0);
            }
            let a = self.beta[i].div(self.y[i]);
            proof {
                lemma_fx_div_sign(self.beta@[i as int]@, self.y@[i as int]@);
            }
            alpha_new.push(a);
            i = i + 1;
        }
        self.alpha = alpha_new;
        let ghost aseq = fx_seq(self.alpha@);
        let ghost yseq = fx_seq(self.y@);
        let ghost kmat = self.kernels;
        let ghost cc = self.c@;
        let mut bi: usize = 0;
        while bi < n
            invariant
                self.wf(),
                self.c == old(self).c,
                self.tolerance == old(self).tolerance,
                self.max_iter == old(self).max_iter,
                n == data.rows,
                self.data.same(*data),
                self.y@ == y@,
                self.y@.len() == n,
                self.beta@.len() == n,
                self.alpha@.len() == n,
                self.b@ == 0,
                bi <= n,
                aseq == fx_seq(self.alpha@),
                yseq == fx_seq(self.y@),
                kmat == self.kernels,
                cc == self.c@,
                bias_from(aseq, yseq, kmat, cc, 0) == bias_from(aseq, yseq, kmat, cc, bi as nat),
                self.kernels == k0,
                fx_seq(self.y@) == yv,
                self.c@ == cc0,
                total == old(self).max_iter as nat,
                st0 == init_state(*self, s0 as int, t0 as int),
                beta_total(fx_seq(self.beta@), n as nat) == 0,
                fx_seq(self.beta@) == train_a(k0, yv, cc0, st0, total).beta,
                forall|q: int|
                    0 <= q < n ==> (#[trigger] self.alpha@[q])@ == fx_div(
                        self.beta@[q]@,
                        self.y@[q]@,
                    ),
                forall|q: int|
                    0 <= q < n ==> 0 <= (#[trigger] self.alpha@[q])@ && self.alpha@[q]@ <= self.c@,
            decreases n - bi,
        {
            let abi = self.alpha[bi];
            if abi.raw() > 0 && abi.raw() < self.c.raw() {
                self.b = self.y[bi];
                let mut j: usize = 0;
                while j < n
                    invariant
                        self.wf(),
                        self.c == old(self).c,
                        self.tolerance == old(self).tolerance,
                        self.max_iter == old(self).max_iter,
                        n == data.rows,
                        self.data.same(*data),
                        self.y@ == y@,
                        self.y@.len() == n,
                        self.beta@.len() == n,
                        self.alpha@.len() == n,
                        bi < n,
                        j <= n,
                        aseq == fx_seq(self.alpha@),
                        yseq == fx_seq(self.y@),
                        kmat == self.kernels,
                        cc == self.c@,
                        bias_from(aseq, yseq, kmat, cc, 0) == bias_from(
                            aseq,
                            yseq,
                            kmat,
                            cc,
                            bi as nat,
                        ),
                        interior_at(aseq, cc, bi as int),
                        self.kernels == k0,
                        fx_seq(self.y@) == yv,
                        self.c@ == cc0,
                        total == old(self).max_iter as nat,
                        st0 == init_state(*self, s0 as int, t0 as int),
                        beta_total(fx_seq(self.beta@), n as nat) == 0,
                        fx_seq(self.beta@) == train_a(k0, yv, cc0, st0, total).beta,
                        self.b@ == bias_sum(aseq, yseq, kmat, bi as int, j as nat),
                        forall|q: int|
                            0 <= q < n ==> (#[trigger] self.alpha@[q])@ == fx_div(
                                self.beta@[q]@,
                                self.y@[q]@,
                            ),
                        forall|q: int|
                            0 <= q < n ==> 0 <= (#[trigger] self.alpha@[q])@ && self.alpha@[q]@
                                <= self.c@,
                    decreases n - j,
                {
                    self.b = self.b.sub(self.alpha[j].mul(self.y[j]).mul(self.kernel(bi, j)));
                    j = j + 1;
                }
                proof {
                    assert(bias_from(aseq, yseq, kmat, cc, bi as nat) == bias_sum(
                        aseq,
                        yseq,
                        kmat,
                        bi as int,
                        aseq.len(),
                    ));
                }
                return Ok(());
            }
            proof {
                assert(!interior_at(aseq, cc, bi as int));
                assert(bias_from(aseq, yseq, kmat, cc, bi as nat) == bias_from(
                    aseq,
                    yseq,
                    kmat,
                    cc,
                    (bi + 1) as nat,
                ));
            }
            bi = bi + 1;
        }
        Ok(())
    }

    /// Fit the model to `data` and labels `y`, drawing the initial
    /// working pair at random.
    ///
    /// The pair is two distinct row indices, so a single-row matrix is
    /// excluded by precondition: the algorithm's pair-sampling step is
    /// undefined there (its observable failures remain the empty matrix
    /// and a mismatched label vector).  Training itself is
    /// `fit_with_initial_pair`, so its whole contract holds here for
    /// the drawn pair: the trajectory clause below states it for some
    /// admissible pair, which is all that holds of every outcome of
    /// the draw.
    pub fn fit(&mut self, data: &Mat, y: &Vec<Fx>) -> (r: Result<(), FitError>)
        requires
            old(self).params_ok(),
            data.wf(),
            data.rows * data.rows <= usize::MAX,
            data.rows != 1,
            forall|k: int|
                0 <= k < y@.len() ==> (#[trigger] y@[k])@ == FX_SCALE || y@[k]@ == -(
                FX_SCALE as int),
        ensures
            final(self).c == old(self).c,
            final(self).tolerance == old(self).tolerance,
            final(self).max_iter == old(self).max_iter,
            data.rows == 0 ==> r == Err::<(), FitError>(FitError::EmptyData) && *final(self)
                == *old(self),
            data.rows != 0 && y@.len() != data.rows ==> r == Err::<(), FitError>(
                FitError::LengthMismatch,
            ) && *final(self) == *old(self),
            data.rows != 0 && y@.len() == data.rows ==> r == Ok::<(), FitError>(()),
            data.rows != 0 && y@.len() == data.rows ==> final(self).wf(),
            data.rows != 0 && y@.len() == data.rows ==> final(self).data.same(*data),
            data.rows != 0 && y@.len() == data.rows ==> final(self).y@ == y@,
            data.rows != 0 && y@.len() == data.rows ==> final(self).alpha@.len() == data.rows,
            data.rows != 0 && y@.len() == data.rows ==> forall|i: int|
                0 <= i < data.rows ==> (#[trigger] final(self).alpha@[i])@ == fx_div(
                    final(self).beta@[i]@,
                    final(self).y@[i]@,
                ),
            data.rows != 0 && y@.len() == data.rows ==> forall|i: int|
                0 <= i < data.rows ==> 0 <= (#[trigger] final(self).alpha@[i])@ <= final(self).c@,
            data.rows != 0 && y@.len() == data.rows ==> final(self).b@ == bias_from(
                fx_seq(final(self).alpha@),
                fx_seq(final(self).y@),
                final(self).kernels,
                final(self).c@,
                0,
            ),
            data.rows != 0 && y@.len() == data.rows ==> beta_total(
                fx_seq(final(self).beta@),
                data.rows as nat,
            ) == 0,
            data.rows != 0 && y@.len() == data.rows ==> exists|s0: int, t0: int|
                0 <= s0 < data.rows && 0 <= t0 < data.rows && s0 != t0 && fx_seq(
                    final(self).beta@,
                ) == train_a(
                    final(self).kernels,
                    fx_seq(final(self).y@),
                    final(self).c@,
                    #[trigger] init_state(*final(self), s0, t0),
                    old(self).max_iter as nat,
                ).beta,
    {
        if data.rows == 0 {
            return Err(FitError::EmptyData);
        }
        if y.len() != data.rows {
            return Err(FitError::LengthMismatch);
        }
        let pair = sample_pair(data.rows);
        let r = self.fit_with_initial_pair(data, y, pair.0, pair.1);
        proof {
            assert(fx_seq(self.beta@) == train_a(
                self.kernels,
                fx_seq(self.y@),
                self.c@,
                init_state(*self, pair.0 as int, pair.1 as int),
                old(self).max_iter as nat,
            ).beta);
        }
        r
    }

    /// Evaluate the decision function of the fitted model at `x`.
    pub fn decision_function(&self, x: &Vec<Fx>) -> (r: Fx)
        requires
            self.data.wf(),
            self.y@.len() == self.data.rows,
            self.alpha@.len() == self.data.rows,
            x@.len() == self.data.cols,
        ensures
            r@ == decision_spec(self.data, fx_seq(self.y@), fx_seq(self.alpha@), self.b@, fx_seq(x@)),
    {
        crate::kernel::decision_value(&self.data, &self.y, &self.alpha, self.b, x)
    }

    /// Classify `x`: the sign of the decision function, with 0 counted
    /// as the positive class.  The result depends on the frozen model
    /// and the input alone, so repeated calls return the same label.
    pub fn predict(&self, x: &Vec<Fx>) -> (r: Fx)
        requires
            self.data.wf(),
            self.y@.len() == self.data.rows,
            self.alpha@.len() == self.data.rows,
            x@.len() == self.data.cols,
        ensures
            r@ == predict_spec(self.data, fx_seq(self.y@), fx_seq(self.alpha@), self.b@, fx_seq(x@)),
    {
        let d = self.decision_function(x);
        if d.raw() >= 0 {
            Fx::one()
        } else {
            Fx::one().neg()
        }
    }
}

/// Relies on rand::seq::index::sample, driven by rand::rng's
/// thread-local generator: it returns exactly `amount` distinct
/// indices, each drawn from `0..length`, and panics only when
/// `amount > length` — excluded here by `n >= 2`.  (rand::rng's first
/// use in a thread can fail only if the operating system's entropy
/// source does: an environmental failure, like running out of memory.)
#[verifier::external_body]
fn sample_pair(n: usize) -> (r: (usize, usize))
    requires
        n >= 2,
    ensures
        r.0 < n,
        r.1 < n,
        r.0 != r.1,
{
    let mut rng = rand::rng();
    let picked = rand::seq::index::sample(&mut rng, n, 2);
    (picked.index(0), picked.index(1))
}

} // verus!
