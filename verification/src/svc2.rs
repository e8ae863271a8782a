//! KKT-scan support-vector classifier trainer.
//!
//! This variant keeps unsigned dual coefficients under the box
//! constraint `0 <= alpha_i <= C`, scans every example for a violation
//! of the Karush-Kuhn-Tucker conditions, and jointly optimizes each
//! violating example against every partner with the analytic two-
//! variable step `take_step`.  After every accepted step the error
//! cache is recomputed from scratch.  A full outer pass with no
//! accepted step means the model has converged and training stops
//! early; otherwise the fixed iteration budget ends it.

use crate::fx::{
    fx_abs, fx_add, fx_div, fx_iabs, fx_max, fx_min, fx_mul, fx_neg, fx_seq, fx_sub,
    lemma_fx_mul_comm, lemma_fx_mul_sign, Fx, FX_C_LIMIT, FX_SCALE,
};
use crate::kernel::{
    decision_spec, error_at, get_errors, get_kernel_matrix, kernel_at, kernel_consistent,
    kernel_entry, kernel_lookup, predict_spec,
};
use crate::mat::{dmat_copy, dvec_copy, zeros, Mat};
use crate::FitError;
use vstd::prelude::*;

verus! {

/// A step whose clipped coefficient moves less than this is rejected
/// as numerically insignificant (one thousandth of 1.0).
pub const FX_MIN_STEP: i64 = 1_000_000;

/// The variables the optimizer reads and writes, gathered for the
/// specification: the kernel cache, both coefficient vectors' values,
/// the bias and the two hyperparameters.
pub struct ModelVars {
    pub kernels: Mat,
    pub alpha: Seq<int>,
    pub y: Seq<int>,
    pub b: int,
    pub c: int,
    pub tolerance: int,
}

/// Curvature of the two-variable sub-problem:
/// `K(i,i) + K(j,j) - 2 K(i,j)` (the doubling is an exact addition).
pub open spec fn ts_eta(v: ModelVars, i: int, j: int) -> int {
    fx_sub(
        fx_add(kernel_at(v.kernels, i, i), kernel_at(v.kernels, j, j)),
        fx_add(kernel_at(v.kernels, i, j), kernel_at(v.kernels, i, j)),
    )
}

/// Lower clipping bound of the sub-problem, by label parity.
pub open spec fn ts_lo(v: ModelVars, i: int, j: int) -> int {
    if v.y[i] == v.y[j] {
        fx_max(fx_sub(fx_add(v.alpha[j], v.alpha[i]), v.c), 0)
    } else {
        fx_max(fx_sub(v.alpha[j], v.alpha[i]), 0)
    }
}

/// Upper clipping bound of the sub-problem, by label parity.
pub open spec fn ts_hi(v: ModelVars, i: int, j: int) -> int {
    if v.y[i] == v.y[j] {
        fx_min(v.c, fx_add(v.alpha[j], v.alpha[i]))
    } else {
        fx_min(v.c, fx_add(fx_sub(v.alpha[j], v.alpha[i]), v.c))
    }
}

/// The unconstrained update `alpha_j + y_j (E_i - E_j) / eta`.
pub open spec fn ts_raw(v: ModelVars, e: Seq<int>, i: int, j: int) -> int {
    fx_add(v.alpha[j], fx_div(fx_mul(v.y[j], fx_sub(e[i], e[j])), ts_eta(v, i, j)))
}

/// The update clipped into the box `[ts_lo, ts_hi]` (upper side first,
/// as the solver clips).
pub open spec fn ts_clipped(v: ModelVars, e: Seq<int>, i: int, j: int) -> int {
    let r = ts_raw(v, e, i, j);
    let r1 = if r > ts_hi(v, i, j) {
        ts_hi(v, i, j)
    } else {
        r
    };
    if r1 < ts_lo(v, i, j) {
        ts_lo(v, i, j)
    } else {
        r1
    }
}

/// Whether the optimizer accepts the pair `(i, j)`: the pair is not
/// degenerate, the curvature is positive, the feasible interval is not
/// a point, and the clipped move is numerically significant.
pub open spec fn ts_accepts(v: ModelVars, e: Seq<int>, i: int, j: int) -> bool {
    &&& i != j
    &&& ts_eta(v, i, j) > 0
    &&& ts_hi(v, i, j) != ts_lo(v, i, j)
    &&& fx_abs(fx_sub(v.alpha[j], ts_clipped(v, e, i, j))) >= FX_MIN_STEP
}

/// The partner coefficient after an accepted step:
/// `alpha_i + y_i y_j (alpha_j - alpha_j_new)`.
pub open spec fn ts_alpha_i(v: ModelVars, e: Seq<int>, i: int, j: int) -> int {
    fx_add(
        v.alpha[i],
        fx_mul(fx_mul(v.y[i], v.y[j]), fx_sub(v.alpha[j], ts_clipped(v, e, i, j))),
    )
}

/// First bias candidate, from the KKT boundary condition at example `i`.
pub open spec fn ts_b1(v: ModelVars, e: Seq<int>, i: int, j: int) -> int {
    fx_sub(
        fx_sub(
            fx_sub(v.b, e[i]),
            fx_mul(
                fx_mul(v.y[i], kernel_at(v.kernels, i, i)),
                fx_sub(ts_alpha_i(v, e, i, j), v.alpha[i]),
            ),
        ),
        fx_mul(
            fx_mul(v.y[j], kernel_at(v.kernels, i, j)),
            fx_sub(ts_clipped(v, e, i, j), v.alpha[j]),
        ),
    )
}

/// Second bias candidate, from the KKT boundary condition at example `j`.
pub open spec fn ts_b2(v: ModelVars, e: Seq<int>, i: int, j: int) -> int {
    fx_sub(
        fx_sub(
            fx_sub(v.b, e[j]),
            fx_mul(
                fx_mul(v.y[i], kernel_at(v.kernels, i, j)),
                fx_sub(ts_alpha_i(v, e, i, j), v.alpha[i]),
            ),
        ),
        fx_mul(
            fx_mul(v.y[j], kernel_at(v.kernels, j, j)),
            fx_sub(ts_clipped(v, e, i, j), v.alpha[j]),
        ),
    )
}

/// Whether the updated partner coefficient is strictly interior.
pub open spec fn ts_interior_i(v: ModelVars, e: Seq<int>, i: int, j: int) -> bool {
    0 < ts_alpha_i(v, e, i, j) && ts_alpha_i(v, e, i, j) < v.c
}

/// Whether the updated coefficient `j` is strictly interior.
pub open spec fn ts_interior_j(v: ModelVars, e: Seq<int>, i: int, j: int) -> bool {
    0 < ts_clipped(v, e, i, j) && ts_clipped(v, e, i, j) < v.c
}

/// The bias after an accepted step: the candidate whose coefficient is
/// the only strictly interior one; when both coefficients are interior,
/// or both sit at a bound, the average of the two candidates.
pub open spec fn ts_b_new(v: ModelVars, e: Seq<int>, i: int, j: int) -> int {
    if ts_interior_i(v, e, i, j) && !ts_interior_j(v, e, i, j) {
        ts_b1(v, e, i, j)
    } else if ts_interior_j(v, e, i, j) && !ts_interior_i(v, e, i, j) {
        ts_b2(v, e, i, j)
    } else {
        fx_div(fx_add(ts_b1(v, e, i, j), ts_b2(v, e, i, j)), 2 * (FX_SCALE as int))
    }
}

/// The exact integer sum of the first `n` fixed-point products
/// `alpha_i * y_i`.  The dual equality constraint says this stays 0
/// throughout training.
pub open spec fn dual_sum(alpha: Seq<int>, y: Seq<int>, n: nat) -> int
    decreases n,
{
    if n == 0 {
        0
    } else {
        dual_sum(alpha, y, (n - 1) as nat) + fx_mul(alpha[n - 1], y[n - 1])
    }
}

/// Two coefficient sequences equal on a prefix have the same sum.
pub proof fn lemma_dual_sum_congr(a: Seq<int>, b: Seq<int>, y: Seq<int>, n: nat)
    requires
        n <= a.len(),
        n <= b.len(),
        forall|q: int| 0 <= q < n ==> a[q] == b[q],
    ensures
        dual_sum(a, y, n) == dual_sum(b, y, n),
    decreases n,
{
    if n > 0 {
        lemma_dual_sum_congr(a, b, y, (n - 1) as nat);
    }
}

/// Replacing one coefficient shifts the sum by the product difference.
pub proof fn lemma_dual_sum_update(a: Seq<int>, y: Seq<int>, n: nat, k: int, v: int)
    requires
        0 <= k < n,
        n <= a.len(),
    ensures
        dual_sum(a.update(k, v), y, n) == dual_sum(a, y, n) - fx_mul(a[k], y[k]) + fx_mul(v, y[k]),
    decreases n,
{
    if k == n - 1 {
        lemma_dual_sum_congr(a.update(k, v), a, y, (n - 1) as nat);
    } else {
        lemma_dual_sum_update(a, y, (n - 1) as nat, k, v);
    }
}

/// An all-zero coefficient vector has a zero sum.
pub proof fn lemma_dual_sum_zero(a: Seq<int>, y: Seq<int>, n: nat)
    requires
        n <= a.len(),
        forall|q: int| 0 <= q < n ==> a[q] == 0,
    ensures
        dual_sum(a, y, n) == 0,
    decreases n,
{
    if n > 0 {
        lemma_dual_sum_zero(a, y, (n - 1) as nat);
        assert(fx_iabs(a[n - 1]) * fx_iabs(y[n - 1]) == 0) by (nonlinear_arith)
            requires
                fx_iabs(a[n - 1]) == 0,
        ;
        vstd::arithmetic::div_mod::lemma_div_basics_1(FX_SCALE as int);
        assert(fx_mul(a[n - 1], y[n - 1]) == 0);
    }
}

/// The KKT-violation test at example `i` with residual `e_i`.
pub open spec fn kkt_violated(v: ModelVars, e_i: int, i: int) -> bool {
    ||| (fx_mul(v.y[i], e_i) < fx_neg(v.tolerance) && v.alpha[i] < v.c)
    ||| (fx_mul(v.y[i], e_i) > v.tolerance && v.alpha[i] > 0)
}

/// The error cache the model's variables determine.
pub open spec fn errors_spec(v: ModelVars) -> Seq<int> {
    Seq::new(v.y.len(), |i: int| error_at(v.alpha, v.y, v.b, v.kernels, i))
}

/// No partner yields an accepted step for example `i`.
pub open spec fn no_accepted_step(v: ModelVars, i: int) -> bool {
    forall|j: int| 0 <= j < v.y.len() ==> !ts_accepts(v, errors_spec(v), i, j)
}

/// A fixpoint of the outer scan: every KKT-violating example is
/// rejected against every partner, so a further pass changes nothing.
pub open spec fn converged_spec(v: ModelVars) -> bool {
    forall|i: int|
        0 <= i < v.y.len() && kkt_violated(v, errors_spec(v)[i], i) ==> #[trigger] no_accepted_step(
            v,
            i,
        )
}

/// The model after one accepted step on `(i, j)`: the coefficients and
/// bias exactly as `take_step` commits them, everything else unchanged.
pub open spec fn stepped(v: ModelVars, i: int, j: int) -> ModelVars {
    ModelVars {
        kernels: v.kernels,
        alpha: v.alpha.update(i, ts_alpha_i(v, errors_spec(v), i, j)).update(
            j,
            ts_clipped(v, errors_spec(v), i, j),
        ),
        y: v.y,
        b: ts_b_new(v, errors_spec(v), i, j),
        c: v.c,
        tolerance: v.tolerance,
    }
}

/// Partners `0 .. j` tried in order for the violating example `i`: the
/// model after those attempts, and whether any step was accepted.  The
/// error cache is recomputed from the state after every accepted step,
/// as the trainer does.
pub open spec fn scan_upd(v: ModelVars, i: int, j: nat) -> (ModelVars, bool)
    decreases j,
{
    if j == 0 {
        (v, false)
    } else {
        let p = scan_upd(v, i, (j - 1) as nat);
        if ts_accepts(p.0, errors_spec(p.0), i, j - 1) {
            (stepped(p.0, i, j - 1), true)
        } else {
            p
        }
    }
}

/// Examples `0 .. i` of one outer pass, in order: each example is
/// KKT-tested against the state its predecessors left, and a violating
/// one is scanned against all `n` partners.
pub open spec fn pass_upd(v: ModelVars, n: nat, i: nat) -> (ModelVars, bool)
    decreases i,
{
    if i == 0 {
        (v, false)
    } else {
        let p = pass_upd(v, n, (i - 1) as nat);
        if kkt_violated(p.0, errors_spec(p.0)[i - 1], i - 1) {
            let q = scan_upd(p.0, i - 1, n);
            (q.0, p.1 || q.1)
        } else {
            p
        }
    }
}

/// The whole training run from `v` with `passes` outer passes left:
/// the final model, and whether training stopped at a pass that
/// accepted no step (convergence) rather than by exhausting the budget.
pub open spec fn run_spec(v: ModelVars, n: nat, passes: nat) -> (ModelVars, bool)
    decreases passes,
{
    if passes == 0 {
        (v, false)
    } else {
        let p = pass_upd(v, n, n);
        if !p.1 {
            (p.0, true)
        } else {
            run_spec(p.0, n, (passes - 1) as nat)
        }
    }
}

/// The variables training starts from, reconstructed from a fitted
/// model: the same kernel cache, labels and hyperparameters, but zero
/// coefficients and bias.  Training never changes those pieces, so a
/// fixpoint here is a fixpoint of the very first scan.
pub open spec fn init_vars(st: SVC2) -> ModelVars {
    ModelVars {
        kernels: st.kernels,
        alpha: Seq::new(st.y@.len(), |i: int| 0),
        y: fx_seq(st.y@),
        b: 0,
        c: st.c@,
        tolerance: st.tolerance@,
    }
}

/// Support-vector classifier fitted by a full KKT-violation scan.
#[derive(Clone, Debug)]
pub struct SVC2 {
    pub c: Fx,
    pub tolerance: Fx,
    pub max_iter: usize,
    pub kernels: Mat,
    pub data: Mat,
    pub y: Vec<Fx>,
    pub alpha: Vec<Fx>,
    pub b: Fx,
    pub converged: bool,
}

impl SVC2 {
    /// The optimizer's view of this model.
    pub open spec fn vars(self) -> ModelVars {
        ModelVars {
            kernels: self.kernels,
            alpha: fx_seq(self.alpha@),
            y: fx_seq(self.y@),
            b: self.b@,
            c: self.c@,
            tolerance: self.tolerance@,
        }
    }

    /// The hyperparameters are in range.
    pub open spec fn params_ok(self) -> bool {
        &&& 0 <= self.c@ <= FX_C_LIMIT
        &&& 0 <= self.tolerance@
    }

    /// All stored pieces agree in shape and the kernel cache holds the
    /// kernel of the stored data.
    pub open spec fn shapes_ok(self) -> bool {
        &&& self.data.wf()
        &&& self.kernels.wf()
        &&& kernel_consistent(self.kernels, self.data)
        &&& self.y@.len() == self.data.rows
        &&& self.alpha@.len() == self.data.rows
    }

    /// Every label is `+1` or `-1`.
    pub open spec fn labels_ok(self) -> bool {
        forall|k: int|
            0 <= k < self.y@.len() ==> (#[trigger] self.y@[k])@ == FX_SCALE || self.y@[k]@ == -(
            FX_SCALE as int)
    }

    /// Every dual coefficient respects the box constraint `[0, C]`.
    pub open spec fn box_ok(self) -> bool {
        forall|k: int|
            0 <= k < self.alpha@.len() ==> 0 <= (#[trigger] self.alpha@[k])@ && self.alpha@[k]@
                <= self.c@
    }

    /// Full well-formedness of a model.
    pub open spec fn wf(self) -> bool {
        &&& self.params_ok()
        &&& self.shapes_ok()
        &&& self.labels_ok()
        &&& self.box_ok()
    }

    /// A fresh trainer with the given penalty `c`, KKT tolerance band
    /// and iteration budget, and no data.
    pub fn new(c: Fx, tolerance: Fx, max_iter: usize) -> (r: SVC2)
        requires
            0 <= c@ <= FX_C_LIMIT,
            0 <= tolerance@,
        ensures
            r.wf(),
            r.c == c,
            r.tolerance == tolerance,
            r.max_iter == max_iter,
            r.alpha@.len() == 0,
            r.y@.len() == 0,
            r.b@ == 0,
            !r.converged,
    {
        SVC2 {
            c,
            tolerance,
            max_iter,
            kernels: Mat::empty(),
            data: Mat::empty(),
            y: Vec::new(),
            alpha: Vec::new(),
            b: Fx::zero(),
            converged: false,
        }
    }

    /// Kernel value between training rows `i` and `j`, looked up in the
    /// cached lower triangle.
    pub fn kernel(&self, i: usize, j: usize) -> (r: Fx)
        requires
            self.kernels.wf(),
            self.kernels.rows == self.kernels.cols,
            i < self.kernels.rows,
            j < self.kernels.rows,
        ensures
            r@ == kernel_at(self.kernels, i as int, j as int),
    {
        kernel_lookup(&self.kernels, i, j)
    }

    /// One analytic two-variable optimization step on the pair `(i, j)`.
    ///
    /// The step is accepted exactly when `ts_accepts` says so; a
    /// rejected step leaves the model untouched, and an accepted step
    /// commits the clipped coefficient (never outside `[ts_lo, ts_hi]`),
    /// its partner, and the new bias, keeping every coefficient inside
    /// the box `[0, C]`.
    #[verifier::rlimit(80)]
    pub fn take_step(&mut self, errors: &Vec<Fx>, i: usize, j: usize) -> (updated: bool)
        requires
            old(self).wf(),
            i < old(self).y@.len(),
            j < old(self).y@.len(),
            errors@.len() == old(self).y@.len(),
        ensures
            updated == ts_accepts(old(self).vars(), fx_seq(errors@), i as int, j as int),
            !updated ==> *final(self) == *old(self),
            final(self).wf(),
            final(self).c == old(self).c,
            final(self).tolerance == old(self).tolerance,
            final(self).max_iter == old(self).max_iter,
            final(self).kernels == old(self).kernels,
            final(self).data == old(self).data,
            final(self).y == old(self).y,
            final(self).converged == old(self).converged,
            final(self).alpha@.len() == old(self).alpha@.len(),
            updated ==> final(self).alpha@[j as int]@ == ts_clipped(
                old(self).vars(),
                fx_seq(errors@),
                i as int,
                j as int,
            ),
            updated ==> final(self).alpha@[i as int]@ == ts_alpha_i(
                old(self).vars(),
                fx_seq(errors@),
                i as int,
                j as int,
            ),
            updated ==> forall|k: int|
                0 <= k < old(self).alpha@.len() && k != i && k != j ==> final(self).alpha@[k]
                    == old(self).alpha@[k],
            updated ==> final(self).b@ == ts_b_new(
                old(self).vars(),
                fx_seq(errors@),
                i as int,
                j as int,
            ),
            updated ==> ts_lo(old(self).vars(), i as int, j as int) <= ts_clipped(
                old(self).vars(),
                fx_seq(errors@),
                i as int,
                j as int,
            ) <= ts_hi(old(self).vars(), i as int, j as int),
            dual_sum(fx_seq(final(self).alpha@), fx_seq(old(self).y@), old(self).y@.len())
                == dual_sum(fx_seq(old(self).alpha@), fx_seq(old(self).y@), old(self).y@.len()),
    {
        let ghost v = old(self).vars();
        let ghost e = fx_seq(errors@);
        if i == j {
            proof {
                assert(!ts_accepts(v, e, i as int, j as int));
            }
            return false;
        }
        let yi = self.y[i];
        let ai = self.alpha[i];
        let ei = errors[i];
        let kii = self.kernel(i, i);
        let kjj = self.kernel(j, j);
        let kij = self.kernel(i, j);
        let yj = self.y[j];
        let aj = self.alpha[j];
        let ej = errors[j];
        proof {
            assert(yi@ == v.y[i as int] && yj@ == v.y[j as int]);
            assert(ai@ == v.alpha[i as int] && aj@ == v.alpha[j as int]);
            assert(ei@ == e[i as int] && ej@ == e[j as int]);
            assert(0 <= ai@ <= v.c && 0 <= aj@ <= v.c);
        }
        let eta = kii.add(kjj).sub(kij.add(kij));
        proof {
            assert(eta@ == ts_eta(v, i as int, j as int));
        }
        if eta.raw() <= 0 {
            proof {
                assert(!ts_accepts(v, e, i as int, j as int));
            }
            return false;
        }
        let aj_unc = aj.add(yj.mul(ei.sub(ej)).div(eta));
        proof {
            assert(aj_unc@ == ts_raw(v, e, i as int, j as int));
        }
        let l: Fx;
        let h: Fx;
        if yi.raw() == yj.raw() {
            l = aj.add(ai).sub(self.c).max(Fx::zero());
            h = self.c.min(aj.add(ai));
        } else {
            l = aj.sub(ai).max(Fx::zero());
            h = self.c.min(aj.sub(ai).add(self.c));
        }
        proof {
            assert(l@ == ts_lo(v, i as int, j as int));
            assert(h@ == ts_hi(v, i as int, j as int));
            assert(0 <= l@ && h@ <= v.c && l@ <= h@);
        }
        if h.raw() == l.raw() {
            proof {
                assert(!ts_accepts(v, e, i as int, j as int));
            }
            return false;
        }
        let mut aj_new = aj_unc;
        if aj_new.raw() > h.raw() {
            aj_new = h;
        }
        if aj_new.raw() < l.raw() {
            aj_new = l;
        }
        proof {
            assert(aj_new@ == ts_clipped(v, e, i as int, j as int));
            assert(l@ <= aj_new@ <= h@);
        }
        if aj.sub(aj_new).abs().raw() < FX_MIN_STEP {
            proof {
                assert(!ts_accepts(v, e, i as int, j as int));
            }
            return false;
        }
        proof {
            assert(ts_accepts(v, e, i as int, j as int));
        }
        let ai_new = ai.add(yi.mul(yj).mul(aj.sub(aj_new)));
        proof {
            lemma_fx_mul_sign(yi@, yj@);
            lemma_fx_mul_sign(fx_mul(yi@, yj@), fx_sub(aj@, aj_new@));
            assert(ai_new@ == ts_alpha_i(v, e, i as int, j as int));
            assert(0 <= ai_new@ <= v.c);
            assert(0 <= aj_new@ <= v.c);
        }
        self.alpha.set(i, ai_new);
        self.alpha.set(j, aj_new);
        let b1 = self.b.sub(ei).sub(yi.mul(kii).mul(ai_new.sub(ai))).sub(
            yj.mul(kij).mul(aj_new.sub(aj)),
        );
        let b2 = self.b.sub(ej).sub(yi.mul(kij).mul(ai_new.sub(ai))).sub(
            yj.mul(kjj).mul(aj_new.sub(aj)),
        );
        proof {
            assert(b1@ == ts_b1(v, e, i as int, j as int));
            assert(b2@ == ts_b2(v, e, i as int, j as int));
        }
        let two = Fx::from_int(2);
        let interior_i = ai_new.raw() > 0 && ai_new.raw() < self.c.raw();
        let interior_j = aj_new.raw() > 0 && aj_new.raw() < self.c.raw();
        if interior_i && !interior_j {
            self.b = b1;
        } else if interior_j && !interior_i {
            self.b = b2;
        } else {
            self.b = b1.add(b2).div(two);
        }
        proof {
            assert(self.b@ == ts_b_new(v, e, i as int, j as int));
            let ghost aold = fx_seq(old(self).alpha@);
            let ghost anew = fx_seq(self.alpha@);
            let ghost yseq = fx_seq(old(self).y@);
            let ghost nn = old(self).y@.len();
            assert(anew =~= aold.update(i as int, ai_new@).update(j as int, aj_new@));
            lemma_dual_sum_update(aold, yseq, nn, i as int, ai_new@);
            lemma_dual_sum_update(aold.update(i as int, ai_new@), yseq, nn, j as int, aj_new@);
            assert(aold.update(i as int, ai_new@)[j as int] == aj@);
            lemma_fx_mul_comm(ai@, yi@);
            lemma_fx_mul_sign(yi@, ai@);
            lemma_fx_mul_comm(ai_new@, yi@);
            lemma_fx_mul_sign(yi@, ai_new@);
            lemma_fx_mul_comm(aj@, yj@);
            lemma_fx_mul_sign(yj@, aj@);
            lemma_fx_mul_comm(aj_new@, yj@);
            lemma_fx_mul_sign(yj@, aj_new@);
            assert(yi@ == yj@ ==> ai_new@ == ai@ + (aj@ - aj_new@));
            assert(yi@ != yj@ ==> ai_new@ == ai@ - (aj@ - aj_new@));
            assert(dual_sum(anew, yseq, nn) == dual_sum(aold, yseq, nn));
            assert forall|k: int| 0 <= k < self.alpha@.len() implies 0 <= (
            #[trigger] self.alpha@[k])@ && self.alpha@[k]@ <= self.c@ by {
                if k != i && k != j {
                    assert(self.alpha@[k] == old(self).alpha@[k]);
                    assert(0 <= (old(self).alpha@[k])@ && (old(self).alpha@[k])@ <= old(
                        self,
                    ).c@);
                }
            }
        }
        true
    }

    /// Fit the model to `data` and labels `y`.
    ///
    /// Rejects an empty matrix and a label vector whose length differs
    /// from the row count, keeping the model unchanged.  Otherwise it
    /// builds the kernel cache, freezes copies of the inputs, starts
    /// from zero coefficients and bias, and scans for KKT violations
    /// until a full pass accepts no step (`converged` is then set, and
    /// the final state is a fixpoint of the scan: `converged_spec`) or
    /// the iteration budget runs out.  Every coefficient of the result
    /// lies in the box `[0, C]`.
    pub fn fit(&mut self, data: &Mat, y: &Vec<Fx>) -> (r: Result<(), FitError>)
        requires
            old(self).params_ok(),
            data.wf(),
            data.rows * data.rows <= usize::MAX,
            forall|k: int|
                0 <= k < y@.len() ==> (#[trigger] y@[k])@ == FX_SCALE || y@[k]@ == -(
                FX_SCALE as int),
        ensures
            final(self).c == old(self).c,
            final(self).tolerance == old(self).tolerance,
            final(self).max_iter == old(self).max_iter,
            data.rows == 0 ==> r == Err::<(), FitError>(FitError::EmptyData) && *final(self)
                == *old(self),
            data.rows != 0 && y@.len() != data.rows ==> r == Err::<(), FitError>(
                FitError::LengthMismatch,
            ) && *final(self) == *old(self),
            data.rows != 0 && y@.len() == data.rows ==> r == Ok::<(), FitError>(()),
            data.rows != 0 && y@.len() == data.rows ==> final(self).wf(),
            data.rows != 0 && y@.len() == data.rows ==> final(self).data.same(*data),
            data.rows != 0 && y@.len() == data.rows ==> final(self).y@ == y@,
            data.rows != 0 && y@.len() == data.rows ==> final(self).alpha@.len() == data.rows,
            data.rows != 0 && y@.len() == data.rows ==> forall|i: int|
                0 <= i < data.rows ==> 0 <= (#[trigger] final(self).alpha@[i])@
                    && final(self).alpha@[i]@ <= final(self).c@,
            data.rows != 0 && y@.len() == data.rows && final(self).converged ==> converged_spec(
                final(self).vars(),
            ),
            data.rows != 0 && y@.len() == data.rows && old(self).max_iter > 0 && converged_spec(
                init_vars(*final(self)),
            ) ==> final(self).converged,
            data.rows != 0 && y@.len() == data.rows ==> dual_sum(
                fx_seq(final(self).alpha@),
                fx_seq(final(self).y@),
                data.rows as nat,
            ) == 0,
            data.rows != 0 && y@.len() == data.rows ==> final(self).vars() == run_spec(
                init_vars(*final(self)),
                data.rows as nat,
                old(self).max_iter as nat,
            ).0,
            data.rows != 0 && y@.len() == data.rows ==> final(self).converged == run_spec(
                init_vars(*final(self)),
                data.rows as nat,
                old(self).max_iter as nat,
            ).1,
    {
        if data.rows == 0 {
            return Err(FitError::EmptyData);
        }
        if y.len() != data.rows {
            return Err(FitError::LengthMismatch);
        }
        let n = data.rows;
        self.kernels = get_kernel_matrix(data);
        self.data = dmat_copy(data);
        proof {
            crate::kernel::lemma_kernel_consistent_same(self.kernels, *data, self.data);
        }
        self.y = dvec_copy(y);
        self.alpha = zeros(n);
        self.b = Fx::zero();
        self.converged = false;
        let ghost init0 = *self;
        proof {
            assert(fx_seq(init0.alpha@) =~= Seq::new(init0.y@.len(), |i: int| 0));
            assert(init0.vars() == init_vars(init0));
            lemma_dual_sum_zero(fx_seq(self.alpha@), fx_seq(self.y@), n as nat);
        }
        let mut errors = get_errors(&self.alpha, &self.y, self.b, &self.kernels);
        proof {
            assert(fx_seq(errors@) =~= errors_spec(self.vars()));
        }
        let mut t: usize = 0;
        let mut done = false;
        while !done && t < self.max_iter
            invariant
                self.wf(),
                self.kernels == init0.kernels,
                self.y@ == init0.y@,
                t == 0 ==> *self == init0,
                converged_spec(init0.vars()) && t > 0 ==> done,
                self.c == old(self).c,
                self.tolerance == old(self).tolerance,
                self.max_iter == old(self).max_iter,
                n == data.rows,
                n > 0,
                self.data.same(*data),
                self.y@ == y@,
                self.alpha@.len() == n,
                errors@.len() == n,
                fx_seq(errors@) == errors_spec(self.vars()),
                self.converged == done,
                done ==> converged_spec(self.vars()),
                t <= self.max_iter,
                dual_sum(fx_seq(self.alpha@), fx_seq(self.y@), n as nat) == 0,
                run_spec(init0.vars(), n as nat, self.max_iter as nat) == (if done {
                    (self.vars(), true)
                } else {
                    run_spec(self.vars(), n as nat, (self.max_iter - t) as nat)
                }),
            decreases self.max_iter - t,
        {
            let ghost pass0 = *self;
            let mut updated = false;
            let mut i: usize = 0;
            while i < n
                invariant
                    self.wf(),
                    self.c == old(self).c,
                    self.tolerance == old(self).tolerance,
                    self.max_iter == old(self).max_iter,
                    n == data.rows,
                    n > 0,
                    i <= n,
                    self.data.same(*data),
                    self.y@ == y@,
                    self.alpha@.len() == n,
                    self.y@.len() == n,
                    errors@.len() == n,
                    fx_seq(errors@) == errors_spec(self.vars()),
                    !self.converged,
                    self.kernels == init0.kernels,
                    converged_spec(init0.vars()) && pass0 == init0 ==> !updated,
                    !updated ==> *self == pass0,
                    !updated ==> forall|a: int|
                        0 <= a < i && kkt_violated(pass0.vars(), errors_spec(pass0.vars())[a], a)
                            ==> #[trigger] no_accepted_step(pass0.vars(), a),
                    dual_sum(fx_seq(self.alpha@), fx_seq(self.y@), n as nat) == 0,
                    pass_upd(pass0.vars(), n as nat, i as nat) == (self.vars(), updated),
                decreases n - i,
            {
                let yi = self.y[i];
                let ai_v = self.alpha[i];
                let ei = errors[i];
                let violated: bool = (yi.mul(ei).raw() < self.tolerance.neg().raw()
                    && ai_v.raw() < self.c.raw()) || (yi.mul(ei).raw() > self.tolerance.raw()
                    && ai_v.raw() > 0);
                proof {
                    assert(violated == kkt_violated(
                        self.vars(),
                        errors_spec(self.vars())[i as int],
                        i as int,
                    ));
                }
                if violated {
                    let ghost upd0: bool = updated;
                    let ghost prev = self.vars();
                    proof {
                        assert(pass_upd(pass0.vars(), n as nat, i as nat) == (prev, upd0));
                        assert(kkt_violated(prev, errors_spec(prev)[i as int], i as int));
                    }
                    let mut j: usize = 0;
                    while j < n
                        invariant
                            upd0 ==> updated,
                            self.wf(),
                            self.c == old(self).c,
                            self.tolerance == old(self).tolerance,
                            self.max_iter == old(self).max_iter,
                            n == data.rows,
                            n > 0,
                            i < n,
                            j <= n,
                            self.data.same(*data),
                            self.y@ == y@,
                            self.alpha@.len() == n,
                            self.y@.len() == n,
                            errors@.len() == n,
                            fx_seq(errors@) == errors_spec(self.vars()),
                            !self.converged,
                            self.kernels == init0.kernels,
                            converged_spec(init0.vars()) && pass0 == init0 ==> !updated,
                            converged_spec(init0.vars()) && pass0 == init0 ==> kkt_violated(
                                init0.vars(),
                                errors_spec(init0.vars())[i as int],
                                i as int,
                            ),
                            !updated ==> *self == pass0,
                            !updated ==> forall|b: int|
                                0 <= b < j ==> !ts_accepts(
                                    pass0.vars(),
                                    errors_spec(pass0.vars()),
                                    i as int,
                                    b,
                                ),
                            dual_sum(fx_seq(self.alpha@), fx_seq(self.y@), n as nat) == 0,
                            pass_upd(pass0.vars(), n as nat, i as nat) == (prev, upd0),
                            kkt_violated(prev, errors_spec(prev)[i as int], i as int),
                            scan_upd(prev, i as int, j as nat).0 == self.vars(),
                            updated == (upd0 || scan_upd(prev, i as int, j as nat).1),
                        decreases n - j,
                    {
                        let updated_step = self.take_step(&errors, i, j);
                        proof {
                            if converged_spec(init0.vars()) && pass0 == init0 && !updated {
                                assert(kkt_violated(
                                    init0.vars(),
                                    errors_spec(init0.vars())[i as int],
                                    i as int,
                                ));
                                assert(no_accepted_step(init0.vars(), i as int));
                                assert(!ts_accepts(
                                    init0.vars(),
                                    errors_spec(init0.vars()),
                                    i as int,
                                    j as int,
                                ));
                                assert(!updated_step);
                            }
                        }
                        proof {
                            let ghost q0 = scan_upd(prev, i as int, j as nat).0;
                            assert(updated_step == ts_accepts(q0, errors_spec(q0), i as int, j as int));
                        }
                        if updated_step {
                            updated = true;
                            errors = get_errors(&self.alpha, &self.y, self.b, &self.kernels);
                            proof {
                                assert(fx_seq(errors@) =~= errors_spec(self.vars()));
                            }
                        }
                        proof {
                            let ghost q = scan_upd(prev, i as int, j as nat);
                            if updated_step {
                                assert(fx_seq(self.alpha@) =~= q.0.alpha.update(
                                    i as int,
                                    ts_alpha_i(q.0, errors_spec(q.0), i as int, j as int),
                                ).update(
                                    j as int,
                                    ts_clipped(q.0, errors_spec(q.0), i as int, j as int),
                                ));
                                assert(self.vars() == stepped(q.0, i as int, j as int));
                            }
                            assert(scan_upd(prev, i as int, (j + 1) as nat).0 == self.vars());
                            assert(updated == (upd0 || scan_upd(prev, i as int, (j + 1) as nat).1));
                        }
                        j = j + 1;
                    }
                }
                proof {
                    assert(pass_upd(pass0.vars(), n as nat, (i + 1) as nat) == (
                        self.vars(),
                        updated,
                    ));
                    if !updated {
                        assert forall|a: int|
                            0 <= a < i + 1 && kkt_violated(
                                pass0.vars(),
                                errors_spec(pass0.vars())[a],
                                a,
                            ) implies #[trigger] no_accepted_step(pass0.vars(), a) by {
                            if a == i {
                                assert(violated);
                                assert(pass0.vars().y.len() == n);
                                assert forall|b: int|
                                    0 <= b < pass0.vars().y.len() implies !ts_accepts(
                                    pass0.vars(),
                                    errors_spec(pass0.vars()),
                                    i as int,
                                    b,
                                ) by {}
                                assert(no_accepted_step(pass0.vars(), i as int));
                            }
                        }
                    }
                }
                i = i + 1;
            }
            proof {
                let ghost r = (self.max_iter - t) as nat;
                assert(pass_upd(pass0.vars(), n as nat, n as nat) == (self.vars(), updated));
                assert(run_spec(pass0.vars(), n as nat, r) == (if !updated {
                    (self.vars(), true)
                } else {
                    run_spec(self.vars(), n as nat, (r - 1) as nat)
                }));
            }
            if !updated {
                proof {
                    assert(*self == pass0);
                    assert(converged_spec(pass0.vars()));
                }
                self.converged = true;
                done = true;
                proof {
                    assert(self.vars() == pass0.vars());
                }
            }
            t = t + 1;
        }
        proof {
            assert(init_vars(*self) == init_vars(init0));
            if self.max_iter > 0 && converged_spec(init_vars(*self)) {
                assert(converged_spec(init0.vars()));
                assert(done);
            }
            if !done {
                assert(run_spec(init0.vars(), n as nat, self.max_iter as nat) == run_spec(
                    self.vars(),
                    n as nat,
                    0,
                ));
            }
            assert(self.vars() == run_spec(init0.vars(), n as nat, self.max_iter as nat).0);
            assert(self.converged == run_spec(init0.vars(), n as nat, self.max_iter as nat).1);
            assert(run_spec(init_vars(*self), n as nat, self.max_iter as nat) == run_spec(
                init0.vars(),
                n as nat,
                self.max_iter as nat,
            ));
        }
        Ok(())
    }

    /// Evaluate the decision function of the fitted model at `x`.
    pub fn decision_function(&self, x: &Vec<Fx>) -> (r: Fx)
        requires
            self.data.wf(),
            self.y@.len() == self.data.rows,
            self.alpha@.len() == self.data.rows,
            x@.len() == self.data.cols,
        ensures
            r@ == decision_spec(self.data, fx_seq(self.y@), fx_seq(self.alpha@), self.b@, fx_seq(x@)),
    {
        crate::kernel::decision_value(&self.data, &self.y, &self.alpha, self.b, x)
    }

    /// Classify `x`: the sign of the decision function, with 0 counted
    /// as the positive class.  The result depends on the frozen model
    /// and the input alone, so repeated calls return the same label.
    pub fn predict(&self, x: &Vec<Fx>) -> (r: Fx)
        requires
            self.data.wf(),
            self.y@.len() == self.data.rows,
            self.alpha@.len() == self.data.rows,
            x@.len() == self.data.cols,
        ensures
            r@ == predict_spec(self.data, fx_seq(self.y@), fx_seq(self.alpha@), self.b@, fx_seq(x@)),
    {
        let d = self.decision_function(x);
        if d.raw() >= 0 {
            Fx::one()
        } else {
            Fx::one().neg()
        }
    }
}

/// A degenerate pair is never accepted: asking the optimizer to move
/// `(i, i)` is always rejected, with no state change (the rejection
/// branch of `take_step` leaves the model equal to its old value).
pub proof fn lemma_same_pair_rejected(v: ModelVars, e: Seq<int>, i: int)
    ensures
        !ts_accepts(v, e, i, i),
{
}

/// Two identical training rows give the pair non-positive curvature,
/// so the optimizer rejects it.
pub proof fn lemma_duplicate_rows_rejected(st: SVC2, e: Seq<int>, i: int, j: int)
    requires
        st.shapes_ok(),
        0 <= i < st.data.rows,
        0 <= j < st.data.rows,
        st.data.row_spec(i) == st.data.row_spec(j),
    ensures
        ts_eta(st.vars(), i, j) <= 0,
        !ts_accepts(st.vars(), e, i, j),
{
    crate::kernel::lemma_kernel_symmetric(st.kernels, st.data, i, i);
    crate::kernel::lemma_kernel_symmetric(st.kernels, st.data, j, j);
    crate::kernel::lemma_kernel_symmetric(st.kernels, st.data, i, j);
    assert(kernel_entry(st.data, i, i) == kernel_entry(st.data, i, j));
    assert(kernel_entry(st.data, j, j) == kernel_entry(st.data, i, j));
}

} // verus!
